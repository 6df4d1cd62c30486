//! Locations of comments and of the code they describe.
use vstd::prelude::*;
use crate::span::LocatedSpan;

verus! {

pub type Span<'a> = LocatedSpan<'a>;

/// A place in a source file: a line and a character on it.
#[derive(Debug, Clone, Copy, PartialEq, Eq, Structural)]
pub struct LineSpan {
    pub line: usize,
    pub character: usize,
}

/// A range of a source file, from `start` to `end`.
#[derive(Debug, Clone, Copy, PartialEq, Eq, Structural)]
pub struct SymbolSpan {
    pub start: LineSpan,
    pub end: LineSpan,
}

/// A source file, by what the checks read of its path: the path as text,
/// its last component, and the extension of that component.
#[derive(Debug, Clone)]
pub struct SourceFile {
    pub path: String,
    pub name: Option<String>,
    pub extension: Option<String>,
}

} // verus!
