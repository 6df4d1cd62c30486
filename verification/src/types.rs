//! Spans over source text, and the kinds of comment the scanners tell apart.
use vstd::prelude::*;
use crate::span::LocatedSpan;

verus! {

/// Whether a comment documents the code that follows it, or stands free.
#[derive(Debug, Clone, Copy, PartialEq, Eq, Structural)]
pub enum CommentType {
    Docstring,
    Free,
}

pub type Span<'a> = LocatedSpan<'a>;

/// Where a symbol starts and where it ends.
#[derive(Debug, Clone, Copy)]
pub struct SymbolPosition<'a> {
    pub start: Span<'a>,
    pub end: Span<'a>,
}

} // verus!
