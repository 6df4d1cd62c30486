//! The parser of Rust sources.
use vstd::prelude::*;

verus! {

/// Pairs the doc comments of a Rust file with the items they document.
#[derive(Debug, Clone, Copy, PartialEq, Eq, Structural)]
pub struct RsParser;

} // verus!
