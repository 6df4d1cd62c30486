use vstd::prelude::*;

pub mod span;
pub mod scan;
pub mod types;
pub mod parsers;
pub mod parser;
pub mod text;
pub mod info;
pub mod tools;
pub mod ignore;
pub mod formatters;
pub mod config;
pub mod check;
pub mod snapshots;

verus! {
} // verus!
