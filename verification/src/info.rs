//! What `git blame` tells of a line.
use vstd::prelude::*;

verus! {

/// The time (in seconds since the epoch) and the commit of the last change
/// to a line.
#[derive(Debug, Clone)]
pub struct LineInfo {
    pub time: u64,
    pub commit: String,
}

} // verus!
