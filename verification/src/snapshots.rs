//! What a snapshot of the working tree records.
use vstd::prelude::*;

verus! {

/// The branch a snapshot went to, the commit it made, and the commit it
/// was taken on.
#[derive(Debug, Clone, PartialEq, Eq)]
pub struct CaptureStatus {
    pub dura_branch: String,
    pub commit_hash: String,
    pub base_hash: String,
}

impl CaptureStatus {
    /// `resync: <branch>, commit_hash: <commit>, base: <base>`.
    pub fn describe(&self) -> (r: String)
        ensures
            r@ == "resync: "@ + self.dura_branch@ + ", commit_hash: "@ + self.commit_hash@ + ", base: "@
                + self.base_hash@,
    {
        let mut r = String::from_str("resync: ");
        r.append(self.dura_branch.as_str());
        r.append(", commit_hash: ");
        r.append(self.commit_hash.as_str());
        r.append(", base: ");
        r.append(self.base_hash.as_str());
        r
    }
}

} // verus!
