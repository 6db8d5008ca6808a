//! Where decision receipts are appended.

use vstd::prelude::*;

verus! {

/// Appends decision receipts, one JSON object per line, to a file.
#[derive(Debug, Clone)]
pub struct JsonlDecisionRecorder {
    path: String,
}

impl JsonlDecisionRecorder {
    pub fn new(path: String) -> (res: JsonlDecisionRecorder)
        ensures
            res.spec_path() == path@,
    {
        JsonlDecisionRecorder { path }
    }

    pub closed spec fn spec_path(&self) -> Seq<char> {
        self.path@
    }

    /// The file receipts are appended to.
    pub fn path(&self) -> (res: &str)
        ensures
            res@ == self.spec_path(),
    {
        self.path.as_str()
    }
}

} // verus!
