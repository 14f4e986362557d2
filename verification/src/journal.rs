//! The journal: a directory of notes.

use vstd::prelude::*;

verus! {

/// A journal, known by the directory that holds it.
#[derive(Debug, Clone)]
pub struct Journal {
    pub root: String,
}

impl Journal {
    /// The journal under the given root.
    pub fn new(root: String) -> (journal: Journal)
        ensures
            journal.root@ == root@,
    {
        Journal { root }
    }
}

} // verus!
