//! The files of the project tree that the configuration refers to.
use vstd::prelude::*;
use crate::text::{str_eq, views_of};

verus! {

/// Paths, relative to the project root, of the entries that exist in the
/// project tree (user profiles, disko profiles, ...).
pub struct ProjectFiles {
    pub paths: Vec<String>,
}

impl ProjectFiles {
    /// `rel` names an existing entry of the project tree.
    pub open spec fn has(&self, rel: Seq<char>) -> bool {
        views_of(self.paths@).contains(rel)
    }

    /// The tree holding exactly `paths`.
    pub fn new(paths: Vec<String>) -> (f: Self)
        ensures
            f.paths == paths,
    {
        ProjectFiles { paths }
    }

    /// `rel` names an existing entry of the project tree.
    pub fn contains(&self, rel: &str) -> (r: bool)
        ensures
            r == self.has(rel@),
    {
        let mut i: usize = 0;
        while i < self.paths.len()
            invariant
                0 <= i <= self.paths@.len(),
                forall|j: int| 0 <= j < i ==> views_of(self.paths@)[j] != rel@,
            decreases self.paths@.len() - i,
        {
            if str_eq(self.paths[i].as_str(), rel) {
                assert(views_of(self.paths@)[i as int] == rel@);
                return true;
            }
            i += 1;
        }
        false
    }
}

} // verus!
