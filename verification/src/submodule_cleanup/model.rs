use vstd::prelude::*;

use crate::rewrite::{ObjectId, RefName, RepoPath, RewritePlan};

verus! {

#[derive(Debug, Eq, PartialEq)]
pub struct SubmoduleCleanupRequest {
    pub base: RefName,
    pub paths: Vec<RepoPath>,
    pub uncommit: bool,
    pub revert: bool,
}

pub struct SubmoduleCleanupPlan {
    pub paths: Vec<RepoPath>,
    pub uncommit: bool,
    pub revert: bool,
    pub uncommit_paths: Vec<RepoPath>,
    pub revert_paths: Vec<RepoPath>,
    pub base_ref: RefName,
    pub commands: Vec<String>,
    /// The rewrite that takes the gitlink changes out of the Editable range, if any.
    pub uncommit_plan: Option<RewritePlan>,
    /// Where `HEAD` was when the plan was made.
    pub source_head: ObjectId,
}

impl SubmoduleCleanupPlan {
    /// The rewrite the cleanup runs first, when some path has commits to uncommit.
    pub fn uncommit_plan(&self) -> (r: Option<&RewritePlan>)
        ensures
            r == match self.uncommit_plan {
                Some(p) => Some(&p),
                None => None::<&RewritePlan>,
            },
    {
        match &self.uncommit_plan {
            Some(p) => Some(p),
            None => None,
        }
    }
}

#[derive(Debug, Eq, PartialEq)]
pub struct SubmoduleCleanupResult {
    pub paths: Vec<RepoPath>,
    pub uncommitted: usize,
    pub reverted: usize,
}

} // verus!
