use vstd::prelude::*;

use crate::rewrite::{ObjectId, RefName, RepoPath};

verus! {

/// Which side a reverted path is restored from.
#[derive(Clone, Copy, Debug, Eq, PartialEq, Structural)]
pub enum RevertTarget {
    Head,
    Base,
}

#[derive(Debug, Eq, PartialEq)]
pub struct RevertRequest {
    pub base: RefName,
    pub paths: Vec<RepoPath>,
    pub target: RevertTarget,
}

#[derive(Debug, Eq, PartialEq)]
pub struct RevertPlan {
    pub paths: Vec<RepoPath>,
    pub target: RevertTarget,
    /// What the paths are restored from: `HEAD` or the Base ref.
    pub source: String,
    pub base_ref: RefName,
    pub commands: Vec<String>,
    pub source_head: ObjectId,
}

#[derive(Debug, Eq, PartialEq)]
pub struct RevertResult {
    pub paths: Vec<RepoPath>,
    pub source: String,
}

} // verus!
