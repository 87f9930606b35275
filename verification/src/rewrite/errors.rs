use vstd::prelude::*;

use crate::git::GitError;

verus! {

#[derive(Debug)]
pub enum RewriteError {
    Git(GitError),
    /// The repository is not in a state the rewrite can start from.
    InvalidState(String),
    /// Git printed something the rewrite could not read.
    Parse(String),
}

#[derive(Debug)]
pub enum ApplyError {
    Git(GitError),
    /// The repository moved since the plan was made.
    StalePlan,
    Recording(String),
    InvalidPlan(String),
}

} // verus!
