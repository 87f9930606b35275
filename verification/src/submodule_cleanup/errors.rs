use vstd::prelude::*;

use crate::git::GitError;
use crate::revert::RevertError;
use crate::rewrite::{ApplyError, RewriteError};

verus! {

#[derive(Debug)]
pub enum SubmoduleCleanupError {
    Git(GitError),
    Rewrite(RewriteError),
    Apply(ApplyError),
    Revert(RevertError),
    InvalidState(String),
    StalePlan,
    Recording(String),
}

} // verus!
