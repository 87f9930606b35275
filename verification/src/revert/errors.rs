use vstd::prelude::*;

use crate::git::GitError;

verus! {

#[derive(Debug)]
pub enum RevertError {
    Git(GitError),
    InvalidState(String),
    StalePlan,
    Recording(String),
}

} // verus!
