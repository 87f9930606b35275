use vstd::prelude::*;

use crate::git::GitError;

verus! {

#[derive(Debug)]
pub enum SplitError {
    Git(GitError),
    Io(String),
    InvalidState(String),
    StalePlan,
    ExistingBranch(String),
    EmptySelection,
    /// The selected paths carry no changes over the Base.
    NoChanges,
    Recording(String),
}

} // verus!
