use vstd::prelude::*;

use crate::git::GitError;

verus! {

#[derive(Debug)]
pub enum SwitchError {
    Git(GitError),
    InvalidState(String),
    StalePlan,
    MissingSavedWork(String),
    ExistingSavedWork(String),
    SavedWorkConflict,
    UntrackedConflict(String),
    /// Untracked files that the target branch also has; the switch merges them
    /// only when the request allows it.
    UntrackedOverlap(Vec<String>),
    Recording(String),
}

} // verus!
