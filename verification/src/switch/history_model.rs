use vstd::prelude::*;

use crate::rewrite::ObjectId;

use super::model::SavedWork;

verus! {

/// Moves the checkout back in time: to `commit`, or to the last first-parent
/// commit at or before `until`.
#[derive(Debug, Eq, PartialEq)]
pub struct HistorySwitchRequest {
    pub commit: Option<String>,
    pub until: Option<String>,
    pub carry_changes: bool,
    pub merge_untracked: bool,
}

#[derive(Debug, Eq, PartialEq)]
pub struct HistorySwitchPlan {
    pub source_branch: String,
    pub source_head: ObjectId,
    pub target_commit: ObjectId,
    pub saved_work_reference: String,
    pub has_tracked_changes: bool,
    pub carry_changes: bool,
    pub untracked_conflicts: Vec<String>,
}

#[derive(Debug, Eq, PartialEq)]
pub struct HistorySwitchResult {
    pub source_branch: String,
    pub target_commit: ObjectId,
    pub saved_work: Option<SavedWork>,
    pub carried_index: Option<bool>,
    pub carry_warning: Option<String>,
    pub untracked_merge_warning: Option<String>,
    pub present_branch: String,
}

} // verus!
