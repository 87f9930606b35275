use vstd::prelude::*;

use crate::order::str_eq;
use crate::rewrite::ObjectId;

verus! {

#[derive(Debug, Eq, PartialEq)]
pub struct QuickSwitchRequest {
    pub target_branch: String,
    pub carry_changes: bool,
    pub pull_after_switch: bool,
    /// Short remote-tracking name such as `origin/feature`. When set, the local
    /// `target_branch` is created to track it.
    pub create_from_remote: Option<String>,
    /// Whether untracked files that the target branch also has may be merged.
    pub merge_untracked: bool,
}

#[derive(Debug, Eq, PartialEq)]
pub struct SavedWork {
    pub branch: String,
    pub reference: String,
    pub snapshot: ObjectId,
}

impl SavedWork {
    pub fn duplicate(&self) -> (r: SavedWork)
        ensures
            r.branch@ == self.branch@,
            r.reference@ == self.reference@,
            r.snapshot@ == self.snapshot@,
    {
        SavedWork {
            branch: self.branch.clone(),
            reference: self.reference.clone(),
            snapshot: self.snapshot.clone(),
        }
    }
}

/// A copy of an optional Saved work.
/// Saved work as plain values: branch, ref and snapshot.
pub open spec fn saved_view(s: Option<SavedWork>) -> Option<(Seq<char>, Seq<char>, Seq<char>)> {
    match s {
        Some(w) => Some((w.branch@, w.reference@, w.snapshot@)),
        None => None,
    }
}

pub fn duplicate_saved(s: &Option<SavedWork>) -> (r: Option<SavedWork>)
    ensures
        saved_view(r) == saved_view(*s),
        r is Some <==> s is Some,
        r matches Some(x) ==> (s matches Some(y) && x.branch@ == y.branch@ && x.reference@
            == y.reference@ && x.snapshot@ == y.snapshot@),
{
    match s {
        Some(w) => Some(w.duplicate()),
        None => None,
    }
}

#[derive(Debug, Eq, PartialEq)]
pub struct QuickSwitchPlan {
    pub source_branch: String,
    pub source_head: ObjectId,
    pub target_branch: String,
    pub target_head: ObjectId,
    pub saved_work_reference: String,
    pub has_tracked_changes: bool,
    pub carry_changes: bool,
    pub pull_after_switch: bool,
    pub create_from_remote: Option<String>,
    /// Remote-tracking ref to fast-forward from after the switch, when present.
    pub pull_remote_ref: Option<String>,
    pub target_saved_work: Option<SavedWork>,
    /// Untracked files the target branch also has, merged across the switch.
    pub untracked_conflicts: Vec<String>,
}

#[derive(Clone, Copy, Debug, Eq, PartialEq, Structural)]
pub enum QuickSwitchPhase {
    PullFastForwardFailed,
}

pub open spec fn phase_name(phase: QuickSwitchPhase) -> Seq<char> {
    match phase {
        QuickSwitchPhase::PullFastForwardFailed => "pull-ff-failed"@,
    }
}

impl QuickSwitchPhase {
    /// The phase as the operation log records it.
    pub fn as_str(&self) -> (r: &'static str)
        ensures
            r@ == phase_name(*self),
    {
        match self {
            QuickSwitchPhase::PullFastForwardFailed => "pull-ff-failed",
        }
    }

    /// The phase a log entry names, if it names one.
    pub fn parse(value: &str) -> (r: Option<QuickSwitchPhase>)
        ensures
            r matches Some(p) ==> phase_name(p) == value@,
            r is None ==> forall|p: QuickSwitchPhase| phase_name(p) != value@,
    {
        if str_eq(value, "pull-ff-failed") {
            Some(QuickSwitchPhase::PullFastForwardFailed)
        } else {
            proof {
                assert forall|p: QuickSwitchPhase| phase_name(p) != value@ by {
                    match p {
                        QuickSwitchPhase::PullFastForwardFailed => {},
                    }
                }
            }
            None
        }
    }
}

/// Reading a phase back from its name gives the phase.
pub proof fn lemma_phase_round_trip(phase: QuickSwitchPhase, parsed: QuickSwitchPhase)
    requires
        phase_name(parsed) == phase_name(phase),
    ensures
        parsed == phase,
{
    match phase {
        QuickSwitchPhase::PullFastForwardFailed => {},
    }
    match parsed {
        QuickSwitchPhase::PullFastForwardFailed => {},
    }
}

#[derive(Clone, Copy, Debug, Eq, PartialEq, Structural)]
pub enum PullResolution {
    ReplaceWithRemote,
    MergePull,
    Cancel,
}

#[derive(Debug, Eq, PartialEq)]
pub struct QuickSwitchStatus {
    pub operation_id: String,
    pub target_branch: String,
    pub remote_ref: String,
    pub phase: QuickSwitchPhase,
    pub carry_reference: Option<String>,
}

#[derive(Debug, Eq, PartialEq)]
pub struct QuickSwitchResult {
    pub source_branch: String,
    pub target_branch: String,
    pub saved_work: Option<SavedWork>,
    pub carried_index: Option<bool>,
    pub carry_warning: Option<String>,
    pub target_saved_work: Option<SavedWork>,
    pub pulled: bool,
    pub pull_warning: Option<String>,
    /// Set when `git pull --ff-only` failed and the user must choose a resolution.
    pub pull_decision_needed: bool,
    pub untracked_merge_warning: Option<String>,
}

#[derive(Debug, Eq, PartialEq)]
pub struct RestoreSavedWorkResult {
    pub branch: String,
    pub reference: String,
    pub applied_index: bool,
    pub warning: Option<String>,
}

#[derive(Debug, Eq, PartialEq)]
pub struct DeleteSavedWorkResult {
    pub branch: String,
    pub reference: String,
}

#[derive(Debug, Eq, PartialEq)]
pub struct SavedWorkApplyPreview {
    pub branch: String,
    pub on_current_branch: bool,
    pub before_tree: ObjectId,
    pub after_tree: ObjectId,
    pub worktree_conflicts: bool,
    pub index_conflicts: bool,
}

} // verus!
