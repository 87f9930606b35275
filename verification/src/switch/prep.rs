//! Parking tracked changes before a switch: pushed as the carry, or kept as
//! Saved work of the branch being left.
use vstd::prelude::*;

use crate::host::grows;

use crate::host::Host;

use crate::git::GitRunner;

use super::errors::SwitchError;
use super::model::SavedWork;
use super::{stash, state};

verus! {

broadcast use crate::host::lemma_grows_chain, crate::host::lemma_grows_none, crate::host::lemma_grows_trace,
    crate::host::lemma_grows_reply;

pub struct TrackedPrep {
    pub saved_work: Option<SavedWork>,
    pub carry_pushed: bool,
}

pub struct TrackedSpec<'a> {
    pub source_branch: &'a str,
    pub saved_work_reference: &'a str,
    pub has_tracked_changes: bool,
    pub carry_changes: bool,
}

pub(crate) fn prepare_tracked<R: GitRunner>(runner: &mut Host<R>, spec: TrackedSpec<'_>) -> (r: Result<
    TrackedPrep,
    SwitchError,
>)
    ensures
        r matches Err(e) ==> !(e is MissingSavedWork),
        grows(*old(runner), *final(runner)),
        r matches Err(e) ==> !(e is StalePlan),
        !spec.has_tracked_changes ==> (r matches Ok(p) && p.saved_work is None && !p.carry_pushed),
        r matches Ok(p) ==> {
            &&& p.carry_pushed == (spec.has_tracked_changes && spec.carry_changes)
            &&& (p.saved_work is Some <==> spec.has_tracked_changes && !spec.carry_changes)
            &&& p.saved_work matches Some(s) ==> s.branch@ == spec.source_branch@ && s.reference@
                == spec.saved_work_reference@
        },
{
    if !spec.has_tracked_changes {
        return Ok(TrackedPrep { saved_work: None, carry_pushed: false });
    }
    if spec.carry_changes {
        return match stash::push_tracked(runner) {
            Ok(()) => Ok(TrackedPrep { saved_work: None, carry_pushed: true }),
            Err(e) => Err(e),
        };
    }
    park_as_saved_work(runner, spec)
}

/// Snapshots the tracked changes, resets them, and points the Saved work ref
/// at the snapshot; Git refuses if that ref already exists.
fn park_as_saved_work<R: GitRunner>(runner: &mut Host<R>, spec: TrackedSpec<'_>) -> (r: Result<
    TrackedPrep,
    SwitchError,
>)
    ensures
        r matches Err(e) ==> !(e is MissingSavedWork),
        grows(*old(runner), *final(runner)),
        r matches Err(e) ==> !(e is StalePlan),
        r matches Ok(p) ==> !p.carry_pushed && (p.saved_work matches Some(s) && s.branch@
            == spec.source_branch@ && s.reference@ == spec.saved_work_reference@),
{
    let snapshot = match stash::snapshot(runner) {
        Ok(s) => s,
        Err(e) => return Err(e),
    };
    match stash::reset_tracked(runner) {
        Ok(()) => {},
        Err(e) => return Err(e),
    }
    match state::update_ref(runner, spec.saved_work_reference, &snapshot, "") {
        Ok(()) => {},
        Err(e) => return Err(e),
    }
    Ok(
        TrackedPrep {
            saved_work: Some(
                SavedWork {
                    branch: String::from_str(spec.source_branch),
                    reference: String::from_str(spec.saved_work_reference),
                    snapshot,
                },
            ),
            carry_pushed: false,
        },
    )
}

} // verus!
