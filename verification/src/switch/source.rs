//! Which branch a switch leaves, when the checkout may be detached on history.
use vstd::prelude::*;

use crate::host::grows;

use crate::host::Host;

use crate::git::GitRunner;
use crate::order::str_eq;

use super::errors::SwitchError;
use super::model::{QuickSwitchPlan, QuickSwitchRequest};
use super::{present, state};

verus! {

broadcast use crate::host::lemma_grows_chain, crate::host::lemma_grows_none, crate::host::lemma_grows_trace,
    crate::host::lemma_grows_reply;

/// The branch being left: `HEAD`'s, else the one the Present marker names.
/// A detached `HEAD` with no marker leaves no branch, which is refused when
/// tracked changes would have nowhere to go.
pub(crate) fn branch_for_switch<R: GitRunner>(runner: &mut Host<R>, request: &QuickSwitchRequest) -> (r: Result<
    String,
    SwitchError,
>)
    ensures
        r matches Err(e) ==> !(e is MissingSavedWork),
        grows(*old(runner), *final(runner)),
        r matches Err(e) ==> !(e is StalePlan),
{
    match state::optional_branch(runner) {
        Ok(Some(branch)) => return Ok(branch),
        Ok(None) => {},
        Err(e) => return Err(e),
    }
    match present::read(runner) {
        Ok(Some(branch)) => return Ok(branch),
        Ok(None) => {},
        Err(e) => return Err(e),
    }
    let changes = match state::read_tracked_changes(runner) {
        Ok(b) => b,
        Err(e) => return Err(e),
    };
    if changes && !request.carry_changes {
        return Err(
            SwitchError::InvalidState(
                String::from_str("HEAD is detached; carry tracked changes or return to a branch first"),
            ),
        );
    }
    Ok(String::new())
}

/// Whether `HEAD` is on `target_branch` already.
pub(crate) fn already_on_target<R: GitRunner>(runner: &mut Host<R>, target_branch: &str) -> (r: Result<bool, SwitchError>)
    ensures
        r matches Err(e) ==> !(e is MissingSavedWork),
        grows(*old(runner), *final(runner)),
        r matches Err(e) ==> !(e is StalePlan),
{
    match state::optional_branch(runner) {
        Ok(Some(branch)) => Ok(str_eq(branch.as_str(), target_branch)),
        Ok(None) => Ok(false),
        Err(e) => Err(e),
    }
}

/// Refuses a plan when `HEAD` is on another branch than the plan's source.
pub(crate) fn verify_source<R: GitRunner>(runner: &mut Host<R>, plan: &QuickSwitchPlan) -> (r: Result<(), SwitchError>)
    ensures
        r matches Err(e) ==> !(e is MissingSavedWork),
        grows(*old(runner), *final(runner)),
{
    match state::optional_branch(runner) {
        Ok(Some(branch)) => if str_eq(branch.as_str(), plan.source_branch.as_str()) {
            Ok(())
        } else {
            Err(SwitchError::StalePlan)
        },
        Ok(None) => Ok(()),
        Err(e) => Err(e),
    }
}

} // verus!
