//! Carrying tracked changes onto the target, and rescuing them when the stash
//! stack refuses to give them back.
use vstd::prelude::*;

use crate::host::grows;

use crate::host::{reads_only, Effect, Host};

use crate::git::{command_args, push_arg, GitCommand, GitRunner};

use super::errors::SwitchError;
use super::model::SavedWork;
use super::{stash, state};

verus! {

broadcast use crate::host::lemma_grows_chain, crate::host::lemma_grows_none, crate::host::lemma_grows_trace,
    crate::host::lemma_grows_reply;

/// The branch a carry came from, and that branch's Saved work ref.
pub struct CarrySource<'a> {
    pub branch: &'a str,
    pub saved_work_reference: &'a str,
}

pub struct CarryOutcome {
    pub carried_index: Option<bool>,
    /// Set only when a failed pop was rescued onto the source branch's Saved
    /// work ref instead of being abandoned on the shared stash stack.
    pub saved_work: Option<SavedWork>,
    pub warning: Option<String>,
}

pub open spec fn left_behind_spec(warning: Seq<char>, branch: Seq<char>, reference: Seq<char>) -> Seq<
    char,
> {
    "Carried changes could not be applied cleanly. They are kept as Saved work for "@ + branch
        + " at "@ + reference + ", so nothing was lost."@
}

/// Pops the carry when one was pushed. A pop that fails leaves its changes on
/// the stack; they are then anchored as Saved work of the source branch.
pub(crate) fn pop<R: GitRunner>(runner: &mut Host<R>, source: CarrySource<'_>, carry_pushed: bool) -> (r: Result<
    CarryOutcome,
    SwitchError,
>)
    ensures
        r matches Err(e) ==> !(e is MissingSavedWork),
        grows(*old(runner), *final(runner)),
        r matches Err(e) ==> !(e is StalePlan),
        !carry_pushed ==> (r matches Ok(o) && o.carried_index is None && o.saved_work is None
            && o.warning is None),
        carry_pushed && r is Ok ==> r->Ok_0.carried_index is Some,
        r matches Ok(o) ==> (o.saved_work matches Some(s) ==> s.branch@ == source.branch@
            && s.reference@ == source.saved_work_reference@ && (o.warning matches Some(w) && w@
            == left_behind_spec(w@, source.branch@, source.saved_work_reference@))),
{
    if !carry_pushed {
        return Ok(CarryOutcome { carried_index: None, saved_work: None, warning: None });
    }
    let outcome = match stash::pop_carry(runner) {
        Ok(o) => o,
        Err(e) => return Err(e),
    };
    match outcome.warning {
        None => Ok(
            CarryOutcome {
                carried_index: Some(outcome.applied_index),
                saved_work: None,
                warning: None,
            },
        ),
        Some(warning) => {
            let saved_work = match anchor_left_behind(runner, &source) {
                Ok(s) => s,
                Err(e) => return Err(e),
            };
            let message = left_behind_message(warning, &saved_work);
            Ok(
                CarryOutcome {
                    carried_index: Some(outcome.applied_index),
                    warning: Some(message),
                    saved_work,
                },
            )
        },
    }
}

/// The warning of a pop that failed: the pop's own, or where the rescue put the changes.
pub fn left_behind_message(warning: String, saved_work: &Option<SavedWork>) -> (r: String)
    ensures
        saved_work is None ==> r@ == warning@,
        saved_work matches Some(s) ==> r@ == left_behind_spec(warning@, s.branch@, s.reference@),
{
    match saved_work {
        None => warning,
        Some(s) => {
            let mut m = String::from_str(
                "Carried changes could not be applied cleanly. They are kept as Saved work for ",
            );
            m.append(s.branch.as_str());
            m.append(" at ");
            m.append(s.reference.as_str());
            m.append(", so nothing was lost.");
            m
        },
    }
}

/// Rescues a carry the stack could not pop onto the source branch's Saved work
/// ref, then drops the entry. Without this the only copy lives in `refs/stash`,
/// which is never listed as Saved work.
///
/// Returns `None` when there is nothing to rescue or the branch already owns
/// Saved work; overwriting that would trade one lost snapshot for another.
/// The command that keeps a rescued carry as the source branch's Saved work;
/// Git refuses if that ref exists.
pub open spec fn rescue_effect(reference: Seq<char>, snapshot: Seq<char>) -> Effect {
    Effect::Run {
        args: seq!["update-ref"@, "-m"@, "git-helper rescue-carry"@, reference, snapshot, Seq::<char>::empty()],
        writes: true,
    }
}

fn anchor_left_behind<R: GitRunner>(runner: &mut Host<R>, source: &CarrySource<'_>) -> (r: Result<
    Option<SavedWork>,
    SwitchError,
>)
    ensures
        r matches Err(e) ==> !(e is MissingSavedWork),
        grows(*old(runner), *final(runner)),
        r matches Err(e) ==> !(e is StalePlan),
        r matches Ok(Some(s)) ==> s.branch@ == source.branch@ && s.reference@
            == source.saved_work_reference@,
        r matches Ok(Some(s)) ==> final(runner).trace() == old(runner).trace().push(
            state::resolve_effect("refs/stash"@),
        ).push(state::resolve_effect(source.saved_work_reference@)).push(
            rescue_effect(source.saved_work_reference@, s.snapshot@),
        ).push(stash::drop_top_effect()),
        r matches Ok(None) ==> reads_only(old(runner).trace(), final(runner).trace()),
{
    let ghost start = runner.trace();
    let snapshot = match state::optional_id(runner, "refs/stash") {
        Ok(Some(id)) => id,
        Ok(None) => return Ok(None),
        Err(e) => return Err(e),
    };
    let ghost t = runner.trace();
    let got = state::optional_id(runner, source.saved_work_reference);
    proof {
        crate::host::lemma_reads_chain(start, t, runner.trace());
    }
    match got {
        Ok(Some(_)) => return Ok(None),
        Ok(None) => {},
        Err(e) => return Err(e),
    }
    let mut values = command_args(&["update-ref", "-m", "git-helper rescue-carry"]);
    assert(values.deep_view() =~= seq!["update-ref"@, "-m"@, "git-helper rescue-carry"@]);
    push_arg(&mut values, source.saved_work_reference);
    push_arg(&mut values, snapshot.as_str());
    push_arg(&mut values, "");
    proof {
        reveal_strlit("");
        assert(""@ =~= Seq::<char>::empty());
    }
    assert(values.deep_view() =~= seq![
        "update-ref"@,
        "-m"@,
        "git-helper rescue-carry"@,
        source.saved_work_reference@,
        snapshot@,
        Seq::<char>::empty(),
    ]);
    match runner.run_unlocked(&GitCommand::write(values)) {
        Ok(_) => {},
        Err(e) => return Err(SwitchError::Git(e)),
    }
    match stash::drop_top(runner) {
        Ok(()) => {},
        Err(e) => return Err(e),
    }
    Ok(
        Some(
            SavedWork {
                branch: String::from_str(source.branch),
                reference: String::from_str(source.saved_work_reference),
                snapshot,
            },
        ),
    )
}

} // verus!
