//! Applying Saved work onto a worktree that may itself be dirty.
use vstd::prelude::*;

use crate::host::grows;

use crate::host::{run_effect, Effect, Host};

use crate::git::{command_args, push_arg, GitCommand, GitRunner};
use crate::rewrite::ObjectId;
use crate::text::{concat, starts_with_spec};

use super::errors::SwitchError;
use super::stash::{self, conflict_text, outcome_shape, ApplyOutcome};
use super::keep::{keeps_saved_work, lemma_keeps_chain, lemma_keeps_one, lemma_reads_keep};
use super::state::{self, wip_prefix};

verus! {

broadcast use crate::host::lemma_grows_chain, crate::host::lemma_grows_none, crate::host::lemma_grows_trace,
    crate::host::lemma_grows_reply;

pub open spec fn park_conflict() -> Seq<char> {
    "Saved work was restored, but recent edits conflicted with it. Resolve the conflict markers in the working tree."@
}

/// The warning of a Saved work conflict while recent edits are parked at `park`.
pub open spec fn saved_conflict_with_park(park: Seq<char>) -> Seq<char> {
    "Saved work was applied with conflicts. Resolve the conflict markers, then delete Saved work when the result is correct. Your recent edits are parked at "@
        + park + "; reapply them after resolving."@
}

/// An apply consumed the Saved work exactly when it warns of nothing, or only
/// that the recent edits parked on top of it conflicted.
pub open spec fn consumed_exactly(o: ApplyOutcome) -> bool {
    o.consumed <==> (o.warning is None || (o.warning matches Some(w) && w@ == park_conflict()))
}

/// The warnings of an apply that left Saved work in place are not the
/// warning of a conflict among the parked edits.
proof fn lemma_warnings_differ(park: Seq<char>)
    ensures
        stash::conflict_warning() != park_conflict(),
        saved_conflict_with_park(park) != park_conflict(),
{
    reveal_strlit("Saved work was restored, but recent edits conflicted with it. Resolve the conflict markers in the working tree.");
    reveal_strlit("Saved work was applied with conflicts. Resolve the conflict markers, then delete Saved work when the result is correct; the backup was kept.");
    reveal_strlit("Saved work was applied with conflicts. Resolve the conflict markers, then delete Saved work when the result is correct. Your recent edits are parked at ");
    assert(stash::conflict_warning()[15] != park_conflict()[15]);
    assert(saved_conflict_with_park(park)[15] != park_conflict()[15]);
}

/// A park ref is no Saved work ref.
proof fn lemma_park_not_saved(id: Seq<char>)
    ensures
        !starts_with_spec("refs/githelper/restore-park/"@ + id, wip_prefix()),
{
    reveal_strlit("refs/githelper/restore-park/");
    reveal_strlit("refs/githelper/wip/");
    let park = "refs/githelper/restore-park/"@ + id;
    assert(park[15] != wip_prefix()[15]);
    if starts_with_spec(park, wip_prefix()) {
        assert(park.take(wip_prefix().len() as int)[15] == park[15]);
    }
}

/// The warnings a restore can give: a conflict of the Saved work, a conflict
/// of the Saved work while recent edits are parked for operation `id`, or a
/// conflict of those parked edits.
pub open spec fn restore_warning(w: Seq<char>, id: Seq<char>) -> bool {
    ||| w == stash::conflict_warning()
    ||| w == saved_conflict_with_park("refs/githelper/restore-park/"@ + id)
    ||| w == park_conflict()
}

struct ParkedDirt {
    reference: String,
    snapshot: ObjectId,
}

/// Applies Saved work; if a dirty tree would be overwritten, the dirt is
/// parked, the Saved work applied, and the dirt merged back on top.
pub(crate) fn apply<R: GitRunner>(runner: &mut Host<R>, reference: &str, operation_id: &str) -> (r: Result<
    ApplyOutcome,
    SwitchError,
>)
    ensures
        old(runner).trace().len() < final(runner).trace().len(),
        final(runner).trace()[old(runner).trace().len() as int] == stash::apply_index_effect(reference@),
        r matches Err(e) ==> !(e is MissingSavedWork),
        r matches Ok(o) ==> (o.warning matches Some(w) ==> restore_warning(w@, operation_id@)),
        grows(*old(runner), *final(runner)),
        keeps_saved_work(old(runner).trace(), final(runner).trace()),
        r matches Ok(o) ==> consumed_exactly(o),
        r matches Err(e) ==> !(e is StalePlan),
        r matches Ok(o) ==> outcome_shape(o),
{
    let ghost start = runner.trace();
    proof {
        lemma_warnings_differ(Seq::empty());
    }
    match stash::try_apply(runner, reference) {
        Ok(outcome) => Ok(outcome),
        Err(error) => {
            let ghost t = runner.trace();
            let unmerged = stash::has_unmerged_paths(runner);
            proof {
                lemma_reads_keep(t, runner.trace());
                lemma_keeps_chain(start, t, runner.trace());
            }
            match unmerged {
                Ok(true) => return Ok(stash::conflict(conflict_text(), false)),
                Ok(false) => {},
                Err(e) => return Err(e),
            }
            let ghost t = runner.trace();
            let changes = state::read_tracked_changes(runner);
            proof {
                lemma_reads_keep(t, runner.trace());
                lemma_keeps_chain(start, t, runner.trace());
            }
            match changes {
                Ok(true) => {},
                Ok(false) => return Err(error),
                Err(e) => return Err(e),
            }
            let ghost t = runner.trace();
            let r = apply_via_park(runner, reference, operation_id);
            proof {
                lemma_keeps_chain(start, t, runner.trace());
            }
            r
        },
    }
}

/// The warning of a Saved work conflict while recent edits are parked at `park`.
pub fn saved_conflict_warning(park: &str) -> (r: String)
    ensures
        r@ == saved_conflict_with_park(park@),
{
    let mut w = String::from_str(
        "Saved work was applied with conflicts. Resolve the conflict markers, then delete Saved work when the result is correct. Your recent edits are parked at ",
    );
    w.append(park);
    w.append("; reapply them after resolving.");
    w
}

fn apply_via_park<R: GitRunner>(runner: &mut Host<R>, reference: &str, operation_id: &str) -> (r: Result<
    ApplyOutcome,
    SwitchError,
>)
    ensures
        r matches Err(e) ==> !(e is MissingSavedWork),
        r matches Ok(o) ==> (o.warning matches Some(w) ==> restore_warning(w@, operation_id@)),
        grows(*old(runner), *final(runner)),
        keeps_saved_work(old(runner).trace(), final(runner).trace()),
        r matches Ok(o) ==> consumed_exactly(o),
        r matches Err(e) ==> !(e is StalePlan),
        r matches Ok(o) ==> outcome_shape(o),
{
    let ghost start = runner.trace();
    let park = match park_current(runner, operation_id) {
        Ok(p) => p,
        Err(e) => return Err(e),
    };
    let ghost t = runner.trace();
    let reset = stash::reset_tracked(runner);
    proof {
        lemma_keeps_chain(start, t, runner.trace());
    }
    match reset {
        Ok(()) => {},
        Err(e) => return Err(e),
    }
    let ghost t = runner.trace();
    let got = stash::try_apply(runner, reference);
    proof {
        lemma_keeps_chain(start, t, runner.trace());
    }
    let saved = match got {
        Ok(o) => o,
        Err(e) => return Err(e),
    };
    if saved.conflict {
        let warning = saved_conflict_warning(park.reference.as_str());
        proof {
            lemma_warnings_differ(park.reference@);
        }
        return Ok(stash::conflict(warning.as_str(), false));
    }
    let ghost t = runner.trace();
    let r = merge_park(runner, &park, saved.applied_index);
    proof {
        lemma_keeps_chain(start, t, runner.trace());
    }
    r
}

fn park_current<R: GitRunner>(runner: &mut Host<R>, operation_id: &str) -> (r: Result<ParkedDirt, SwitchError>)
    ensures
        r matches Err(e) ==> !(e is MissingSavedWork),
        grows(*old(runner), *final(runner)),
        keeps_saved_work(old(runner).trace(), final(runner).trace()),
        r matches Err(e) ==> !(e is StalePlan),
        r matches Ok(p) ==> p.reference@ == "refs/githelper/restore-park/"@ + operation_id@
            && crate::rewrite::model::valid_object_id(p.snapshot@),
{
    let ghost start = runner.trace();
    let reference = concat("refs/githelper/restore-park/", operation_id);
    let snapshot = match stash::snapshot(runner) {
        Ok(s) => s,
        Err(e) => return Err(e),
    };
    let ghost t = runner.trace();
    let made = create_ref(runner, reference.as_str(), &snapshot);
    proof {
        lemma_keeps_chain(start, t, runner.trace());
    }
    match made {
        Ok(()) => Ok(ParkedDirt { reference, snapshot }),
        Err(e) => Err(e),
    }
}

/// Plain stash apply leaves the worktree dirty against the index, and the
/// park's apply would then refuse; staging first lets it merge three ways.
fn merge_park<R: GitRunner>(runner: &mut Host<R>, park: &ParkedDirt, saved_index: bool) -> (r: Result<
    ApplyOutcome,
    SwitchError,
>)
    requires
        exists|id: Seq<char>| park.reference@ == "refs/githelper/restore-park/"@ + id,
    ensures
        r matches Err(e) ==> !(e is MissingSavedWork),
        r matches Ok(o) ==> (o.warning matches Some(w) ==> w@ == park_conflict()),
        grows(*old(runner), *final(runner)),
        keeps_saved_work(old(runner).trace(), final(runner).trace()),
        r matches Ok(o) ==> consumed_exactly(o),
        r matches Err(e) ==> !(e is StalePlan),
        r matches Ok(o) ==> outcome_shape(o),
{
    let ghost start = runner.trace();
    match stage_tracked(runner) {
        Ok(()) => {},
        Err(e) => return Err(e),
    }
    let ghost t = runner.trace();
    let got = stash::try_apply(runner, park.reference.as_str());
    proof {
        lemma_keeps_chain(start, t, runner.trace());
    }
    let outcome = match got {
        Ok(o) => o,
        Err(error) => {
            let ghost t = runner.trace();
            let unmerged = stash::has_unmerged_paths(runner);
            proof {
                lemma_reads_keep(t, runner.trace());
                lemma_keeps_chain(start, t, runner.trace());
            }
            match unmerged {
                Ok(true) => stash::conflict(park_conflict_text(), true),
                Ok(false) => return Err(error),
                Err(e) => return Err(e),
            }
        },
    };
    proof {
        let id = choose|id: Seq<char>| park.reference@ == "refs/githelper/restore-park/"@ + id;
        lemma_park_not_saved(id);
    }
    let ghost t = runner.trace();
    let dropped = delete_ref(runner, park.reference.as_str(), &park.snapshot);
    proof {
        lemma_keeps_chain(start, t, runner.trace());
    }
    match dropped {
        Ok(()) => {},
        Err(e) => return Err(e),
    }
    if outcome.conflict {
        return Ok(stash::conflict(park_conflict_text(), true));
    }
    Ok(
        ApplyOutcome {
            applied_index: saved_index && outcome.applied_index,
            conflict: false,
            warning: None,
            consumed: true,
        },
    )
}

fn park_conflict_text() -> (r: &'static str)
    ensures
        r@ == park_conflict(),
{
    "Saved work was restored, but recent edits conflicted with it. Resolve the conflict markers in the working tree."
}

fn stage_tracked<R: GitRunner>(runner: &mut Host<R>) -> (r: Result<(), SwitchError>)
    ensures
        r matches Err(e) ==> !(e is MissingSavedWork),
        grows(*old(runner), *final(runner)),
        keeps_saved_work(old(runner).trace(), final(runner).trace()),
        r matches Err(e) ==> !(e is StalePlan),
        r matches Err(e) ==> e is Git,
{
    let ghost start = runner.trace();
    let command = GitCommand::write(command_args(&["add", "-u", "--"]));
    let got = runner.run_unlocked(&command);
    proof {
        reveal_strlit("add");
        reveal_strlit("update-ref");
        assert("add"@.len() != "update-ref"@.len());
        lemma_keeps_one(start, run_effect(&command));
    }
    match got {
        Ok(_) => Ok(()),
        Err(e) => Err(SwitchError::Git(e)),
    }
}

fn create_ref<R: GitRunner>(runner: &mut Host<R>, reference: &str, snapshot: &ObjectId) -> (r: Result<
    (),
    SwitchError,
>)
    ensures
        r matches Err(e) ==> !(e is MissingSavedWork),
        grows(*old(runner), *final(runner)),
        keeps_saved_work(old(runner).trace(), final(runner).trace()),
        r matches Err(e) ==> !(e is StalePlan),
        r matches Err(e) ==> e is Git,
{
    let ghost start = runner.trace();
    let mut values = command_args(&["update-ref", "-m", "git-helper park-restore-dirt"]);
    push_arg(&mut values, reference);
    push_arg(&mut values, snapshot.as_str());
    push_arg(&mut values, "");
    let command = GitCommand::write(values);
    let got = runner.run_unlocked(&command);
    proof {
        reveal_strlit("-m");
        reveal_strlit("-d");
        assert("-m"@[1] != "-d"@[1]);
        lemma_keeps_one(start, run_effect(&command));
    }
    match got {
        Ok(_) => Ok(()),
        Err(e) => Err(SwitchError::Git(e)),
    }
}

fn delete_ref<R: GitRunner>(runner: &mut Host<R>, reference: &str, snapshot: &ObjectId) -> (r: Result<
    (),
    SwitchError,
>)
    requires
        !starts_with_spec(reference@, wip_prefix()),
    ensures
        r matches Err(e) ==> !(e is MissingSavedWork),
        grows(*old(runner), *final(runner)),
        keeps_saved_work(old(runner).trace(), final(runner).trace()),
        r matches Err(e) ==> !(e is StalePlan),
        r matches Err(e) ==> e is Git,
{
    let ghost start = runner.trace();
    let mut values = command_args(&["update-ref", "-d", "-m", "git-helper drop-restore-park"]);
    push_arg(&mut values, reference);
    push_arg(&mut values, snapshot.as_str());
    let command = GitCommand::write(values);
    let got = runner.run_unlocked(&command);
    proof {
        lemma_keeps_one(start, run_effect(&command));
    }
    match got {
        Ok(_) => Ok(()),
        Err(e) => Err(SwitchError::Git(e)),
    }
}

} // verus!
