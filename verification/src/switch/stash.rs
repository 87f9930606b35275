//! The stash commands a switch uses to park, carry and restore changes.
use vstd::prelude::*;

use crate::host::grows;

use crate::host::{reads_only, run_effect, Effect, Host};
use super::keep::{keeps_saved_work, lemma_keeps_chain, lemma_keeps_one, lemma_reads_keep};

use crate::git::{args_of, command_args, extend_args, GitCommand, GitRunner};
use crate::rewrite::ObjectId;
use crate::text::{trim, trim_spec};

use super::errors::SwitchError;
use super::state::text;

verus! {

broadcast use crate::host::lemma_grows_chain, crate::host::lemma_grows_none, crate::host::lemma_grows_trace,
    crate::host::lemma_grows_reply;

pub struct PopOutcome {
    pub applied_index: bool,
    pub warning: Option<String>,
}

pub struct ApplyOutcome {
    pub applied_index: bool,
    pub conflict: bool,
    pub warning: Option<String>,
    /// When true, the Saved work snapshot is already in the tree; delete the WIP ref.
    pub consumed: bool,
}

pub open spec fn conflict_warning() -> Seq<char> {
    "Saved work was applied with conflicts. Resolve the conflict markers, then delete Saved work when the result is correct; the backup was kept."@
}

/// `-c submodule.recurse=false stash <values>`.
pub fn stash_args(values: &[&str]) -> (r: Vec<String>)
    ensures
        r.deep_view() == seq!["-c"@, "submodule.recurse=false"@, "stash"@] + Seq::new(
            values@.len(),
            |i: int| values@[i]@,
        ),
{
    let mut command = command_args(&["-c", "submodule.recurse=false", "stash"]);
    assert(command.deep_view() =~= seq!["-c"@, "submodule.recurse=false"@, "stash"@]);
    let more = command_args(values);
    extend_args(&mut command, &more);
    command
}

/// The snapshot id `git stash create` printed; nothing printed means nothing was saved.
pub fn snapshot_id(printed: &[u8]) -> (r: Result<ObjectId, SwitchError>)
    ensures
        r matches Err(e) ==> !(e is MissingSavedWork),
        r matches Err(e) ==> !(e is StalePlan),
        r is Ok <==> vstd::utf8::valid_utf8(printed@) && crate::rewrite::model::valid_object_id(
            trim_spec(vstd::utf8::decode_utf8(printed@)),
        ),
        r matches Ok(id) ==> vstd::utf8::valid_utf8(printed@) && id@ == trim_spec(
            vstd::utf8::decode_utf8(printed@),
        ),
        vstd::utf8::valid_utf8(printed@) && trim_spec(vstd::utf8::decode_utf8(printed@)).len() == 0
            ==> (r matches Err(SwitchError::InvalidState(m)) && m@
            == "Git did not create Saved work for tracked changes"@),
{
    let value = match text(printed) {
        Ok(t) => trim(t.as_str()),
        Err(e) => return Err(e),
    };
    if value.as_str().is_empty() {
        return Err(
            SwitchError::InvalidState(String::from_str("Git did not create Saved work for tracked changes")),
        );
    }
    match ObjectId::new(value) {
        Ok(id) => Ok(id),
        Err(m) => Err(SwitchError::InvalidState(m)),
    }
}

/// A commit of the tracked changes, made without touching the stash stack.
pub(crate) fn snapshot<R: GitRunner>(runner: &mut Host<R>) -> (r: Result<ObjectId, SwitchError>)
    ensures
        r matches Err(e) ==> !(e is MissingSavedWork),
        grows(*old(runner), *final(runner)),
        keeps_saved_work(old(runner).trace(), final(runner).trace()),
        r matches Err(e) ==> !(e is StalePlan),
        r matches Ok(id) ==> crate::rewrite::model::valid_object_id(id@),
{
    let ghost start = runner.trace();
    let command = GitCommand::write(stash_args(&["create"]));
    let got = runner.run_unlocked(&command);
    proof {
        lemma_stash_keeps(start, &command);
    }
    let output = match got {
        Ok(o) => o,
        Err(e) => return Err(SwitchError::Git(e)),
    };
    snapshot_id(output.stdout.as_slice())
}

/// Pushes the tracked changes as the carry entry.
pub(crate) fn push_tracked<R: GitRunner>(runner: &mut Host<R>) -> (r: Result<(), SwitchError>)
    ensures
        r matches Err(e) ==> !(e is MissingSavedWork),
        grows(*old(runner), *final(runner)),
        r matches Err(e) ==> !(e is StalePlan),
        r matches Err(e) ==> e is Git,
{
    match runner.run_unlocked(&GitCommand::write(stash_args(&["push", "-m", "git-helper carry"]))) {
        Ok(_) => Ok(()),
        Err(e) => Err(SwitchError::Git(e)),
    }
}

/// Throws the tracked changes away: `reset --hard --no-recurse-submodules HEAD`.
pub(crate) fn reset_tracked<R: GitRunner>(runner: &mut Host<R>) -> (r: Result<(), SwitchError>)
    ensures
        r matches Err(e) ==> !(e is MissingSavedWork),
        grows(*old(runner), *final(runner)),
        keeps_saved_work(old(runner).trace(), final(runner).trace()),
        r matches Err(e) ==> !(e is StalePlan),
        r matches Err(e) ==> e is Git,
{
    let ghost start = runner.trace();
    let command = GitCommand::write(command_args(&["reset", "--hard", "--no-recurse-submodules", "HEAD"]));
    let got = runner.run_unlocked(&command);
    proof {
        reveal_strlit("reset");
        reveal_strlit("update-ref");
        assert("reset"@.len() != "update-ref"@.len());
        lemma_keeps_one(start, run_effect(&command));
    }
    match got {
        Ok(_) => Ok(()),
        Err(e) => Err(SwitchError::Git(e)),
    }
}

/// Apply a stash-shaped ref without parking local dirt (carry / pull paths).
pub(crate) fn apply<R: GitRunner>(runner: &mut Host<R>, reference: &str) -> (r: Result<ApplyOutcome, SwitchError>)
    ensures
        r matches Err(e) ==> !(e is MissingSavedWork),
        grows(*old(runner), *final(runner)),
        r matches Err(e) ==> !(e is StalePlan),
        r matches Ok(o) ==> outcome_shape(o),
{
    try_apply(runner, reference)
}

/// What every outcome of an apply holds: a clean one consumed the snapshot and
/// warns of nothing; a conflicting one kept the index aside and warns.
pub open spec fn outcome_shape(o: ApplyOutcome) -> bool {
    &&& !o.conflict ==> o.consumed && o.warning is None
    &&& o.conflict ==> !o.applied_index && o.warning is Some
}

/// `stash apply --index`, then without `--index`; unmerged paths after either
/// failure mean the apply stopped in conflicts.
pub(crate) fn try_apply<R: GitRunner>(runner: &mut Host<R>, reference: &str) -> (r: Result<ApplyOutcome, SwitchError>)
    ensures
        old(runner).trace().len() < final(runner).trace().len(),
        final(runner).trace()[old(runner).trace().len() as int] == apply_index_effect(reference@),
        r matches Err(e) ==> !(e is MissingSavedWork),
        grows(*old(runner), *final(runner)),
        keeps_saved_work(old(runner).trace(), final(runner).trace()),
        r matches Err(e) ==> !(e is StalePlan),
        r matches Ok(o) ==> outcome_shape(o) && (o.conflict ==> !o.consumed && (o.warning matches Some(
            w,
        ) && w@ == conflict_warning())),
        r matches Ok(o) ==> (o.consumed <==> o.warning is None),
{
    let ghost start = runner.trace();
    let mut with_index = stash_args(&["apply", "--index"]);
    crate::git::push_arg(&mut with_index, reference);
    assert(with_index.deep_view() =~= seq!["-c"@, "submodule.recurse=false"@, "stash"@, "apply"@, "--index"@, reference@]);
    let command = GitCommand::write(with_index);
    let applied = runner.run_unlocked(&command).is_ok();
    proof {
        lemma_stash_keeps(start, &command);
    }
    if applied {
        return Ok(clean(true));
    }
    let ghost t = runner.trace();
    let unmerged = has_unmerged_paths(runner);
    proof {
        lemma_reads_keep(t, runner.trace());
        lemma_keeps_chain(start, t, runner.trace());
    }
    match unmerged {
        Ok(true) => return Ok(conflict(conflict_text(), false)),
        Ok(false) => {},
        Err(e) => return Err(e),
    }
    let mut plain = stash_args(&["apply"]);
    crate::git::push_arg(&mut plain, reference);
    let command = GitCommand::write(plain);
    let ghost t = runner.trace();
    let got = runner.run_unlocked(&command);
    proof {
        lemma_stash_keeps(t, &command);
        lemma_keeps_chain(start, t, runner.trace());
    }
    match got {
        Ok(_) => Ok(clean(false)),
        Err(source) => {
            let ghost t = runner.trace();
            let unmerged = has_unmerged_paths(runner);
            proof {
                lemma_reads_keep(t, runner.trace());
                lemma_keeps_chain(start, t, runner.trace());
            }
            match unmerged {
                Ok(true) => Ok(conflict(conflict_text(), false)),
                Ok(false) => Err(SwitchError::Git(source)),
                Err(e) => Err(e),
            }
        },
    }
}

/// `stash apply --index` of the snapshot at `reference`.
pub open spec fn apply_index_effect(reference: Seq<char>) -> Effect {
    Effect::Run {
        args: seq!["-c"@, "submodule.recurse=false"@, "stash"@, "apply"@, "--index"@, reference],
        writes: true,
    }
}

/// A `stash` command never drops Saved work.
proof fn lemma_stash_keeps(before: Seq<Effect>, command: &GitCommand)
    requires
        args_of(command).len() > 0 && args_of(command)[0] == "-c"@,
    ensures
        keeps_saved_work(before, before.push(run_effect(command))),
{
    reveal_strlit("-c");
    reveal_strlit("update-ref");
    assert("-c"@.len() != "update-ref"@.len());
    lemma_keeps_one(before, run_effect(command));
}

pub fn conflict_text() -> (r: &'static str)
    ensures
        r@ == conflict_warning(),
{
    "Saved work was applied with conflicts. Resolve the conflict markers, then delete Saved work when the result is correct; the backup was kept."
}

/// Whether the index has unmerged paths.
pub(crate) fn has_unmerged_paths<R: GitRunner>(runner: &mut Host<R>) -> (r: Result<bool, SwitchError>)
    ensures
        r matches Err(e) ==> !(e is MissingSavedWork),
        grows(*old(runner), *final(runner)),
        reads_only(old(runner).trace(), final(runner).trace()),
        r matches Err(e) ==> !(e is StalePlan),
        r matches Err(e) ==> e is Git,
{
    match runner.run_unlocked(
        &GitCommand::read(command_args(&["diff", "--name-only", "--diff-filter=U"])),
    ) {
        Ok(output) => Ok(output.stdout.len() > 0),
        Err(e) => Err(SwitchError::Git(e)),
    }
}

pub open spec fn pop_warning() -> Seq<char> {
    "Carried changes could not be popped cleanly. Resolve any conflict markers in the working tree, then run git stash drop if an entry is still listed."@
}

/// Pops the carry entry, with its index if it can; a pop that fails both ways
/// leaves a warning, not an error.
pub(crate) fn pop_carry<R: GitRunner>(runner: &mut Host<R>) -> (r: Result<PopOutcome, SwitchError>)
    ensures
        r matches Err(e) ==> !(e is MissingSavedWork),
        grows(*old(runner), *final(runner)),
        r matches Err(e) ==> !(e is StalePlan),
        r is Ok,
        r matches Ok(o) ==> (o.applied_index ==> o.warning is None) && (o.warning matches Some(w)
            ==> w@ == pop_warning() && !o.applied_index),
{
    if runner.run_unlocked(&GitCommand::write(stash_args(&["pop", "--index"]))).is_ok() {
        return Ok(PopOutcome { applied_index: true, warning: None });
    }
    if runner.run_unlocked(&GitCommand::write(stash_args(&["pop"]))).is_ok() {
        return Ok(PopOutcome { applied_index: false, warning: None });
    }
    Ok(
        PopOutcome {
            applied_index: false,
            warning: Some(
                String::from_str(
                    "Carried changes could not be popped cleanly. Resolve any conflict markers in the working tree, then run git stash drop if an entry is still listed.",
                ),
            ),
        },
    )
}

/// The command that drops the top stash entry.
pub open spec fn drop_top_effect() -> Effect {
    Effect::Run {
        args: seq!["-c"@, "submodule.recurse=false"@, "stash"@, "drop"@, "stash@{0}"@],
        writes: true,
    }
}

/// Drops the top stash entry.
pub(crate) fn drop_top<R: GitRunner>(runner: &mut Host<R>) -> (r: Result<(), SwitchError>)
    ensures
        r matches Err(e) ==> !(e is MissingSavedWork),
        grows(*old(runner), *final(runner)),
        r matches Err(e) ==> !(e is StalePlan),
        r matches Err(e) ==> e is Git,
        final(runner).trace() == old(runner).trace().push(drop_top_effect()),
{
    let args = stash_args(&["drop", "stash@{0}"]);
    assert(args.deep_view() =~= seq!["-c"@, "submodule.recurse=false"@, "stash"@, "drop"@, "stash@{0}"@]);
    match runner.run_unlocked(&GitCommand::write(args)) {
        Ok(_) => Ok(()),
        Err(e) => Err(SwitchError::Git(e)),
    }
}

/// A clean apply: the snapshot is consumed.
pub fn clean(applied_index: bool) -> (r: ApplyOutcome)
    ensures
        r.applied_index == applied_index,
        !r.conflict,
        r.warning is None,
        r.consumed,
{
    ApplyOutcome { applied_index, conflict: false, warning: None, consumed: true }
}

/// An apply that stopped in conflicts, with `warning`.
pub fn conflict(warning: &str, consumed: bool) -> (r: ApplyOutcome)
    ensures
        !r.applied_index,
        r.conflict,
        r.warning matches Some(w) && w@ == warning@,
        r.consumed == consumed,
{
    ApplyOutcome {
        applied_index: false,
        conflict: true,
        warning: Some(String::from_str(warning)),
        consumed,
    }
}

} // verus!
