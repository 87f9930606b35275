//! Parks the untracked files the target branch also has, and merges them back
//! onto the target.
use vstd::prelude::*;

use crate::host::grows;

use crate::host::Host;

use crate::git::{command_args, push_arg, GitCommand, GitRunner};
use crate::revert::paths::literal;
use crate::rewrite::ObjectId;

use super::errors::SwitchError;
use super::{stash, state};

verus! {

broadcast use crate::host::lemma_grows_chain, crate::host::lemma_grows_none, crate::host::lemma_grows_trace,
    crate::host::lemma_grows_reply;

pub open spec fn merge_warning() -> Seq<char> {
    "Untracked files were merged with the target branch and may leave conflict markers. Resolve them before continuing."@
}

pub struct ParkRef {
    pub reference: String,
}

/// Stages the paths, snapshots them under the operation's untracked-merge ref,
/// then takes them out of the worktree and the index.
pub(crate) fn park<R: GitRunner>(runner: &mut Host<R>, paths: &Vec<String>, operation_id: &str) -> (r: Result<
    ParkRef,
    SwitchError,
>)
    ensures
        r matches Err(e) ==> !(e is MissingSavedWork),
        grows(*old(runner), *final(runner)),
        r matches Err(e) ==> !(e is StalePlan),
        r matches Ok(p) ==> p.reference@ == "refs/githelper/untracked-merge/"@ + operation_id@,
{
    match stage_paths(runner, paths) {
        Ok(()) => {},
        Err(e) => return Err(e),
    }
    let snapshot = match stash::snapshot(runner) {
        Ok(s) => s,
        Err(e) => return Err(e),
    };
    let reference = state::untracked_merge_ref(operation_id);
    match write_ref(runner, reference.as_str(), &snapshot) {
        Ok(()) => {},
        Err(e) => return Err(e),
    }
    match clear_paths(runner, paths) {
        Ok(()) => {},
        Err(e) => return Err(e),
    }
    Ok(ParkRef { reference })
}

/// Applies the parked files; a consumed snapshot loses its ref. Any conflict
/// or warning of the apply is reported.
pub(crate) fn reapply<R: GitRunner>(runner: &mut Host<R>, reference: &str) -> (r: Result<Option<String>, SwitchError>)
    ensures
        r matches Err(e) ==> !(e is MissingSavedWork),
        grows(*old(runner), *final(runner)),
        r matches Err(e) ==> !(e is StalePlan),
{
    let snapshot = match state::optional_id(runner, reference) {
        Ok(Some(id)) => id,
        Ok(None) => return Ok(None),
        Err(e) => return Err(e),
    };
    let outcome = match stash::try_apply(runner, reference) {
        Ok(o) => o,
        Err(e) => return Err(e),
    };
    if outcome.consumed {
        match delete_ref(runner, reference, &snapshot) {
            Ok(()) => {},
            Err(e) => return Err(e),
        }
    }
    Ok(reapply_warning(outcome.conflict, outcome.warning))
}

/// The warning a reapply reports: the apply's own, or the merge warning when
/// it conflicted without one.
pub fn reapply_warning(conflict: bool, warning: Option<String>) -> (r: Option<String>)
    ensures
        warning matches Some(w) ==> (r matches Some(x) && x@ == w@),
        warning is None && conflict ==> (r matches Some(x) && x@ == merge_warning()),
        warning is None && !conflict ==> r is None,
{
    match warning {
        Some(w) => Some(w),
        None => if conflict {
            Some(
                String::from_str(
                    "Untracked files were merged with the target branch and may leave conflict markers. Resolve them before continuing.",
                ),
            )
        } else {
            None
        },
    }
}

fn stage_paths<R: GitRunner>(runner: &mut Host<R>, paths: &Vec<String>) -> (r: Result<(), SwitchError>)
    ensures
        r matches Err(e) ==> !(e is MissingSavedWork),
        grows(*old(runner), *final(runner)),
        r matches Err(e) ==> !(e is StalePlan),
        paths@.len() == 0 ==> r is Ok,
        r matches Err(e) ==> e is Git,
{
    let mut i: usize = 0;
    while i < paths.len()
        invariant
            grows(*old(runner), *runner),
        decreases paths@.len() - i,
    {
        let mut values = command_args(&["add", "--"]);
        push_arg(&mut values, literal(paths[i].as_str()).as_str());
        match runner.run_unlocked(&GitCommand::write(values)) {
            Ok(_) => {},
            Err(e) => return Err(SwitchError::Git(e)),
        }
        i = i + 1;
    }
    Ok(())
}

fn clear_paths<R: GitRunner>(runner: &mut Host<R>, paths: &Vec<String>) -> (r: Result<(), SwitchError>)
    ensures
        r matches Err(e) ==> !(e is MissingSavedWork),
        grows(*old(runner), *final(runner)),
        r matches Err(e) ==> !(e is StalePlan),
        paths@.len() == 0 ==> r is Ok,
        r matches Err(e) ==> e is Git,
{
    let mut i: usize = 0;
    while i < paths.len()
        invariant
            grows(*old(runner), *runner),
        decreases paths@.len() - i,
    {
        let mut restore = command_args(&["restore", "--worktree", "--source=HEAD", "--"]);
        push_arg(&mut restore, paths[i].as_str());
        match runner.run_unlocked(&GitCommand::write(restore)) {
            Ok(_) => {},
            Err(e) => return Err(SwitchError::Git(e)),
        }
        let mut reset = command_args(&["reset", "HEAD", "--"]);
        push_arg(&mut reset, paths[i].as_str());
        match runner.run_unlocked(&GitCommand::write(reset)) {
            Ok(_) => {},
            Err(e) => return Err(SwitchError::Git(e)),
        }
        i = i + 1;
    }
    Ok(())
}

fn write_ref<R: GitRunner>(runner: &mut Host<R>, reference: &str, snapshot: &ObjectId) -> (r: Result<
    (),
    SwitchError,
>)
    ensures
        r matches Err(e) ==> !(e is MissingSavedWork),
        grows(*old(runner), *final(runner)),
        r matches Err(e) ==> !(e is StalePlan),
        r matches Err(e) ==> e is Git,
{
    let mut values = command_args(&["update-ref", "-m", "git-helper untracked-merge"]);
    push_arg(&mut values, reference);
    push_arg(&mut values, snapshot.as_str());
    push_arg(&mut values, "");
    match runner.run_unlocked(&GitCommand::write(values)) {
        Ok(_) => Ok(()),
        Err(e) => Err(SwitchError::Git(e)),
    }
}

fn delete_ref<R: GitRunner>(runner: &mut Host<R>, reference: &str, snapshot: &ObjectId) -> (r: Result<
    (),
    SwitchError,
>)
    ensures
        r matches Err(e) ==> !(e is MissingSavedWork),
        grows(*old(runner), *final(runner)),
        r matches Err(e) ==> !(e is StalePlan),
        r matches Err(e) ==> e is Git,
{
    let mut values = command_args(&["update-ref", "-d", "-m", "git-helper drop-untracked-merge"]);
    push_arg(&mut values, reference);
    push_arg(&mut values, snapshot.as_str());
    match runner.run_unlocked(&GitCommand::write(values)) {
        Ok(_) => Ok(()),
        Err(e) => Err(SwitchError::Git(e)),
    }
}

} // verus!
