//! Updating the target branch from its remote after a switch.
use vstd::prelude::*;

use crate::host::grows;

use crate::host::{Effect, Host};
use crate::text::trim_spec;

use crate::git::{command_args, push_arg, GitCommand, GitRunner};
use crate::text::{concat, split_once, split_once_spec, strip_prefix, starts_with_spec};

use super::errors::SwitchError;
use super::{stash, state};

verus! {

broadcast use crate::host::lemma_grows_chain, crate::host::lemma_grows_none, crate::host::lemma_grows_trace,
    crate::host::lemma_grows_reply;

/// The remote and branch of `refs/remotes/<remote>/<branch>`, both non-empty.
pub open spec fn remote_parts_spec(remote_ref: Seq<char>) -> Option<(Seq<char>, Seq<char>)> {
    if !starts_with_spec(remote_ref, "refs/remotes/"@) {
        None
    } else {
        match split_once_spec(remote_ref.skip("refs/remotes/"@.len() as int), '/') {
            Some((remote, branch)) => if remote.len() > 0 && branch.len() > 0 {
                Some((remote, branch))
            } else {
                None
            },
            None => None,
        }
    }
}

pub fn remote_parts(remote_ref: &str) -> (r: Result<(String, String), SwitchError>)
    ensures
        r matches Err(e) ==> !(e is MissingSavedWork),
        r matches Err(e) ==> !(e is StalePlan),
        r matches Ok(p) ==> remote_parts_spec(remote_ref@) == Some((p.0@, p.1@)),
        r is Err ==> remote_parts_spec(remote_ref@) is None,
        !starts_with_spec(remote_ref@, "refs/remotes/"@) ==> (r matches Err(
            SwitchError::InvalidState(m),
        ) && m@ == "not a remote-tracking ref: "@ + remote_ref@),
{
    proof {
        reveal_strlit("refs/remotes/");
    }
    let value = match strip_prefix(remote_ref, "refs/remotes/") {
        Some(v) => v,
        None => return Err(SwitchError::InvalidState(concat("not a remote-tracking ref: ", remote_ref))),
    };
    assert(remote_ref@.skip("refs/remotes/"@.len() as int) =~= value@);
    match split_once(value.as_str(), '/') {
        Some((remote, branch)) => {
            if !remote.as_str().is_empty() && !branch.as_str().is_empty() {
                return Ok((remote, branch));
            }
        },
        None => {},
    }
    Err(SwitchError::InvalidState(concat("remote-tracking ref is incomplete: ", remote_ref)))
}

/// `pull --ff-only`; true when the fast-forward succeeded or nothing was new.
pub(crate) fn fast_forward<R: GitRunner>(runner: &mut Host<R>, remote_ref: &str) -> (r: Result<bool, SwitchError>)
    ensures
        r matches Err(e) ==> !(e is MissingSavedWork),
        grows(*old(runner), *final(runner)),
        r matches Err(e) ==> !(e is StalePlan),
        remote_parts_spec(remote_ref@) is None ==> r is Err,
        remote_parts_spec(remote_ref@) is None ==> final(runner).trace() == old(runner).trace(),
        remote_parts_spec(remote_ref@) matches Some((remote, branch)) ==> {
            &&& final(runner).trace() == old(runner).trace().push(fast_forward_effect(remote, branch))
            &&& r == Ok::<bool, SwitchError>(final(runner).reply(old(runner).trace().len() as int) is Some)
        },
{
    let (remote, branch) = match remote_parts(remote_ref) {
        Ok(p) => p,
        Err(e) => return Err(e),
    };
    let mut values = command_args(&["pull", "--ff-only", "--no-recurse-submodules", "--no-tags"]);
    push_arg(&mut values, remote.as_str());
    push_arg(&mut values, branch.as_str());
    assert(values.deep_view() =~= seq![
        "pull"@,
        "--ff-only"@,
        "--no-recurse-submodules"@,
        "--no-tags"@,
        remote@,
        branch@,
    ]);
    Ok(runner.run_unlocked(&GitCommand::write(values)).is_ok())
}

/// `reset --hard` onto the remote-tracking ref.
pub open spec fn reset_to_effect(remote_ref: Seq<char>) -> Effect {
    Effect::Run { args: seq!["reset"@, "--hard"@, "--no-recurse-submodules"@, remote_ref], writes: true }
}

/// A merging pull from `remote`'s `branch`.
pub open spec fn merge_pull_effect(remote: Seq<char>, branch: Seq<char>) -> Effect {
    Effect::Run {
        args: seq!["pull"@, "--no-ff"@, "--no-rebase"@, "--no-recurse-submodules"@, "--no-tags"@, remote, branch],
        writes: true,
    }
}

/// The command that reads the top stash entry's id.
pub open spec fn stash_top_effect() -> Effect {
    Effect::Run { args: seq!["rev-parse"@, "--verify"@, "stash@{0}"@], writes: false }
}

/// The command that anchors snapshot `id` on a carry ref of its own; Git
/// refuses if that ref exists.
pub open spec fn anchor_effect(reference: Seq<char>, id: Seq<char>) -> Effect {
    Effect::Run {
        args: seq!["update-ref"@, "-m"@, "git-helper carry"@, reference, id, Seq::<char>::empty()],
        writes: true,
    }
}

/// `pull --ff-only` from `remote`'s `branch`.
pub open spec fn fast_forward_effect(remote: Seq<char>, branch: Seq<char>) -> Effect {
    Effect::Run {
        args: seq!["pull"@, "--ff-only"@, "--no-recurse-submodules"@, "--no-tags"@, remote, branch],
        writes: true,
    }
}

/// Makes the branch the remote's: `reset --hard` onto it.
pub(crate) fn replace_with_remote<R: GitRunner>(runner: &mut Host<R>, remote_ref: &str) -> (r: Result<(), SwitchError>)
    ensures
        r matches Err(e) ==> !(e is MissingSavedWork),
        grows(*old(runner), *final(runner)),
        r matches Err(e) ==> !(e is StalePlan),
        r matches Err(e) ==> e is Git,
        final(runner).trace() == old(runner).trace().push(reset_to_effect(remote_ref@)),
        r is Ok <==> final(runner).reply(old(runner).trace().len() as int) is Some,
{
    let mut values = command_args(&["reset", "--hard", "--no-recurse-submodules"]);
    push_arg(&mut values, remote_ref);
    assert(values.deep_view() =~= seq!["reset"@, "--hard"@, "--no-recurse-submodules"@, remote_ref@]);
    match runner.run_unlocked(&GitCommand::write(values)) {
        Ok(_) => Ok(()),
        Err(e) => Err(SwitchError::Git(e)),
    }
}

/// A merging pull that may leave conflicts; true when it was clean.
pub(crate) fn merge_pull<R: GitRunner>(runner: &mut Host<R>, remote_ref: &str) -> (r: Result<bool, SwitchError>)
    ensures
        r matches Err(e) ==> !(e is MissingSavedWork),
        grows(*old(runner), *final(runner)),
        r matches Err(e) ==> !(e is StalePlan),
        remote_parts_spec(remote_ref@) is None ==> r is Err,
        remote_parts_spec(remote_ref@) is Some ==> r is Ok,
        remote_parts_spec(remote_ref@) is None ==> final(runner).trace() == old(runner).trace(),
        remote_parts_spec(remote_ref@) matches Some((remote, branch)) ==> {
            &&& final(runner).trace() == old(runner).trace().push(merge_pull_effect(remote, branch))
            &&& r == Ok::<bool, SwitchError>(final(runner).reply(old(runner).trace().len() as int) is Some)
        },
{
    let (remote, branch) = match remote_parts(remote_ref) {
        Ok(p) => p,
        Err(e) => return Err(e),
    };
    let mut values = command_args(
        &["pull", "--no-ff", "--no-rebase", "--no-recurse-submodules", "--no-tags"],
    );
    push_arg(&mut values, remote.as_str());
    push_arg(&mut values, branch.as_str());
    assert(values.deep_view() =~= seq![
        "pull"@,
        "--no-ff"@,
        "--no-rebase"@,
        "--no-recurse-submodules"@,
        "--no-tags"@,
        remote@,
        branch@,
    ]);
    Ok(runner.run_unlocked(&GitCommand::write(values)).is_ok())
}

/// Moves the top stash entry onto a durable carry ref and drops it from the stack.
pub(crate) fn anchor_carry<R: GitRunner>(runner: &mut Host<R>, operation_id: &str) -> (r: Result<String, SwitchError>)
    ensures
        r matches Err(e) ==> !(e is MissingSavedWork),
        grows(*old(runner), *final(runner)),
        r matches Err(e) ==> !(e is StalePlan),
        r matches Ok(reference) ==> reference@ == "refs/githelper/carry/"@ + operation_id@,
        r matches Ok(reference) ==> (final(runner).reply(old(runner).trace().len() as int) matches Some(
            out,
        ) && final(runner).trace() == old(runner).trace().push(stash_top_effect()).push(
            anchor_effect(reference@, trim_spec(vstd::utf8::decode_utf8(out))),
        ).push(stash::drop_top_effect())),
{
    let args = command_args(&["rev-parse", "--verify", "stash@{0}"]);
    assert(args.deep_view() =~= seq!["rev-parse"@, "--verify"@, "stash@{0}"@]);
    let output = match runner.run_unlocked(&GitCommand::read(args)) {
        Ok(o) => o,
        Err(e) => return Err(SwitchError::Git(e)),
    };
    let snapshot = match state::parse_id(output.stdout.as_slice()) {
        Ok(id) => id,
        Err(e) => return Err(e),
    };
    let reference = state::carry_ref(operation_id);
    let mut values = command_args(&["update-ref", "-m", "git-helper carry"]);
    assert(values.deep_view() =~= seq!["update-ref"@, "-m"@, "git-helper carry"@]);
    push_arg(&mut values, reference.as_str());
    push_arg(&mut values, snapshot.as_str());
    push_arg(&mut values, "");
    proof {
        reveal_strlit("");
        assert(""@ =~= Seq::<char>::empty());
    }
    assert(values.deep_view() =~= seq![
        "update-ref"@,
        "-m"@,
        "git-helper carry"@,
        reference@,
        snapshot@,
        Seq::<char>::empty(),
    ]);
    match runner.run_unlocked(&GitCommand::write(values)) {
        Ok(_) => {},
        Err(e) => return Err(SwitchError::Git(e)),
    }
    match stash::drop_top(runner) {
        Ok(()) => Ok(reference),
        Err(e) => Err(e),
    }
}

pub open spec fn carry_conflict_warning() -> Seq<char> {
    "Carried changes conflicted after the pull. Resolve the markers, then delete the carry ref when done."@
}

/// Applies the anchored carry; a clean apply deletes the carry ref, a
/// conflicting one keeps it and warns.
pub(crate) fn apply_carry_ref<R: GitRunner>(runner: &mut Host<R>, reference: &str) -> (r: Result<
    (bool, Option<String>),
    SwitchError,
>)
    ensures
        r matches Err(e) ==> !(e is MissingSavedWork),
        grows(*old(runner), *final(runner)),
        r matches Err(e) ==> !(e is StalePlan),
        r matches Ok(p) ==> (p.1 matches Some(w) ==> w@ == carry_conflict_warning() && !p.0),
{
    let outcome = match stash::apply(runner, reference) {
        Ok(o) => o,
        Err(e) => return Err(e),
    };
    if outcome.conflict {
        return Ok(
            (
                false,
                Some(
                    String::from_str(
                        "Carried changes conflicted after the pull. Resolve the markers, then delete the carry ref when done.",
                    ),
                ),
            ),
        );
    }
    match delete_carry(runner, reference) {
        Ok(()) => Ok((outcome.applied_index, None)),
        Err(e) => Err(e),
    }
}

fn delete_carry<R: GitRunner>(runner: &mut Host<R>, reference: &str) -> (r: Result<(), SwitchError>)
    ensures
        r matches Err(e) ==> !(e is MissingSavedWork),
        grows(*old(runner), *final(runner)),
        r matches Err(e) ==> !(e is StalePlan),
        r matches Err(e) ==> e is Git || e is InvalidState,
{
    let snapshot = match state::optional_id(runner, reference) {
        Ok(Some(id)) => id,
        Ok(None) => return Ok(()),
        Err(e) => return Err(e),
    };
    let mut values = command_args(&["update-ref", "-d", "-m", "git-helper drop-carry"]);
    push_arg(&mut values, reference);
    push_arg(&mut values, snapshot.as_str());
    match runner.run_unlocked(&GitCommand::write(values)) {
        Ok(_) => Ok(()),
        Err(e) => Err(SwitchError::Git(e)),
    }
}

} // verus!
