//! The Present marker: while the checkout is detached on an older commit, it
//! remembers the branch to come back to.
use vstd::prelude::*;

use crate::host::{grows, reads_only, Effect, Host};

use crate::git::{command_args, push_arg, GitCommand, GitRunner};
use crate::text::{strip_prefix, trim, trim_spec, starts_with_spec};

use super::errors::SwitchError;
use super::state;

verus! {

broadcast use crate::host::lemma_grows_chain, crate::host::lemma_grows_none, crate::host::lemma_grows_trace,
    crate::host::lemma_grows_reply;

pub open spec fn present_ref() -> Seq<char> {
    "refs/githelper/present"@
}

/// The branch a Present marker target names: `refs/heads/<branch>` with a non-empty branch.
pub open spec fn present_branch_spec(target: Seq<char>) -> Option<Seq<char>> {
    if starts_with_spec(target, "refs/heads/"@) && target.len() > "refs/heads/"@.len() {
        Some(target.skip("refs/heads/"@.len() as int))
    } else {
        None
    }
}

/// The branch named by the marker's target, as Git printed it.
pub fn branch_of_target(printed: &str) -> (r: Option<String>)
    ensures
        r matches Some(b) ==> present_branch_spec(trim_spec(printed@)) == Some(b@),
        r is None ==> present_branch_spec(trim_spec(printed@)) is None,
{
    let value = trim(printed);
    proof {
        reveal_strlit("refs/heads/");
    }
    match strip_prefix(value.as_str(), "refs/heads/") {
        Some(name) => {
            assert(value@.skip("refs/heads/"@.len() as int) =~= name@);
            if name.as_str().is_empty() {
                None
            } else {
                Some(name)
            }
        },
        None => None,
    }
}

/// The command that reads the Present marker.
pub open spec fn read_effect() -> Effect {
    Effect::Run { args: seq!["symbolic-ref"@, "--quiet"@, present_ref()], writes: false }
}

/// A text as a plain value, if there is one.
pub open spec fn opt_text(o: Option<String>) -> Option<Seq<char>> {
    match o {
        Some(s) => Some(s@),
        None => None,
    }
}

/// The branch the marker remembers, if there is a marker.
pub(crate) fn read<R: GitRunner>(runner: &mut Host<R>) -> (r: Result<Option<String>, SwitchError>)
    ensures
        r matches Err(e) ==> !(e is MissingSavedWork),
        r matches Err(e) ==> !(e is StalePlan),
        r matches Ok(Some(b)) ==> b@.len() > 0,
        r matches Err(e) ==> e is InvalidState,
        final(runner).trace() == old(runner).trace().push(read_effect()),
        grows(*old(runner), *final(runner)),
        reads_only(old(runner).trace(), final(runner).trace()),
        final(runner).reply(old(runner).trace().len() as int) is None ==> r matches Ok(None),
        final(runner).reply(old(runner).trace().len() as int) matches Some(out) ==> (
        vstd::utf8::valid_utf8(out) <==> r is Ok) && (r matches Ok(b) ==> opt_text(b)
            == present_branch_spec(trim_spec(vstd::utf8::decode_utf8(out)))),
{
    let args = command_args(&["symbolic-ref", "--quiet", "refs/githelper/present"]);
    assert(args.deep_view() =~= seq!["symbolic-ref"@, "--quiet"@, present_ref()]);
    let output = match runner.run(&GitCommand::read(args)) {
        Ok(o) => o,
        Err(_) => return Ok(None),
    };
    match state::text(output.stdout.as_slice()) {
        Ok(value) => Ok(branch_of_target(value.as_str())),
        Err(e) => Err(e),
    }
}

/// Points the marker at `branch`.
pub(crate) fn write<R: GitRunner>(runner: &mut Host<R>, branch: &str) -> (r: Result<(), SwitchError>)
    ensures
        r matches Err(e) ==> !(e is MissingSavedWork),
        grows(*old(runner), *final(runner)),
        r matches Err(e) ==> !(e is StalePlan),
        r matches Err(e) ==> e is Git,
{
    let target = state::branch_ref(branch);
    let mut values = command_args(&["symbolic-ref", "refs/githelper/present"]);
    push_arg(&mut values, target.as_str());
    match runner.run_unlocked(&GitCommand::write(values)) {
        Ok(_) => Ok(()),
        Err(e) => Err(SwitchError::Git(e)),
    }
}

/// Removes the marker; a marker that is not there is no failure.
pub(crate) fn delete<R: GitRunner>(runner: &mut Host<R>) -> (r: Result<(), SwitchError>)
    ensures
        r matches Err(e) ==> !(e is MissingSavedWork),
        grows(*old(runner), *final(runner)),
        r matches Err(e) ==> !(e is StalePlan),
        r is Ok,
        final(runner).trace() == old(runner).trace().push(clear_effect()),
{
    let args = command_args(&["symbolic-ref", "--delete", "refs/githelper/present"]);
    assert(args.deep_view() =~= seq!["symbolic-ref"@, "--delete"@, present_ref()]);
    let _ = runner.run_unlocked(&GitCommand::write(args));
    Ok(())
}

/// The command that removes the Present marker.
pub open spec fn clear_effect() -> Effect {
    Effect::Run { args: seq!["symbolic-ref"@, "--delete"@, present_ref()], writes: true }
}

} // verus!
