//! What a split reads of the repository, and the names it derives.
use vstd::prelude::*;

use crate::host::grows;

use crate::host::{reads_only, Effect, Host};

use crate::git::{command_args, push_arg, GitCommand, GitRunner};
use crate::rewrite::ObjectId;
use crate::text::{concat, concat3, contains_char, contains_char_spec, starts_with, trim, trim_spec};

use super::errors::SplitError;

verus! {

broadcast use crate::host::lemma_grows_chain, crate::host::lemma_grows_none, crate::host::lemma_grows_trace,
    crate::host::lemma_grows_reply;

/// The branch `HEAD` is on; a detached `HEAD` is refused.
pub(crate) fn read_branch<R: GitRunner>(runner: &mut Host<R>) -> (r: Result<String, SplitError>)
    ensures
        grows(*old(runner), *final(runner)),
        r matches Err(e) ==> !(e is ExistingBranch),
        reads_only(old(runner).trace(), final(runner).trace()),
        r matches Err(e) ==> !(e is StalePlan),
        r matches Err(e) ==> e is Git || e is InvalidState,
        final(runner).trace() == old(runner).trace().push(crate::switch::state::branch_effect()),
        r matches Ok(b) ==> (final(runner).reply(old(runner).trace().len() as int) matches Some(out) && crate::switch::state::branch_read(out, b@)),
{
    let args = command_args(&["symbolic-ref", "--quiet", "--short", "HEAD"]);
    assert(args.deep_view() =~= seq!["symbolic-ref"@, "--quiet"@, "--short"@, "HEAD"@]);
    let output = match runner.run(&GitCommand::read(args)) {
        Ok(o) => o,
        Err(_) => return Err(SplitError::InvalidState(String::from_str("HEAD is detached"))),
    };
    match text(output.stdout.as_slice()) {
        Ok(value) => Ok(trim(value.as_str())),
        Err(e) => Err(e),
    }
}

/// The commit `name` resolves to: `git rev-parse --verify <name>^{commit}`.
pub(crate) fn read_id<R: GitRunner>(runner: &mut Host<R>, name: &str) -> (r: Result<ObjectId, SplitError>)
    ensures
        grows(*old(runner), *final(runner)),
        r matches Err(e) ==> !(e is ExistingBranch),
        reads_only(old(runner).trace(), final(runner).trace()),
        r matches Err(e) ==> !(e is StalePlan),
        r matches Ok(id) ==> crate::rewrite::model::valid_object_id(id@),
        r matches Err(e) ==> e is Git || e is InvalidState,
        final(runner).trace() == old(runner).trace().push(crate::switch::state::resolve_effect(name@)),
        r matches Ok(id) ==> (final(runner).reply(old(runner).trace().len() as int) matches Some(out) && crate::switch::state::id_read(out, id@)),
{
    let spec = concat(name, "^{commit}");
    let args = command_args(&["rev-parse", "--verify", spec.as_str()]);
    assert(args.deep_view() =~= seq!["rev-parse"@, "--verify"@, name@ + "^{commit}"@]);
    let output = match runner.run(&GitCommand::read(args)) {
        Ok(o) => o,
        Err(e) => return Err(SplitError::Git(e)),
    };
    parse_id(output.stdout.as_slice())
}

/// The best common ancestor of `base` and `head`.
pub(crate) fn merge_base<R: GitRunner>(runner: &mut Host<R>, base: &ObjectId, head: &ObjectId) -> (r: Result<
    ObjectId,
    SplitError,
>)
    ensures
        grows(*old(runner), *final(runner)),
        r matches Err(e) ==> !(e is ExistingBranch),
        r matches Err(e) ==> !(e is NoChanges),
        r matches Err(e) ==> !(e is StalePlan),
        r matches Ok(id) ==> crate::rewrite::model::valid_object_id(id@),
{
    let mut values = command_args(&["merge-base"]);
    push_arg(&mut values, base.as_str());
    push_arg(&mut values, head.as_str());
    let output = match runner.run(&GitCommand::read(values)) {
        Ok(o) => o,
        Err(_) => {
            let mut message = concat3("no common ancestor between ", base.as_str(), " and ");
            message.append(head.as_str());
            return Err(SplitError::InvalidState(message));
        },
    };
    parse_id(output.stdout.as_slice())
}

/// An object id printed by Git on one line.
pub fn parse_id(bytes: &[u8]) -> (r: Result<ObjectId, SplitError>)
    ensures
        r is Ok <==> vstd::utf8::valid_utf8(bytes@) && crate::rewrite::model::valid_object_id(
            trim_spec(vstd::utf8::decode_utf8(bytes@)),
        ),
        !vstd::utf8::valid_utf8(bytes@) ==> r matches Err(SplitError::InvalidState(_)),
        r matches Ok(id) ==> vstd::utf8::valid_utf8(bytes@) && id@ == trim_spec(
            vstd::utf8::decode_utf8(bytes@),
        ),
        r matches Err(e) ==> e is InvalidState,
{
    let value = match text(bytes) {
        Ok(t) => t,
        Err(e) => return Err(e),
    };
    match ObjectId::new(trim(value.as_str())) {
        Ok(id) => Ok(id),
        Err(message) => Err(SplitError::InvalidState(message)),
    }
}

/// Whether the ref `reference` exists: `git show-ref --verify --quiet`.
pub(crate) fn branch_exists<R: GitRunner>(runner: &mut Host<R>, reference: &str) -> (r: Result<bool, SplitError>)
    ensures
        grows(*old(runner), *final(runner)),
        r matches Err(e) ==> !(e is ExistingBranch),
        reads_only(old(runner).trace(), final(runner).trace()),
        r matches Err(e) ==> !(e is StalePlan),
        r is Ok,
        final(runner).trace() == old(runner).trace().push(show_ref_effect(reference@)),
        r == Ok::<bool, SplitError>(final(runner).reply(old(runner).trace().len() as int) is Some),
{
    let mut values = command_args(&["show-ref", "--verify", "--quiet"]);
    push_arg(&mut values, reference);
    assert(values.deep_view() =~= seq!["show-ref"@, "--verify"@, "--quiet"@, reference@]);
    Ok(runner.run(&GitCommand::read(values)).is_ok())
}

/// The command that asks whether the ref `reference` exists.
pub open spec fn show_ref_effect(reference: Seq<char>) -> Effect {
    Effect::Run { args: seq!["show-ref"@, "--verify"@, "--quiet"@, reference], writes: false }
}

/// A name that cannot be a branch on its face: empty, an option, or holding NUL.
pub open spec fn plainly_invalid_branch(branch: Seq<char>) -> bool {
    branch.len() == 0 || branch[0] == '-' || contains_char_spec(branch, '\0')
}

/// Checks `branch` itself, then asks `git check-ref-format --branch`.
pub(crate) fn validate_branch_name<R: GitRunner>(runner: &mut Host<R>, branch: &str) -> (r: Result<(), SplitError>)
    ensures
        grows(*old(runner), *final(runner)),
        r matches Err(e) ==> !(e is ExistingBranch),
        r matches Err(e) ==> !(e is NoChanges),
        r matches Err(e) ==> !(e is StalePlan),
        plainly_invalid_branch(branch@) ==> (r matches Err(SplitError::InvalidState(m)) && m@
            == "invalid branch name: "@ + branch@),
{
    proof {
        reveal_strlit("-");
    }
    if branch.is_empty() || starts_with(branch, "-") || contains_char(branch, '\0') {
        return Err(SplitError::InvalidState(concat("invalid branch name: ", branch)));
    }
    proof {
        assert(branch@.len() > 0);
        if branch@[0] == '-' {
            assert(branch@.take(1) =~= "-"@);
        }
    }
    let mut values = command_args(&["check-ref-format", "--branch"]);
    push_arg(&mut values, branch);
    match runner.run(&GitCommand::read(values)) {
        Ok(_) => Ok(()),
        Err(e) => Err(SplitError::Git(e)),
    }
}

/// `refs/heads/<branch>`.
pub fn branch_ref(branch: &str) -> (r: String)
    ensures
        r@ == "refs/heads/"@ + branch@,
{
    concat("refs/heads/", branch)
}

/// The pathspec that names `path` literally: `:(literal)<path>`.
pub fn literal(path: &str) -> (r: String)
    ensures
        r@ == ":(literal)"@ + path@,
{
    concat(":(literal)", path)
}

/// The bytes as text, refused unless they are UTF-8.
pub fn text(bytes: &[u8]) -> (r: Result<String, SplitError>)
    ensures
        r is Ok <==> vstd::utf8::valid_utf8(bytes@),
        r matches Ok(s) ==> s@ == vstd::utf8::decode_utf8(bytes@),
        r matches Err(e) ==> e is InvalidState,
{
    assert(bytes@.subrange(0, bytes@.len() as int) == bytes@);
    match crate::text::utf8_text(crate::text::bytes_of(bytes, 0, bytes.len())) {
        Some(s) => Ok(s),
        None => Err(SplitError::InvalidState(String::from_str("Git output is not UTF-8"))),
    }
}

} // verus!
