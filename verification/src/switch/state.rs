//! What a switch reads of the repository, and the refs it names.
use vstd::prelude::*;

use crate::host::{
    asked_git_path, grows, lemma_asked_kept, lemma_reads_chain, lemma_reads_none, nothing_found, reads_only,
    Effect, Host,
};

use crate::git::{command_args, push_arg, GitCommand, GitRunner};
use crate::rewrite::preflight::{absolute_path, marker, operation_markers};
use crate::rewrite::ObjectId;
use crate::split::state::plainly_invalid_branch;
use crate::text::{
    concat, contains_char, contains_char_spec, ends_with, ends_with_spec, nonempty_spec, split_bytes,
    split_nonempty, split_spec, starts_with, starts_with_spec, trim, trim_spec, views,
};

use super::errors::SwitchError;

verus! {

broadcast use crate::host::lemma_grows_chain, crate::host::lemma_grows_none, crate::host::lemma_grows_trace,
    crate::host::lemma_grows_reply;

/// Where Saved work lives: one ref per branch under this prefix.
pub open spec fn wip_prefix() -> Seq<char> {
    "refs/githelper/wip/"@
}

pub fn wip_prefix_str() -> (r: &'static str)
    ensures
        r@ == wip_prefix(),
{
    "refs/githelper/wip/"
}

/// The branch `HEAD` is on; a detached `HEAD` is refused.
pub(crate) fn read_branch<R: GitRunner>(runner: &mut Host<R>) -> (r: Result<String, SwitchError>)
    ensures
        r matches Err(e) ==> !(e is MissingSavedWork),
        reads_only(old(runner).trace(), final(runner).trace()),
        r matches Err(e) ==> !(e is StalePlan),
        r matches Err(e) ==> e is InvalidState,
        grows(*old(runner), *final(runner)),
        final(runner).trace() == old(runner).trace().push(branch_effect()),
        r matches Ok(b) ==> (final(runner).reply(old(runner).trace().len() as int) matches Some(out) && branch_read(out, b@)),
{
    let args = command_args(&["symbolic-ref", "--quiet", "--short", "HEAD"]);
    assert(args.deep_view() =~= seq!["symbolic-ref"@, "--quiet"@, "--short"@, "HEAD"@]);
    let output = match runner.run(&GitCommand::read(args)) {
        Ok(o) => o,
        Err(_) => return Err(SwitchError::InvalidState(String::from_str("HEAD is detached"))),
    };
    match text(output.stdout.as_slice()) {
        Ok(value) => Ok(trim(value.as_str())),
        Err(e) => Err(e),
    }
}

/// The branch `HEAD` is on, or `None` when it is detached.
pub(crate) fn optional_branch<R: GitRunner>(runner: &mut Host<R>) -> (r: Result<Option<String>, SwitchError>)
    ensures
        r matches Err(e) ==> !(e is MissingSavedWork),
        grows(*old(runner), *final(runner)),
        reads_only(old(runner).trace(), final(runner).trace()),
        r matches Err(e) ==> !(e is StalePlan),
        r matches Err(e) ==> e is InvalidState,
{
    let output = match runner.run(
        &GitCommand::read(command_args(&["symbolic-ref", "--quiet", "--short", "HEAD"])),
    ) {
        Ok(o) => o,
        Err(_) => return Ok(None),
    };
    match text(output.stdout.as_slice()) {
        Ok(value) => Ok(Some(trim(value.as_str()))),
        Err(e) => Err(e),
    }
}

/// A text as a plain value, if there is one.
pub open spec fn opt_text_view(o: Option<String>) -> Option<Seq<char>> {
    match o {
        Some(s) => Some(s@),
        None => None,
    }
}

/// The command that lists every remote-tracking ref.
pub open spec fn remotes_effect() -> Effect {
    Effect::Run { args: seq!["for-each-ref"@, "--format=%(refname)"@, "refs/remotes"@], writes: false }
}

/// The command that asks which branch `HEAD` is on.
pub open spec fn branch_effect() -> Effect {
    Effect::Run { args: seq!["symbolic-ref"@, "--quiet"@, "--short"@, "HEAD"@], writes: false }
}

/// The command that asks whether tracked files differ from `HEAD`.
pub open spec fn tracked_effect() -> Effect {
    Effect::Run {
        args: seq![
            "status"@,
            "--porcelain=v2"@,
            "-z"@,
            "--untracked-files=no"@,
            "--ignore-submodules=all"@,
        ],
        writes: false,
    }
}

/// `branch` is what Git printed for the branch `HEAD` is on.
pub open spec fn branch_read(printed: Seq<u8>, branch: Seq<char>) -> bool {
    vstd::utf8::valid_utf8(printed) && branch == trim_spec(vstd::utf8::decode_utf8(printed))
}

/// `id` is the object id Git printed.
pub open spec fn id_read(printed: Seq<u8>, id: Seq<char>) -> bool {
    vstd::utf8::valid_utf8(printed) && id == trim_spec(vstd::utf8::decode_utf8(printed))
}

/// The command that resolves `name` to a commit.
pub open spec fn resolve_effect(name: Seq<char>) -> Effect {
    Effect::Run { args: seq!["rev-parse"@, "--verify"@, name + "^{commit}"@], writes: false }
}

/// The commit `name` resolves to.
pub(crate) fn read_id<R: GitRunner>(runner: &mut Host<R>, name: &str) -> (r: Result<ObjectId, SwitchError>)
    ensures
        r matches Err(e) ==> !(e is MissingSavedWork),
        reads_only(old(runner).trace(), final(runner).trace()),
        r matches Err(e) ==> !(e is StalePlan),
        r matches Ok(id) ==> crate::rewrite::model::valid_object_id(id@),
        r matches Err(e) ==> e is Git || e is InvalidState,
        final(runner).trace() == old(runner).trace().push(resolve_effect(name@)),
        grows(*old(runner), *final(runner)),
        r matches Ok(id) ==> (final(runner).reply(old(runner).trace().len() as int) matches Some(out) && id_read(out, id@)),
{
    let spec = concat(name, "^{commit}");
    let args = command_args(&["rev-parse", "--verify", spec.as_str()]);
    assert(args.deep_view() =~= seq!["rev-parse"@, "--verify"@, name@ + "^{commit}"@]);
    let output = match runner.run(&GitCommand::read(args)) {
        Ok(o) => o,
        Err(e) => return Err(SwitchError::Git(e)),
    };
    parse_id(output.stdout.as_slice())
}

/// The commit `name` resolves to, or `None` when it resolves to none.
pub(crate) fn optional_id<R: GitRunner>(runner: &mut Host<R>, name: &str) -> (r: Result<Option<ObjectId>, SwitchError>)
    ensures
        (final(runner).reply(old(runner).trace().len() as int) matches Some(o) && vstd::utf8::valid_utf8(o)
            && crate::rewrite::model::valid_object_id(trim_spec(vstd::utf8::decode_utf8(o)))) ==> r matches Ok(Some(_)),
        r matches Err(e) ==> !(e is MissingSavedWork),
        reads_only(old(runner).trace(), final(runner).trace()),
        r matches Err(e) ==> !(e is StalePlan),
        r matches Ok(Some(id)) ==> crate::rewrite::model::valid_object_id(id@),
        r matches Err(e) ==> e is InvalidState,
        final(runner).trace() == old(runner).trace().push(resolve_effect(name@)),
        grows(*old(runner), *final(runner)),
        r matches Ok(None) <==> final(runner).reply(old(runner).trace().len() as int) is None,
        r matches Ok(Some(id)) ==> (final(runner).reply(old(runner).trace().len() as int) matches Some(out) && id_read(out, id@)),
{
    let spec = concat(name, "^{commit}");
    let args = command_args(&["rev-parse", "--verify", spec.as_str()]);
    assert(args.deep_view() =~= seq!["rev-parse"@, "--verify"@, name@ + "^{commit}"@]);
    let output = match runner.run(&GitCommand::read(args)) {
        Ok(o) => o,
        Err(_) => return Ok(None),
    };
    match parse_id(output.stdout.as_slice()) {
        Ok(id) => Ok(Some(id)),
        Err(e) => Err(e),
    }
}

/// An object id printed by Git on one line.
pub fn parse_id(bytes: &[u8]) -> (r: Result<ObjectId, SwitchError>)
    ensures
        r is Ok <==> vstd::utf8::valid_utf8(bytes@) && crate::rewrite::model::valid_object_id(
            trim_spec(vstd::utf8::decode_utf8(bytes@)),
        ),
        !vstd::utf8::valid_utf8(bytes@) ==> r matches Err(SwitchError::InvalidState(_)),
        r matches Err(e) ==> e is InvalidState,
        r matches Ok(id) ==> vstd::utf8::valid_utf8(bytes@) && id@ == trim_spec(
            vstd::utf8::decode_utf8(bytes@),
        ),
{
    let value = match text(bytes) {
        Ok(t) => t,
        Err(e) => return Err(e),
    };
    match ObjectId::new(trim(value.as_str())) {
        Ok(id) => Ok(id),
        Err(message) => Err(SwitchError::InvalidState(message)),
    }
}

/// Whether `git status --porcelain=v2 -z` printed any record.
pub fn any_record(bytes: &[u8]) -> (r: bool)
    ensures
        r == (nonempty_spec(split_spec(bytes@, 0)).len() > 0),
{
    split_nonempty(bytes, 0).len() > 0
}

/// Whether tracked files differ from `HEAD`, submodules aside.
pub(crate) fn read_tracked_changes<R: GitRunner>(runner: &mut Host<R>) -> (r: Result<bool, SwitchError>)
    ensures
        r matches Err(e) ==> !(e is MissingSavedWork),
        reads_only(old(runner).trace(), final(runner).trace()),
        r matches Err(e) ==> !(e is StalePlan),
        r matches Err(e) ==> e is Git,
        final(runner).trace() == old(runner).trace().push(tracked_effect()),
        grows(*old(runner), *final(runner)),
        r matches Ok(b) ==> (final(runner).reply(old(runner).trace().len() as int) matches Some(out) && b == (nonempty_spec(split_spec(out, 0)).len() > 0)),
{
    let args = command_args(
        &["status", "--porcelain=v2", "-z", "--untracked-files=no", "--ignore-submodules=all"],
    );
    assert(args.deep_view() =~= seq![
        "status"@,
        "--porcelain=v2"@,
        "-z"@,
        "--untracked-files=no"@,
        "--ignore-submodules=all"@,
    ]);
    let output = match runner.run(&GitCommand::read(args)) {
        Ok(o) => o,
        Err(e) => return Err(SwitchError::Git(e)),
    };
    Ok(any_record(output.stdout.as_slice()))
}

/// Refuses to start while a merge, cherry-pick, bisect or rebase is under way:
/// Git is asked where it keeps each marker, and the start is refused as soon
/// as one of them exists.
pub(crate) fn ensure_no_operation<R: GitRunner>(runner: &mut Host<R>) -> (r: Result<(), SwitchError>)
    ensures
        r matches Err(e) ==> !(e is MissingSavedWork),
        grows(*old(runner), *final(runner)),
        r matches Err(e) ==> !(e is StalePlan),
        r matches Err(e) ==> e is Git || e is InvalidState,
        r is Ok ==> nothing_found(old(runner).trace(), final(runner).trace()),
        r is Ok ==> forall|i: int|
            0 <= i < 5 ==> asked_git_path(
                old(runner).trace(),
                final(runner).trace(),
                #[trigger] operation_markers()[i],
            ),
        r matches Err(SwitchError::InvalidState(m)) ==> m@ == "Git output is not UTF-8"@ || (
        final(runner).trace().last() matches Effect::Exists { found: true, .. } && exists|i: int|
            0 <= i < 5 && m@ == "Git operation is in progress: "@ + operation_markers()[i]),
        reads_only(old(runner).trace(), final(runner).trace()),
{
    let ghost start = runner.trace();
    assert(start.take(start.len() as int) =~= start);
    proof {
        lemma_reads_none(start);
    }
    let mut i: usize = 0;
    while i < 5
        invariant
            grows(*old(runner), *runner),
            i <= 5,
            start == old(runner).trace(),
            reads_only(start, runner.trace()),
            nothing_found(start, runner.trace()),
            forall|k: int| 0 <= k < i ==> asked_git_path(start, runner.trace(), #[trigger] operation_markers()[k]),
        decreases 5 - i,
    {
        let ghost before = runner.trace();
        let name = marker(i);
        let path = match git_path(runner, name) {
            Ok(p) => p,
            Err(e) => {
                proof {
                    lemma_reads_chain(start, before, runner.trace());
                }
                return Err(e);
            },
        };
        let ghost mid = runner.trace();
        let found = runner.path_exists(path.as_str());
        proof {
            lemma_reads_chain(start, before, mid);
            lemma_reads_chain(start, mid, runner.trace());
            let after = runner.trace();
            assert(after.take(before.len() as int) =~= before);
            assert(after.take(start.len() as int) =~= start);
            assert forall|k: int| 0 <= k < i implies asked_git_path(start, after, #[trigger] operation_markers()[k]) by {
                lemma_asked_kept(start, before, after, operation_markers()[k]);
            }
            assert(after[before.len() as int] == Effect::Run {
                args: seq!["rev-parse"@, "--git-path"@, name@],
                writes: false,
            });
            assert(asked_git_path(start, after, operation_markers()[i as int]));
        }
        if found {
            return Err(SwitchError::InvalidState(concat("Git operation is in progress: ", name)));
        }
        i = i + 1;
    }
    Ok(())
}

/// Where Git keeps `name`: `git rev-parse --git-path`, made absolute against the repository.
fn git_path<R: GitRunner>(runner: &mut Host<R>, name: &str) -> (r: Result<String, SwitchError>)
    ensures
        r matches Err(e) ==> !(e is MissingSavedWork),
        grows(*old(runner), *final(runner)),
        r matches Err(e) ==> !(e is StalePlan),
        r matches Err(e) ==> e is Git || (e matches SwitchError::InvalidState(m) && m@
            == "Git output is not UTF-8"@),
        r is Ok ==> final(runner).trace() == old(runner).trace().push(
            Effect::Run { args: seq!["rev-parse"@, "--git-path"@, name@], writes: false },
        ).push(Effect::Setting),
        r is Err ==> final(runner).trace() == old(runner).trace().push(
            Effect::Run { args: seq!["rev-parse"@, "--git-path"@, name@], writes: false },
        ),
        reads_only(old(runner).trace(), final(runner).trace()),
{
    let ghost start = runner.trace();
    let args = command_args(&["rev-parse", "--git-path", name]);
    assert(args.deep_view() =~= seq!["rev-parse"@, "--git-path"@, name@]);
    let output = match runner.run(&GitCommand::read(args)) {
        Ok(o) => o,
        Err(e) => return Err(SwitchError::Git(e)),
    };
    let value = match text(output.stdout.as_slice()) {
        Ok(t) => t,
        Err(e) => return Err(e),
    };
    let ghost mid = runner.trace();
    let root = runner.repo_path();
    proof {
        lemma_reads_chain(start, mid, runner.trace());
    }
    Ok(absolute_path(root.as_str(), trim(value.as_str()).as_str()))
}

/// Checks `branch` itself, then asks `git check-ref-format --branch`.
pub(crate) fn validate_branch_name<R: GitRunner>(runner: &mut Host<R>, branch: &str) -> (r: Result<(), SwitchError>)
    ensures
        reads_only(old(runner).trace(), final(runner).trace()),
        r matches Err(e) ==> !(e is MissingSavedWork),
        grows(*old(runner), *final(runner)),
        plainly_invalid_branch(branch@) ==> final(runner).trace() == old(runner).trace(),
        r matches Err(e) ==> !(e is StalePlan),
        plainly_invalid_branch(branch@) ==> (r matches Err(SwitchError::InvalidState(m)) && m@
            == "invalid branch name: "@ + branch@),
{
    proof {
        lemma_reads_none(runner.trace());
    }
    proof {
        reveal_strlit("-");
    }
    if branch.is_empty() || starts_with(branch, "-") || contains_char(branch, '\0') {
        return Err(SwitchError::InvalidState(concat("invalid branch name: ", branch)));
    }
    proof {
        if branch@[0] == '-' {
            assert(branch@.take(1) =~= "-"@);
        }
    }
    let mut values = command_args(&["check-ref-format", "--branch"]);
    push_arg(&mut values, branch);
    match runner.run(&GitCommand::read(values)) {
        Ok(_) => Ok(()),
        Err(e) => Err(SwitchError::Git(e)),
    }
}

/// `refs/heads/<branch>`.
pub fn branch_ref(branch: &str) -> (r: String)
    ensures
        r@ == "refs/heads/"@ + branch@,
{
    concat("refs/heads/", branch)
}

/// The Saved work ref of `branch`.
pub fn wip_ref(branch: &str) -> (r: String)
    ensures
        r@ == wip_prefix() + branch@,
{
    concat("refs/githelper/wip/", branch)
}

/// Where a carry waits while a pull decision is pending.
pub fn carry_ref(operation_id: &str) -> (r: String)
    ensures
        r@ == "refs/githelper/carry/"@ + operation_id@,
{
    concat("refs/githelper/carry/", operation_id)
}

/// Where overlapping untracked files wait across a switch.
pub fn untracked_merge_ref(operation_id: &str) -> (r: String)
    ensures
        r@ == "refs/githelper/untracked-merge/"@ + operation_id@,
{
    concat("refs/githelper/untracked-merge/", operation_id)
}

/// The full remote-tracking ref a short or full name stands for.
pub open spec fn remote_tracking_spec(remote: Seq<char>) -> Option<Seq<char>> {
    if starts_with_spec(remote, "refs/remotes/"@) {
        Some(remote)
    } else if remote.len() == 0 || remote[0] == '-' || !contains_char_spec(remote, '/') {
        None
    } else {
        Some("refs/remotes/"@ + remote)
    }
}

/// Accepts `origin/feature` or `refs/remotes/origin/feature`.
pub fn remote_tracking_ref(remote: &str) -> (r: Result<String, SwitchError>)
    ensures
        r matches Ok(s) ==> remote_tracking_spec(remote@) == Some(s@),
        r is Err ==> remote_tracking_spec(remote@) is None && (r matches Err(
            SwitchError::InvalidState(m),
        ) && m@ == "invalid remote-tracking name: "@ + remote@),
{
    if starts_with(remote, "refs/remotes/") {
        return Ok(String::from_str(remote));
    }
    proof {
        reveal_strlit("-");
    }
    if remote.is_empty() || starts_with(remote, "-") || !contains_char(remote, '/') {
        proof {
            if remote@.len() > 0 && starts_with_spec(remote@, "-"@) {
                assert(remote@.take(1)[0] == remote@[0]);
            }
        }
        return Err(SwitchError::InvalidState(concat("invalid remote-tracking name: ", remote)));
    }
    proof {
        if remote@[0] == '-' {
            assert(remote@.take(1) =~= "-"@);
        }
    }
    Ok(concat("refs/remotes/", remote))
}

/// Scanning the lines of `git for-each-ref refs/remotes` from the front: the
/// first ref that ends in `suffix` and is not a `HEAD`. The flag is false when a
/// line before it is not UTF-8.
pub open spec fn remote_pick(lines: Seq<Seq<u8>>, suffix: Seq<char>) -> (bool, Option<Seq<char>>)
    decreases lines.len(),
{
    if lines.len() == 0 {
        (true, None)
    } else if lines[0].len() == 0 {
        remote_pick(lines.drop_first(), suffix)
    } else if !vstd::utf8::valid_utf8(lines[0]) {
        (false, None)
    } else {
        let reference = vstd::utf8::decode_utf8(lines[0]);
        if ends_with_spec(reference, "/HEAD"@) {
            remote_pick(lines.drop_first(), suffix)
        } else if ends_with_spec(reference, suffix) {
            (true, Some(reference))
        } else {
            remote_pick(lines.drop_first(), suffix)
        }
    }
}

/// The first remote-tracking ref named `*/<branch>` in `listing`.
pub fn pick_remote(listing: &[u8], branch: &str) -> (r: Result<Option<String>, SwitchError>)
    ensures
        r matches Err(e) ==> !(e is MissingSavedWork),
        r matches Err(e) ==> !(e is StalePlan),
        ({
            let (ok, found) = remote_pick(split_spec(listing@, 10), seq!['/'] + branch@);
            &&& r is Ok <==> ok
            &&& r matches Ok(v) ==> (v matches Some(s) ==> found == Some(s@)) && (v is None
                ==> found is None)
        }),
{
    let suffix = concat("/", branch);
    proof {
        reveal_strlit("/");
        reveal_strlit("/HEAD");
    }
    let lines = split_bytes(listing, 10);
    let ghost all = views(lines@);
    let mut i: usize = 0;
    assert(all.skip(0) == all);
    while i < lines.len()
        invariant
            i <= lines@.len(),
            all == views(lines@),
            all == split_spec(listing@, 10),
            suffix@ == seq!['/'] + branch@,
            remote_pick(all, suffix@) == remote_pick(all.skip(i as int), suffix@),
        decreases lines@.len() - i,
    {
        let ghost rest = all.skip(i as int);
        assert(rest[0] == lines@[i as int]@);
        assert(rest.drop_first() == all.skip(i + 1));
        let line = &lines[i];
        if line.len() > 0 {
            let reference = match text(line.as_slice()) {
                Ok(t) => t,
                Err(e) => return Err(e),
            };
            if !ends_with(reference.as_str(), "/HEAD") && ends_with(
                reference.as_str(),
                suffix.as_str(),
            ) {
                return Ok(Some(reference));
            }
        }
        i = i + 1;
    }
    Ok(None)
}

proof fn lemma_picked_ends_with(lines: Seq<Seq<u8>>, suffix: Seq<char>)
    ensures
        remote_pick(lines, suffix).1 matches Some(s) ==> ends_with_spec(s, suffix),
    decreases lines.len(),
{
    if lines.len() > 0 {
        lemma_picked_ends_with(lines.drop_first(), suffix);
    }
}

/// Prefer `origin/<branch>`, otherwise the first `refs/remotes/*/<branch>`.
pub(crate) fn same_named_remote<R: GitRunner>(runner: &mut Host<R>, branch: &str) -> (r: Result<
    Option<String>,
    SwitchError,
>)
    ensures
        r matches Err(e) ==> !(e is MissingSavedWork),
        grows(*old(runner), *final(runner)),
        r matches Err(e) ==> !(e is StalePlan),
        r matches Ok(Some(s)) ==> ends_with_spec(s@, seq!['/'] + branch@),
        old(runner).trace().len() < final(runner).trace().len(),
        final(runner).trace()[old(runner).trace().len() as int] == resolve_effect(
            "refs/remotes/origin/"@ + branch@,
        ),
        (final(runner).reply(old(runner).trace().len() as int) matches Some(o) && vstd::utf8::valid_utf8(o)
            && crate::rewrite::model::valid_object_id(trim_spec(vstd::utf8::decode_utf8(o)))) ==> (r matches Ok(
            Some(s),
        ) && s@ == "refs/remotes/origin/"@ + branch@),
        final(runner).reply(old(runner).trace().len() as int) is None ==> final(runner).trace() == old(runner).trace().push(
            resolve_effect("refs/remotes/origin/"@ + branch@),
        ).push(remotes_effect()),
        final(runner).reply(old(runner).trace().len() as int) is None ==> (final(runner).reply(
            old(runner).trace().len() + 1int,
        ) matches Some(listing) ==> (remote_pick(split_spec(listing, 10), seq!['/'] + branch@).0 <==> r is Ok)
            && (r matches Ok(v) ==> opt_text_view(v) == remote_pick(split_spec(listing, 10), seq!['/'] + branch@).1)),
{
    let preferred = concat("refs/remotes/origin/", branch);
    proof {
        reveal_strlit("refs/remotes/origin/");
        let tail = seq!['/'] + branch@;
        assert(preferred@.skip(preferred@.len() - tail.len()) =~= tail);
    }
    match optional_id(runner, preferred.as_str()) {
        Ok(Some(_)) => return Ok(Some(preferred)),
        Ok(None) => {},
        Err(e) => return Err(e),
    }
    let args = command_args(&["for-each-ref", "--format=%(refname)", "refs/remotes"]);
    assert(args.deep_view() =~= seq!["for-each-ref"@, "--format=%(refname)"@, "refs/remotes"@]);
    let output = match runner.run(&GitCommand::read(args)) {
        Ok(o) => o,
        Err(e) => return Err(SwitchError::Git(e)),
    };
    proof {
        lemma_picked_ends_with(split_spec(output.stdout@, 10), seq!['/'] + branch@);
    }
    pick_remote(output.stdout.as_slice(), branch)
}

/// `update-ref <reference> <new> <old>`: Git refuses unless the ref still holds
/// `old` (an empty `old` means the ref must not exist yet).
pub fn update_ref_args(reference: &str, new: &ObjectId, old: &str) -> (r: Vec<String>)
    ensures
        r.deep_view() == seq!["update-ref"@, reference@, new@, old@],
{
    let mut values = command_args(&["update-ref"]);
    push_arg(&mut values, reference);
    push_arg(&mut values, new.as_str());
    push_arg(&mut values, old);
    assert(values.deep_view() =~= seq!["update-ref"@, reference@, new@, old@]);
    values
}

pub(crate) fn update_ref<R: GitRunner>(runner: &mut Host<R>, reference: &str, new: &ObjectId, previous: &str) -> (r: Result<
    (),
    SwitchError,
>)
    ensures
        r matches Err(e) ==> !(e is MissingSavedWork),
        grows(*old(runner), *final(runner)),
        r matches Err(e) ==> !(e is StalePlan),
        r matches Err(e) ==> e is Git,
{
    match runner.run_unlocked(&GitCommand::write(update_ref_args(reference, new, previous))) {
        Ok(_) => Ok(()),
        Err(e) => Err(SwitchError::Git(e)),
    }
}

/// The bytes as text, refused unless they are UTF-8.
pub fn text(bytes: &[u8]) -> (r: Result<String, SwitchError>)
    ensures
        r is Ok <==> vstd::utf8::valid_utf8(bytes@),
        r matches Ok(s) ==> s@ == vstd::utf8::decode_utf8(bytes@),
        r matches Err(e) ==> (e matches SwitchError::InvalidState(m) && m@
            == "Git output is not UTF-8"@),
{
    assert(bytes@.subrange(0, bytes@.len() as int) == bytes@);
    match crate::text::utf8_text(crate::text::bytes_of(bytes, 0, bytes.len())) {
        Some(s) => Ok(s),
        None => Err(SwitchError::InvalidState(String::from_str("Git output is not UTF-8"))),
    }
}

} // verus!

verus! {

/// A full remote-tracking name stands for itself.
pub proof fn law_remote_tracking_idempotent(remote: Seq<char>, full: Seq<char>)
    requires
        remote_tracking_spec(remote) == Some(full),
    ensures
        remote_tracking_spec(full) == Some(full),
{
    reveal_strlit("refs/remotes/");
    if !starts_with_spec(remote, "refs/remotes/"@) {
        assert(("refs/remotes/"@ + remote).take("refs/remotes/"@.len() as int) =~= "refs/remotes/"@);
    }
}

} // verus!

verus! {

/// Each branch has its own Saved work ref: two branches never share one.
pub proof fn law_wip_refs_distinct(a: Seq<char>, b: Seq<char>)
    requires
        wip_prefix() + a == wip_prefix() + b,
    ensures
        a == b,
{
    assert(a =~= (wip_prefix() + a).skip(wip_prefix().len() as int));
    assert(b =~= (wip_prefix() + b).skip(wip_prefix().len() as int));
}

} // verus!
