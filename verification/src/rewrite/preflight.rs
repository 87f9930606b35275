//! What a rewrite checks of the repository before it plans anything.
use vstd::prelude::*;

use crate::host::grows;

use crate::host::{asked_git_path, lemma_asked_kept, nothing_found, Effect, Host};

use crate::git::{command_args, join_path, push_arg, GitCommand, GitRunner};
use crate::text::{
    bytes_of, concat, lemma_split_nonempty, split_bytes, split_nonempty, split_spec, starts_with,
    starts_with_spec, trim, utf8_text, views,
};

use super::errors::RewriteError;
use super::model::{ObjectId, RefName};

verus! {

broadcast use crate::host::lemma_grows_chain, crate::host::lemma_grows_none, crate::host::lemma_grows_trace,
    crate::host::lemma_grows_reply;

pub struct RepoState {
    pub branch: RefName,
    pub head: ObjectId,
    pub base: ObjectId,
    /// The Editable range: first-parent commits of `HEAD` not in Base, oldest first.
    pub commits: Vec<ObjectId>,
}

/// The state files Git leaves while a merge, cherry-pick, bisect or rebase is under way.
pub open spec fn operation_markers() -> Seq<Seq<char>> {
    seq!["MERGE_HEAD"@, "CHERRY_PICK_HEAD"@, "BISECT_LOG"@, "rebase-merge"@, "rebase-apply"@]
}

pub fn marker(i: usize) -> (r: &'static str)
    requires
        i < 5,
    ensures
        r@ == operation_markers()[i as int],
{
    if i == 0 {
        "MERGE_HEAD"
    } else if i == 1 {
        "CHERRY_PICK_HEAD"
    } else if i == 2 {
        "BISECT_LOG"
    } else if i == 3 {
        "rebase-merge"
    } else {
        "rebase-apply"
    }
}

pub(crate) fn inspect<R: GitRunner>(runner: &mut Host<R>, base: &RefName) -> (r: Result<RepoState, RewriteError>)
    ensures
        grows(*old(runner), *final(runner)),
        !starts_with_spec(base@, "refs/remotes/"@) ==> final(runner).trace() == old(runner).trace(),
        !starts_with_spec(base@, "refs/remotes/"@) ==> (r matches Err(RewriteError::InvalidState(m))
            && m@ == "Base must be a remote-tracking ref"@),
        r matches Ok(state) ==> state.commits@.len() > 0,
        r matches Ok(state) ==> range_listed(
            *final(runner),
            old(runner).trace().len() as int,
            state.head@,
            state.base@,
            state.commits.deep_view(),
        ),
{
    match ensure_remote_ref(base) {
        Ok(()) => {},
        Err(e) => return Err(e),
    }
    match ensure_no_operation(runner) {
        Ok(()) => {},
        Err(e) => return Err(e),
    }
    let branch = match read_branch(runner) {
        Ok(b) => b,
        Err(e) => return Err(e),
    };
    let head = match read_id(runner, command_args(&["rev-parse", "--verify", "HEAD^{commit}"])) {
        Ok(h) => h,
        Err(e) => return Err(e),
    };
    let mut values = command_args(&["rev-parse", "--verify"]);
    values.push(concat(base.as_str(), "^{commit}"));
    let base_id = match read_id(runner, values) {
        Ok(b) => b,
        Err(e) => return Err(e),
    };
    match ensure_shared_base(runner, &head, &base_id) {
        Ok(()) => {},
        Err(e) => return Err(e),
    }
    let ghost at_range = *runner;
    let commits = match read_range(runner, &head, &base_id) {
        Ok(c) => c,
        Err(e) => return Err(e),
    };
    proof {
        let from = at_range.trace().len() as int;
        let k = choose|k: int|
            0 <= from <= k < runner.trace().len() && #[trigger] runner.trace()[k] == range_effect(head@, base_id@)
                && answer_lists(*runner, k, commits.deep_view());
        assert(old(runner).trace().len() <= from);
        assert(0 <= old(runner).trace().len() <= k < runner.trace().len() && runner.trace()[k] == range_effect(head@, base_id@)
            && answer_lists(*runner, k, commits.deep_view()));
    }
    if commits.len() == 0 {
        return Err(RewriteError::InvalidState(String::from_str("Editable range is empty")));
    }
    Ok(RepoState { branch, head, base: base_id, commits })
}

/// The full id of the commit `commit` names.
pub(crate) fn resolve_commit<R: GitRunner>(runner: &mut Host<R>, commit: &ObjectId) -> (r: Result<
    ObjectId,
    RewriteError,
>)
    ensures
        grows(*old(runner), *final(runner)),
        r matches Ok(id) ==> crate::rewrite::model::valid_object_id(id@),
        final(runner).trace() == old(runner).trace().push(resolve_commit_effect(commit@)),
        r matches Ok(id) ==> (final(runner).reply(old(runner).trace().len() as int) matches Some(out) && id_printed(out, id@)),
{
    let mut values = command_args(&["rev-parse", "--verify"]);
    push_arg(&mut values, concat(commit.as_str(), "^{commit}").as_str());
    assert(values.deep_view() =~= seq!["rev-parse"@, "--verify"@, commit@ + "^{commit}"@]);
    read_id(runner, values)
}

/// The command that resolves `commit` to a full commit id.
pub open spec fn resolve_commit_effect(commit: Seq<char>) -> Effect {
    Effect::Run { args: seq!["rev-parse"@, "--verify"@, commit + "^{commit}"@], writes: false }
}

pub fn ensure_remote_ref(base: &RefName) -> (r: Result<(), RewriteError>)
    ensures
        r is Ok <==> starts_with_spec(base@, "refs/remotes/"@),
        r matches Err(RewriteError::InvalidState(m)) ==> m@ == "Base must be a remote-tracking ref"@,
        r is Err ==> r matches Err(RewriteError::InvalidState(_)),
{
    if starts_with(base.as_str(), "refs/remotes/") {
        return Ok(());
    }
    Err(RewriteError::InvalidState(String::from_str("Base must be a remote-tracking ref")))
}

fn read_branch<R: GitRunner>(runner: &mut Host<R>) -> (r: Result<RefName, RewriteError>)
    ensures
        grows(*old(runner), *final(runner)),
        r matches Ok(b) ==> crate::rewrite::model::valid_name(b@),
{
    let output = match runner.run(
        &GitCommand::read(command_args(&["symbolic-ref", "--quiet", "HEAD"])),
    ) {
        Ok(o) => o,
        Err(_) => return Err(RewriteError::InvalidState(String::from_str("HEAD is detached"))),
    };
    let branch = match text(output.stdout.as_slice()) {
        Ok(t) => t,
        Err(e) => return Err(e),
    };
    match RefName::new(trim(branch.as_str())) {
        Ok(name) => Ok(name),
        Err(message) => Err(RewriteError::InvalidState(message)),
    }
}

/// `id` is the object id on the first line Git printed.
pub open spec fn id_printed(printed: Seq<u8>, id: Seq<char>) -> bool {
    let line = trim_line_spec(first_line_spec(printed));
    vstd::utf8::valid_utf8(line) && id == vstd::utf8::decode_utf8(line)
}

/// The first line of `bytes`, as `split(b'\n').next()` gives it.
pub open spec fn first_line_spec(bytes: Seq<u8>) -> Seq<u8> {
    split_spec(bytes, 10)[0]
}

/// The id on the first line of a command's output.
fn read_id<R: GitRunner>(runner: &mut Host<R>, values: Vec<String>) -> (r: Result<ObjectId, RewriteError>)
    ensures
        grows(*old(runner), *final(runner)),
        r matches Ok(id) ==> crate::rewrite::model::valid_object_id(id@),
        final(runner).trace() == old(runner).trace().push(Effect::Run { args: values.deep_view(), writes: false }),
        r matches Ok(id) ==> (final(runner).reply(old(runner).trace().len() as int) matches Some(out) && id_printed(out, id@)),
{
    let output = match runner.run(&GitCommand::read(values)) {
        Ok(o) => o,
        Err(e) => return Err(RewriteError::Git(e)),
    };
    let lines = split_bytes(output.stdout.as_slice(), 10);
    proof {
        lemma_split_nonempty(output.stdout@, 10);
    }
    let line = trim_line(lines[0].as_slice());
    match ObjectId::from_bytes(line.as_slice()) {
        Ok(id) => Ok(id),
        Err(message) => Err(RewriteError::Parse(message)),
    }
}

fn ensure_shared_base<R: GitRunner>(runner: &mut Host<R>, head: &ObjectId, base: &ObjectId) -> (r: Result<
    (),
    RewriteError,
>)
    ensures
        grows(*old(runner), *final(runner)),
        r matches Err(e) ==> e matches RewriteError::InvalidState(m) && m@
            == "HEAD and Base have no merge base"@,
{
    let mut values = command_args(&["merge-base"]);
    push_arg(&mut values, base.as_str());
    push_arg(&mut values, head.as_str());
    if runner.run(&GitCommand::read(values)).is_ok() {
        return Ok(());
    }
    Err(RewriteError::InvalidState(String::from_str("HEAD and Base have no merge base")))
}

/// `git rev-list --first-parent --reverse <head> --not <base>`.
pub open spec fn range_effect(head: Seq<char>, base: Seq<char>) -> Effect {
    Effect::Run {
        args: seq!["rev-list"@, "--first-parent"@, "--reverse"@, head, "--not"@, base],
        writes: false,
    }
}

/// `ids` are what Git printed, one per non-empty line, trailing blanks removed.
pub open spec fn ids_listed(printed: Seq<u8>, ids: Seq<Seq<char>>) -> bool {
    let lines = crate::text::nonempty_spec(split_spec(printed, 10));
    &&& ids.len() == lines.len()
    &&& forall|i: int| 0 <= i < ids.len() ==> ids[i] == vstd::utf8::decode_utf8(trim_line_spec(#[trigger] lines[i]))
}

/// Git's answer to request `k` of `h` listed `ids`.
pub open spec fn answer_lists<R: GitRunner>(h: Host<R>, k: int, ids: Seq<Seq<char>>) -> bool {
    h.reply(k) matches Some(out) && ids_listed(out, ids)
}

/// From index `from` of `h` on, Git was asked for the first-parent commits of
/// `head` not reachable from `base`, oldest first, and listed `ids`.
pub open spec fn range_listed<R: GitRunner>(
    h: Host<R>,
    from: int,
    head: Seq<char>,
    base: Seq<char>,
    ids: Seq<Seq<char>>,
) -> bool {
    exists|k: int| 0 <= from <= k < h.trace().len() && #[trigger] h.trace()[k] == range_effect(head, base) && answer_lists(h, k, ids)
}

/// A grown host keeps what Git listed.
pub proof fn lemma_range_listed_grows<R: GitRunner>(
    h: Host<R>,
    h2: Host<R>,
    from: int,
    head: Seq<char>,
    base: Seq<char>,
    ids: Seq<Seq<char>>,
)
    requires
        range_listed(h, from, head, base, ids),
        grows(h, h2),
    ensures
        range_listed(h2, from, head, base, ids),
{
    let k = choose|k: int| 0 <= from <= k < h.trace().len() && #[trigger] h.trace()[k] == range_effect(head, base) && answer_lists(h, k, ids);
    assert(h2.trace()[k] == h2.trace().take(h.trace().len() as int)[k]);
    assert(h2.reply(k) == h.reply(k));
    assert(answer_lists(h2, k, ids));
}

/// The Editable range, oldest first: `git rev-list --first-parent --reverse HEAD --not Base`.
fn read_range<R: GitRunner>(runner: &mut Host<R>, head: &ObjectId, base: &ObjectId) -> (r: Result<
    Vec<ObjectId>,
    RewriteError,
>)
    ensures
        grows(*old(runner), *final(runner)),
        r matches Ok(ids) ==> range_listed(
            *final(runner),
            old(runner).trace().len() as int,
            head@,
            base@,
            ids.deep_view(),
        ),
{
    let mut values = command_args(&["rev-list", "--first-parent", "--reverse"]);
    push_arg(&mut values, head.as_str());
    push_arg(&mut values, "--not");
    push_arg(&mut values, base.as_str());
    assert(values.deep_view() =~= seq!["rev-list"@, "--first-parent"@, "--reverse"@, head@, "--not"@, base@]);
    let ghost k = runner.trace().len() as int;
    let output = match runner.run(&GitCommand::read(values)) {
        Ok(o) => o,
        Err(e) => return Err(RewriteError::Git(e)),
    };
    let r = parse_ids(output.stdout.as_slice());
    proof {
        if r is Ok {
            let ids = r->Ok_0;
            assert(runner.trace()[k] == range_effect(head@, base@));
            assert(ids_listed(output.stdout@, ids.deep_view()));
        }
    }
    r
}

/// A line that names a commit once its trailing blanks are removed.
pub open spec fn id_line_ok(line: Seq<u8>) -> bool {
    vstd::utf8::valid_utf8(trim_line_spec(line)) && crate::rewrite::model::valid_object_id(
        vstd::utf8::decode_utf8(trim_line_spec(line)),
    )
}

/// One id per non-empty line, each with trailing blanks removed.
pub fn parse_ids(bytes: &[u8]) -> (r: Result<Vec<ObjectId>, RewriteError>)
    ensures
        r is Ok <==> forall|i: int|
            0 <= i < crate::text::nonempty_spec(split_spec(bytes@, 10)).len() ==> id_line_ok(
                #[trigger] crate::text::nonempty_spec(split_spec(bytes@, 10))[i],
            ),
        r matches Err(e) ==> e is Parse,
        r matches Ok(ids) ==> ids@.len() == crate::text::nonempty_spec(split_spec(bytes@, 10)).len()
            && forall|i: int|
            0 <= i < ids@.len() ==> ids@[i]@ == vstd::utf8::decode_utf8(
                trim_line_spec(#[trigger] crate::text::nonempty_spec(split_spec(bytes@, 10))[i]),
            ),
{
    let lines = split_nonempty(bytes, 10);
    let mut ids: Vec<ObjectId> = Vec::new();
    let mut i: usize = 0;
    while i < lines.len()
        invariant
            i <= lines@.len(),
            ids@.len() == i,
            views(lines@) == crate::text::nonempty_spec(split_spec(bytes@, 10)),
            forall|j: int| 0 <= j < i ==> id_line_ok(#[trigger] views(lines@)[j]),
            forall|j: int|
                0 <= j < i ==> ids@[j]@ == vstd::utf8::decode_utf8(
                    trim_line_spec(#[trigger] views(lines@)[j]),
                ),
        decreases lines@.len() - i,
    {
        assert(views(lines@)[i as int] == lines@[i as int]@);
        let line = trim_line(lines[i].as_slice());
        match ObjectId::from_bytes(line.as_slice()) {
            Ok(id) => ids.push(id),
            Err(message) => return Err(RewriteError::Parse(message)),
        }
        i = i + 1;
    }
    Ok(ids)
}

/// Refuses to start while a merge, cherry-pick, bisect or rebase is under way:
/// Git is asked where it keeps each marker, and the start is refused as soon
/// as one of them exists.
pub(crate) fn ensure_no_operation<R: GitRunner>(runner: &mut Host<R>) -> (r: Result<(), RewriteError>)
    ensures
        grows(*old(runner), *final(runner)),
        r matches Err(e) ==> e is Git || e is Parse || e is InvalidState,
        r is Ok ==> nothing_found(old(runner).trace(), final(runner).trace()),
        r is Ok ==> forall|i: int|
            0 <= i < 5 ==> asked_git_path(
                old(runner).trace(),
                final(runner).trace(),
                #[trigger] operation_markers()[i],
            ),
        r matches Err(RewriteError::InvalidState(m)) ==> final(runner).trace().last() matches Effect::Exists {
            found: true,
            ..
        } && exists|i: int| 0 <= i < 5 && m@ == "Git operation is in progress: "@ + operation_markers()[i],
{
    let ghost start = runner.trace();
    assert(start.take(start.len() as int) =~= start);
    let mut i: usize = 0;
    while i < 5
        invariant
            grows(*old(runner), *runner),
            i <= 5,
            nothing_found(start, runner.trace()),
            forall|k: int| 0 <= k < i ==> asked_git_path(start, runner.trace(), #[trigger] operation_markers()[k]),
        decreases 5 - i,
    {
        let ghost before = runner.trace();
        let name = marker(i);
        let path = match git_path(runner, name) {
            Ok(p) => p,
            Err(e) => return Err(e),
        };
        let found = runner.path_exists(path.as_str());
        proof {
            let after = runner.trace();
            assert(after.take(before.len() as int) =~= before);
            assert(after.take(start.len() as int) =~= start);
            assert forall|k: int| 0 <= k < i implies asked_git_path(start, after, #[trigger] operation_markers()[k]) by {
                lemma_asked_kept(start, before, after, operation_markers()[k]);
            }
            assert(after[before.len() as int] == Effect::Run {
                args: seq!["rev-parse"@, "--git-path"@, name@],
                writes: false,
            });
            assert(asked_git_path(start, after, operation_markers()[i as int]));
        }
        if found {
            return Err(RewriteError::InvalidState(concat("Git operation is in progress: ", name)));
        }
        i = i + 1;
    }
    Ok(())
}

/// Where Git keeps `name`: `git rev-parse --git-path`, made absolute against the repository.
fn git_path<R: GitRunner>(runner: &mut Host<R>, name: &str) -> (r: Result<String, RewriteError>)
    ensures
        grows(*old(runner), *final(runner)),
        r matches Err(e) ==> e is Git || (e matches RewriteError::Parse(m) && m@
            == "Git output is not UTF-8"@),
        r is Ok ==> final(runner).trace() == old(runner).trace().push(
            Effect::Run { args: seq!["rev-parse"@, "--git-path"@, name@], writes: false },
        ).push(Effect::Setting),
        r is Err ==> final(runner).trace() == old(runner).trace().push(
            Effect::Run { args: seq!["rev-parse"@, "--git-path"@, name@], writes: false },
        ),
{
    let args = command_args(&["rev-parse", "--git-path", name]);
    assert(args.deep_view() =~= seq!["rev-parse"@, "--git-path"@, name@]);
    let output = match runner.run(&GitCommand::read(args)) {
        Ok(o) => o,
        Err(e) => return Err(RewriteError::Git(e)),
    };
    let value = match text(output.stdout.as_slice()) {
        Ok(t) => t,
        Err(e) => return Err(e),
    };
    Ok(absolute_path(runner.repo_path().as_str(), trim(value.as_str()).as_str()))
}

/// `path` if it is absolute, else `path` under `root`.
pub fn absolute_path(root: &str, path: &str) -> (r: String)
    ensures
        starts_with_spec(path@, "/"@) ==> r@ == path@,
        !starts_with_spec(path@, "/"@) ==> r@ == root@ + seq!['/'] + path@,
{
    if starts_with(path, "/") {
        return String::from_str(path);
    }
    join_path(root, path)
}

fn text(bytes: &[u8]) -> (r: Result<String, RewriteError>)
    ensures
        r is Ok <==> vstd::utf8::valid_utf8(bytes@),
        r matches Ok(s) ==> s@ == vstd::utf8::decode_utf8(bytes@),
        r matches Err(e) ==> (e matches RewriteError::Parse(m) && m@ == "Git output is not UTF-8"@),
{
    assert(bytes@.subrange(0, bytes@.len() as int) == bytes@);
    match utf8_text(bytes_of(bytes, 0, bytes.len())) {
        Some(s) => Ok(s),
        None => Err(RewriteError::Parse(String::from_str("Git output is not UTF-8"))),
    }
}

/// `s` without trailing spaces, carriage returns and newlines.
pub open spec fn trim_line_spec(s: Seq<u8>) -> Seq<u8>
    decreases s.len(),
{
    if s.len() > 0 && (s.last() == 32 || s.last() == 13 || s.last() == 10) {
        trim_line_spec(s.drop_last())
    } else {
        s
    }
}

pub fn trim_line(bytes: &[u8]) -> (r: Vec<u8>)
    ensures
        r@ == trim_line_spec(bytes@),
{
    let mut end = bytes.len();
    assert(bytes@.take(end as int) == bytes@);
    while end > 0 && (bytes[end - 1] == 32 || bytes[end - 1] == 13 || bytes[end - 1] == 10)
        invariant
            end <= bytes@.len(),
            trim_line_spec(bytes@) == trim_line_spec(bytes@.take(end as int)),
        decreases end,
    {
        assert(bytes@.take(end as int).drop_last() == bytes@.take(end - 1));
        end = end - 1;
    }
    bytes_of(bytes, 0, end)
}

} // verus!
