//! Planning a revert of selected paths to `HEAD` or to Base.
use vstd::prelude::*;

use crate::host::grows;

use crate::host::{
    asked_git_path, lemma_asked_kept, lemma_reads_chain, lemma_reads_none, nothing_found, reads_only, Effect, Host,
};

use crate::git::{command_args, GitCommand, GitRunner};
use crate::rewrite::preflight::{absolute_path, marker, operation_markers};
use crate::rewrite::{ObjectId, RepoPath};
use crate::text::{concat, join, join_spec, trim};

use super::errors::RevertError;
use super::model::{RevertPlan, RevertRequest, RevertTarget};
use super::paths::{literal, revertible_paths};

verus! {

broadcast use crate::host::lemma_grows_chain, crate::host::lemma_grows_none, crate::host::lemma_grows_trace,
    crate::host::lemma_grows_reply;

/// Whether `path` is among the eligible entries.
fn eligible(entries: &Vec<crate::inspection::ChangedPath>, path: &RepoPath) -> (r: bool)
    ensures
        r == is_eligible(entries@, path@),
{
    let mut i: usize = 0;
    while i < entries.len()
        invariant
            i <= entries@.len(),
            forall|j: int| 0 <= j < i ==> #[trigger] entries@[j].path@ != path@,
        decreases entries@.len() - i,
    {
        if entries[i].path.same(path) {
            return true;
        }
        i = i + 1;
    }
    false
}

/// The first selected path that is not eligible, if any.
pub open spec fn is_eligible(entries: Seq<crate::inspection::ChangedPath>, p: Seq<char>) -> bool {
    exists|i: int| 0 <= i < entries.len() && #[trigger] entries[i].path@ == p
}

fn first_ineligible(entries: &Vec<crate::inspection::ChangedPath>, paths: &Vec<RepoPath>) -> (r:
    Option<usize>)
    ensures
        r is None ==> forall|k: int| 0 <= k < paths@.len() ==> is_eligible(entries@, #[trigger] paths@[k]@),
        r matches Some(k) ==> k < paths@.len() && !is_eligible(entries@, paths@[k as int]@),
{
    let mut k: usize = 0;
    while k < paths.len()
        invariant
            k <= paths@.len(),
            forall|j: int| 0 <= j < k ==> is_eligible(entries@, #[trigger] paths@[j]@),
        decreases paths@.len() - k,
    {
        if !eligible(entries, &paths[k]) {
            return Some(k);
        }
        k = k + 1;
    }
    None
}

pub(crate) fn create<R: GitRunner>(runner: &mut Host<R>, request: RevertRequest) -> (r: Result<
    RevertPlan,
    RevertError,
>)
    ensures
        r matches Ok(plan) ==> revert_plan_held(*final(runner), old(runner).trace().len() as int, plan),
        grows(*old(runner), *final(runner)),
        request.paths@.len() == 0 ==> final(runner).trace() == old(runner).trace(),
        r matches Err(e) ==> !(e is StalePlan),
        request.paths@.len() == 0 ==> (r matches Err(RevertError::InvalidState(m)) && m@
            == "select at least one path to revert"@),
        r matches Ok(plan) ==> {
            &&& plan.paths.deep_view() == request.paths.deep_view()
            &&& plan.target == request.target
            &&& plan.base_ref@ == request.base@
            &&& plan.source@ == source_spec(request.target, request.base@)
            &&& plan.commands.deep_view() == seq![
                restore_command_spec(plan.source@, request.paths.deep_view()),
            ]
        },
{
    if request.paths.len() == 0 {
        return Err(
            RevertError::InvalidState(String::from_str("select at least one path to revert")),
        );
    }
    match ensure_no_operation(runner) {
        Ok(()) => {},
        Err(e) => return Err(e),
    }
    let ghost kh = runner.trace().len() as int;
    let source_head = match read_id(runner, "HEAD") {
        Ok(id) => id,
        Err(e) => return Err(e),
    };
    let ghost hh = *runner;
    let ghost t = runner.trace();
    let entries = match revertible_paths(runner, &request.base) {
        Ok(v) => v,
        Err(e) => return Err(e),
    };
    if let Some(k) = first_ineligible(&entries, &request.paths) {
        return Err(
            RevertError::InvalidState(
                concat(
                    "path is not locally dirty and does not differ from Base: ",
                    request.paths[k].as_str(),
                ),
            ),
        );
    }
    let source = source_for(&request);
    let mut commands: Vec<String> = Vec::new();
    commands.push(restore_command(source.as_str(), &request.paths));
    assert(commands.deep_view() =~= seq![
        restore_command_spec(source@, request.paths.deep_view()),
    ]);
    let plan = RevertPlan {
        paths: request.paths,
        target: request.target,
        source,
        base_ref: request.base,
        commands,
        source_head,
    };
    proof {
        reveal_strlit("HEAD");
        assert(runner.trace()[kh] == hh.trace()[kh] && runner.reply(kh) == hh.reply(kh));
        assert(runner.trace()[kh] == crate::switch::state::resolve_effect("HEAD"@));
        let k = t.len() as int;
        let c = runner.reply(k)->Some_0;
        let d = runner.reply(k + 1)->Some_0;
        let committed = crate::inspection::changed_from(c)->Some_0;
        let local = crate::revert::paths::dirty_read(d)->Some_0;
        assert forall|i: int| 0 <= i < plan.paths@.len() implies crate::revert::paths::entries_map(committed + local).dom().contains(
            #[trigger] plan.paths@[i]@,
        ) by {
            let p = plan.paths@[i]@;
            assert(is_eligible(entries@, p));
            let j = choose|j: int| 0 <= j < entries@.len() && #[trigger] entries@[j].path@ == p;
            assert(crate::revert::paths::keyed(entries@)[j].0 == p);
            crate::map::lemma_map_of_dom(crate::revert::paths::keyed(entries@), p);
        }
        assert(runner.trace()[k] == crate::inspection::changed_paths_effect(plan.base_ref@));
    }
    Ok(plan)
}

/// The verdict on a revert plan, given `HEAD` and the revertible paths read
/// now: it holds where `HEAD` has not moved and every path of the plan is
/// still among them.
pub fn check_current(head: &ObjectId, entries: &Vec<crate::inspection::ChangedPath>, plan: &RevertPlan) -> (r:
    Result<(), RevertError>)
    ensures
        r is Ok <==> head@ == plan.source_head@ && forall|k: int|
            0 <= k < plan.paths@.len() ==> is_eligible(entries@, #[trigger] plan.paths@[k]@),
        r matches Err(e) ==> e is StalePlan,
{
    if !head.same(&plan.source_head) {
        return Err(RevertError::StalePlan);
    }
    match first_ineligible(entries, &plan.paths) {
        Some(_) => Err(RevertError::StalePlan),
        None => Ok(()),
    }
}

/// From index `from` on, Git printed `HEAD` as the plan's source head, and the
/// diff against Base and the local status, read together, list every path of
/// the plan.
pub open spec fn revert_plan_held<R: GitRunner>(h: Host<R>, from: int, plan: RevertPlan) -> bool {
    &&& exists|k: int|
        0 <= from <= k < h.trace().len() && #[trigger] h.trace()[k] == crate::switch::state::resolve_effect("HEAD"@)
            && (h.reply(k) matches Some(o) && crate::switch::state::id_read(o, plan.source_head@))
    &&& exists|k: int|
        0 <= from <= k && k + 1 < h.trace().len() && #[trigger] h.trace()[k] == crate::inspection::changed_paths_effect(
            plan.base_ref@,
        ) && h.trace()[k + 1] == crate::revert::paths::dirty_effect() && (h.reply(k) matches Some(c) && h.reply(k + 1) matches Some(d)
            && crate::inspection::changed_from(c) matches Some(committed) && crate::revert::paths::dirty_read(d) matches Some(local)
            && forall|i: int|
            0 <= i < plan.paths@.len() ==> crate::revert::paths::entries_map(committed + local).dom().contains(
                #[trigger] plan.paths@[i]@,
            ))
}

/// What was read stays read as the host grows, and from any earlier index.
pub proof fn lemma_revert_held_grows<R: GitRunner>(h: Host<R>, h2: Host<R>, from: int, later: int, plan: RevertPlan)
    requires
        revert_plan_held(h, later, plan),
        grows(h, h2),
        0 <= from <= later,
    ensures
        revert_plan_held(h2, from, plan),
{
    let k1 = choose|k: int|
        0 <= later <= k < h.trace().len() && #[trigger] h.trace()[k] == crate::switch::state::resolve_effect("HEAD"@)
            && (h.reply(k) matches Some(o) && crate::switch::state::id_read(o, plan.source_head@));
    assert(h2.trace()[k1] == h.trace()[k1] && h2.reply(k1) == h.reply(k1));
    let k2 = choose|k: int|
        0 <= later <= k && k + 1 < h.trace().len() && #[trigger] h.trace()[k] == crate::inspection::changed_paths_effect(
            plan.base_ref@,
        ) && h.trace()[k + 1] == crate::revert::paths::dirty_effect() && (h.reply(k) matches Some(c) && h.reply(k + 1) matches Some(d)
            && crate::inspection::changed_from(c) matches Some(committed) && crate::revert::paths::dirty_read(d) matches Some(local)
            && forall|i: int|
            0 <= i < plan.paths@.len() ==> crate::revert::paths::entries_map(committed + local).dom().contains(
                #[trigger] plan.paths@[i]@,
            ));
    assert(h2.trace()[k2] == h.trace()[k2] && h2.reply(k2) == h.reply(k2));
    assert(h2.trace()[k2 + 1] == h.trace()[k2 + 1] && h2.reply(k2 + 1) == h.reply(k2 + 1));
}

/// The plan still holds: same `HEAD`, no Git operation under way, and every
/// path still eligible.
pub(crate) fn verify_current<R: GitRunner>(runner: &mut Host<R>, plan: &RevertPlan) -> (r: Result<(), RevertError>)
    ensures
        r is Ok ==> revert_plan_held(*final(runner), old(runner).trace().len() as int, *plan),
        grows(*old(runner), *final(runner)),
        r matches Err(e) ==> e is StalePlan || e is Git || e is InvalidState,
        reads_only(old(runner).trace(), final(runner).trace()),
{
    let ghost start = runner.trace();
    let head = match read_id(runner, "HEAD") {
        Ok(id) => id,
        Err(e) => return Err(e),
    };
    if !head.same(&plan.source_head) {
        return Err(RevertError::StalePlan);
    }
    let ghost t = runner.trace();
    let got = ensure_no_operation(runner);
    proof {
        lemma_reads_chain(start, t, runner.trace());
    }
    match got {
        Ok(()) => {},
        Err(e) => return Err(e),
    }
    let ghost t = runner.trace();
    let got = revertible_paths(runner, &plan.base_ref);
    proof {
        lemma_reads_chain(start, t, runner.trace());
    }
    let entries = match got {
        Ok(v) => v,
        Err(e) => return Err(e),
    };
    let verdict = check_current(&head, &entries, plan);
    proof {
        reveal_strlit("HEAD");
        if verdict is Ok {
            let k0 = start.len() as int;
            assert(runner.trace()[k0] == crate::switch::state::resolve_effect("HEAD"@));
            let k = t.len() as int;
            assert(runner.trace()[k] == crate::inspection::changed_paths_effect(plan.base_ref@));
            let c = runner.reply(k)->Some_0;
            let d = runner.reply(k + 1)->Some_0;
            let committed = crate::inspection::changed_from(c)->Some_0;
            let local = crate::revert::paths::dirty_read(d)->Some_0;
            assert forall|i: int| 0 <= i < plan.paths@.len() implies crate::revert::paths::entries_map(committed + local).dom().contains(
                #[trigger] plan.paths@[i]@,
            ) by {
                let p = plan.paths@[i]@;
                assert(is_eligible(entries@, p));
                let j = choose|j: int| 0 <= j < entries@.len() && #[trigger] entries@[j].path@ == p;
                assert(crate::revert::paths::keyed(entries@)[j].0 == p);
                crate::map::lemma_map_of_dom(crate::revert::paths::keyed(entries@), p);
            }
        }
    }
    verdict
}

pub open spec fn source_spec(target: RevertTarget, base: Seq<char>) -> Seq<char> {
    match target {
        RevertTarget::Head => "HEAD"@,
        RevertTarget::Base => base,
    }
}

fn source_for(request: &RevertRequest) -> (r: String)
    ensures
        r@ == source_spec(request.target, request.base@),
{
    match request.target {
        RevertTarget::Head => String::from_str("HEAD"),
        RevertTarget::Base => String::from_str(request.base.as_str()),
    }
}

/// `:(top,literal)<path>` for each path.
pub open spec fn literals(paths: Seq<Seq<char>>) -> Seq<Seq<char>> {
    Seq::new(paths.len(), |i: int| ":(top,literal)"@ + paths[i])
}

/// The command a revert shows for review.
pub open spec fn restore_command_spec(source: Seq<char>, paths: Seq<Seq<char>>) -> Seq<char> {
    join_spec(
        seq![
            "git"@,
            "-c"@,
            "submodule.recurse=false"@,
            "restore"@,
            "--source="@ + source,
            "--staged"@,
            "--worktree"@,
            "--"@,
        ] + literals(paths),
        " "@,
    )
}

pub fn literal_paths(paths: &Vec<RepoPath>) -> (r: Vec<String>)
    ensures
        r.deep_view() == literals(paths.deep_view()),
{
    let mut r: Vec<String> = Vec::new();
    let mut i: usize = 0;
    while i < paths.len()
        invariant
            i <= paths@.len(),
            r.deep_view() == literals(paths.deep_view().take(i as int)),
        decreases paths@.len() - i,
    {
        let ghost before = r.deep_view();
        let item = literal(paths[i].as_str());
        r.push(item);
        assert(r.deep_view() =~= before.push(item@));
        assert(r.deep_view() =~= literals(paths.deep_view().take(i + 1)));
        i = i + 1;
    }
    assert(paths.deep_view().take(paths@.len() as int) == paths.deep_view());
    r
}

fn restore_command(source: &str, paths: &Vec<RepoPath>) -> (r: String)
    ensures
        r@ == restore_command_spec(source@, paths.deep_view()),
{
    let mut parts = command_args(
        &["git", "-c", "submodule.recurse=false", "restore"],
    );
    assert(parts.deep_view() =~= seq!["git"@, "-c"@, "submodule.recurse=false"@, "restore"@]);
    let flag = concat("--source=", source);
    crate::git::push_arg(&mut parts, flag.as_str());
    let rest = command_args(&["--staged", "--worktree", "--"]);
    assert(rest.deep_view() =~= seq!["--staged"@, "--worktree"@, "--"@]);
    crate::git::extend_args(&mut parts, &rest);
    let lits = literal_paths(paths);
    let ghost l = lits.deep_view();
    crate::git::extend_args(&mut parts, &lits);
    assert(parts.deep_view() =~= seq![
        "git"@,
        "-c"@,
        "submodule.recurse=false"@,
        "restore"@,
        "--source="@ + source@,
        "--staged"@,
        "--worktree"@,
        "--"@,
    ] + l);
    join(&parts, " ")
}

fn read_id<R: GitRunner>(runner: &mut Host<R>, name: &str) -> (r: Result<ObjectId, RevertError>)
    ensures
        grows(*old(runner), *final(runner)),
        reads_only(old(runner).trace(), final(runner).trace()),
        r matches Err(e) ==> !(e is StalePlan),
        r matches Ok(id) ==> crate::rewrite::model::valid_object_id(id@),
        r matches Err(e) ==> e is Git || e is InvalidState,
        final(runner).trace() == old(runner).trace().push(crate::switch::state::resolve_effect(name@)),
        r matches Ok(id) ==> (final(runner).reply(old(runner).trace().len() as int) matches Some(out) && crate::switch::state::id_read(out, id@)),
{
    let spec = concat(name, "^{commit}");
    let args = command_args(&["rev-parse", "--verify", spec.as_str()]);
    assert(args.deep_view() =~= seq!["rev-parse"@, "--verify"@, name@ + "^{commit}"@]);
    let output = match runner.run(&GitCommand::read(args)) {
        Ok(o) => o,
        Err(e) => return Err(RevertError::Git(e)),
    };
    let value = match text(output.stdout.as_slice()) {
        Ok(t) => t,
        Err(e) => return Err(e),
    };
    match ObjectId::new(trim(value.as_str())) {
        Ok(id) => Ok(id),
        Err(message) => Err(RevertError::InvalidState(message)),
    }
}

/// Refuses to start while a merge, cherry-pick, bisect or rebase is under way:
/// Git is asked where it keeps each marker, and the start is refused as soon
/// as one of them exists.
pub(crate) fn ensure_no_operation<R: GitRunner>(runner: &mut Host<R>) -> (r: Result<(), RevertError>)
    ensures
        grows(*old(runner), *final(runner)),
        r matches Err(e) ==> !(e is StalePlan),
        r matches Err(e) ==> e is Git || e is InvalidState,
        r is Ok ==> nothing_found(old(runner).trace(), final(runner).trace()),
        r is Ok ==> forall|i: int|
            0 <= i < 5 ==> asked_git_path(
                old(runner).trace(),
                final(runner).trace(),
                #[trigger] operation_markers()[i],
            ),
        r matches Err(RevertError::InvalidState(m)) ==> m@ == "Git output is not UTF-8"@ || (
        final(runner).trace().last() matches Effect::Exists { found: true, .. } && exists|i: int|
            0 <= i < 5 && m@ == "Git operation is in progress: "@ + operation_markers()[i]),
        reads_only(old(runner).trace(), final(runner).trace()),
{
    let ghost start = runner.trace();
    assert(start.take(start.len() as int) =~= start);
    proof {
        lemma_reads_none(start);
    }
    let mut i: usize = 0;
    while i < 5
        invariant
            grows(*old(runner), *runner),
            i <= 5,
            start == old(runner).trace(),
            reads_only(start, runner.trace()),
            nothing_found(start, runner.trace()),
            forall|k: int| 0 <= k < i ==> asked_git_path(start, runner.trace(), #[trigger] operation_markers()[k]),
        decreases 5 - i,
    {
        let ghost before = runner.trace();
        let name = marker(i);
        let path = match git_path(runner, name) {
            Ok(p) => p,
            Err(e) => {
                proof {
                    lemma_reads_chain(start, before, runner.trace());
                }
                return Err(e);
            },
        };
        let ghost mid = runner.trace();
        let found = runner.path_exists(path.as_str());
        proof {
            lemma_reads_chain(start, before, mid);
            lemma_reads_chain(start, mid, runner.trace());
            let after = runner.trace();
            assert(after.take(before.len() as int) =~= before);
            assert(after.take(start.len() as int) =~= start);
            assert forall|k: int| 0 <= k < i implies asked_git_path(start, after, #[trigger] operation_markers()[k]) by {
                lemma_asked_kept(start, before, after, operation_markers()[k]);
            }
            assert(after[before.len() as int] == Effect::Run {
                args: seq!["rev-parse"@, "--git-path"@, name@],
                writes: false,
            });
            assert(asked_git_path(start, after, operation_markers()[i as int]));
        }
        if found {
            return Err(RevertError::InvalidState(concat("Git operation is in progress: ", name)));
        }
        i = i + 1;
    }
    Ok(())
}

/// Where Git keeps `name`: `git rev-parse --git-path`, made absolute against the repository.
fn git_path<R: GitRunner>(runner: &mut Host<R>, name: &str) -> (r: Result<String, RevertError>)
    ensures
        grows(*old(runner), *final(runner)),
        r matches Err(e) ==> !(e is StalePlan),
        r matches Err(e) ==> e is Git || (e matches RevertError::InvalidState(m) && m@
            == "Git output is not UTF-8"@),
        r is Ok ==> final(runner).trace() == old(runner).trace().push(
            Effect::Run { args: seq!["rev-parse"@, "--git-path"@, name@], writes: false },
        ).push(Effect::Setting),
        r is Err ==> final(runner).trace() == old(runner).trace().push(
            Effect::Run { args: seq!["rev-parse"@, "--git-path"@, name@], writes: false },
        ),
        reads_only(old(runner).trace(), final(runner).trace()),
{
    let ghost start = runner.trace();
    let args = command_args(&["rev-parse", "--git-path", name]);
    assert(args.deep_view() =~= seq!["rev-parse"@, "--git-path"@, name@]);
    let output = match runner.run(&GitCommand::read(args)) {
        Ok(o) => o,
        Err(e) => return Err(RevertError::Git(e)),
    };
    let value = match text(output.stdout.as_slice()) {
        Ok(t) => t,
        Err(e) => return Err(e),
    };
    let ghost mid = runner.trace();
    let root = runner.repo_path();
    proof {
        lemma_reads_chain(start, mid, runner.trace());
    }
    Ok(absolute_path(root.as_str(), trim(value.as_str()).as_str()))
}

fn text(bytes: &[u8]) -> (r: Result<String, RevertError>)
    ensures
        r is Ok <==> vstd::utf8::valid_utf8(bytes@),
        r matches Ok(s) ==> s@ == vstd::utf8::decode_utf8(bytes@),
        r matches Err(e) ==> e is InvalidState,
        r matches Err(RevertError::InvalidState(m)) ==> m@ == "Git output is not UTF-8"@,
{
    assert(bytes@.subrange(0, bytes@.len() as int) == bytes@);
    match crate::text::utf8_text(crate::text::bytes_of(bytes, 0, bytes.len())) {
        Some(s) => Ok(s),
        None => Err(RevertError::InvalidState(String::from_str("Git output is not UTF-8"))),
    }
}

} // verus!
