//! Carrying out a submodule cleanup.
use vstd::prelude::*;

use crate::host::grows;

use crate::host::{reads_only, Effect, Host};

use crate::git::{command_args, join_path, push_arg, GitCommand, GitRunner};
use crate::map::PathMap;
use crate::recording::oplog::{
    began_with, lemma_began_logged, lemma_finish_logged, lemma_logged_kept, logged, logged_finished, timestamp,
    OperationRecord, OperationRecordView, Oplog,
};
use crate::revert::paths::literal;
use crate::rewrite::materialize::{self, names_operation, operation_id, operation_id_spec};
use crate::rewrite::model::clone_paths;

use super::errors::SubmoduleCleanupError;
use super::model::{SubmoduleCleanupPlan, SubmoduleCleanupResult};
use super::plan;

verus! {

broadcast use crate::host::lemma_grows_chain, crate::host::lemma_grows_none, crate::host::lemma_grows_trace,
    crate::host::lemma_grows_reply;

/// Uncommits, then reverts, as the plan says; the log records what ran.
pub(crate) fn apply<R: GitRunner>(runner: &mut Host<R>, plan: &SubmoduleCleanupPlan) -> (r: Result<
    SubmoduleCleanupResult,
    SubmoduleCleanupError,
>)
    ensures
        r is Ok ==> plan::cleanup_plan_held(*final(runner), old(runner).trace().len() as int, *plan),
        r is Ok ==> forall|i: int|
            0 <= i < plan.revert_paths@.len() ==> reverted_submodule(
                *final(runner),
                old(runner).trace().len() as int,
                #[trigger] plan.revert_paths@[i]@,
            ),
        r is Ok ==> (plan.uncommit_plan matches Some(up) ==> exists|new_head: Seq<char>|
            crate::rewrite::materialize::moved_branch(final(runner).trace(), up, new_head)),
        grows(*old(runner), *final(runner)),
        r is Ok ==> exists|id: Seq<char>, started: Seq<char>|
            logged(final(runner).trace(), #[trigger] cleanup_record_view(*plan, id, started))
                && logged_finished(final(runner).trace(), id, Map::<Seq<char>, Seq<char>>::empty()),
        r matches Ok(result) ==> {
            &&& result.paths.deep_view() == plan.paths.deep_view()
            &&& result.uncommitted == (if plan.uncommit_plan is Some {
                plan.uncommit_paths@.len()
            } else {
                0
            })
            &&& result.reverted == plan.revert_paths@.len()
        },
        r matches Err(SubmoduleCleanupError::StalePlan) ==> reads_only(
            old(runner).trace(),
            final(runner).trace(),
        ),
{
    match plan::verify_current(runner, plan) {
        Ok(()) => {},
        Err(e) => return Err(e),
    }
    let ghost verified = *runner;
    let git_dir = match runner.git_dir() {
        Ok(d) => d,
        Err(e) => return Err(SubmoduleCleanupError::Git(e)),
    };
    let oplog = match Oplog::open(runner, git_dir.as_str()) {
        Ok(o) => o,
        Err(e) => return Err(SubmoduleCleanupError::Recording(e.message())),
    };
    let ghost before_begin = *runner;
    let operation_id = match begin_record(runner, &oplog, plan) {
        Ok(id) => id,
        Err(e) => return Err(e),
    };
    let ghost begun = *runner;
    let ghost (started_at, pid_at) = choose|started: Seq<char>, pid: nat|
        operation_id@ == operation_id_spec("submodule-cleanup"@, started, pid) && began_with(
            before_begin.trace(),
            begun.trace(),
            oplog.path@,
            started,
            pid,
            cleanup_record_view(*plan, operation_id@, started),
        );
    let ghost record_begun = cleanup_record_view(*plan, operation_id@, started_at);
    proof {
        lemma_began_logged(before_begin.trace(), begun.trace(), oplog.path@, started_at, pid_at, record_begun);
    }
    let mut uncommitted: usize = 0;
    let ghost mut new_head: Seq<char> = Seq::empty();
    match &plan.uncommit_plan {
        Some(uncommit_plan) => {
            match materialize::apply(runner, uncommit_plan) {
                Ok(res) => {
                    proof {
                        new_head = res.new_head@;
                    }
                },
                Err(e) => return Err(SubmoduleCleanupError::Apply(e)),
            }
            uncommitted = plan.uncommit_paths.len();
        },
        None => {},
    }
    let ghost h1 = *runner;
    let mut reverted: usize = 0;
    if plan.revert_paths.len() > 0 {
        match revert_submodules(runner, plan) {
            Ok(()) => {},
            Err(e) => return Err(e),
        }
        reverted = plan.revert_paths.len();
    }
    let ghost h2 = *runner;
    let after_refs: PathMap<String> = PathMap::new();
    let ghost refs = after_refs.map();
    match oplog.finish(runner, operation_id.as_str(), after_refs) {
        Ok(()) => {},
        Err(e) => return Err(SubmoduleCleanupError::Recording(e.message())),
    }
    proof {
        lemma_finish_logged(h2.trace(), runner.trace(), oplog.path@, operation_id@, refs);
        assert(grows(begun, *runner));
        lemma_logged_kept(begun.trace(), runner.trace(), record_begun, operation_id@, refs);
        plan::lemma_cleanup_held_grows(verified, *runner, old(runner).trace().len() as int, old(runner).trace().len() as int, *plan);
        assert forall|i: int| 0 <= i < plan.revert_paths@.len() implies reverted_submodule(
            *runner,
            old(runner).trace().len() as int,
            #[trigger] plan.revert_paths@[i]@,
        ) by {
            lemma_reverted_grows(h2, *runner, h1.trace().len() as int, plan.revert_paths@[i]@);
            lemma_reverted_from(*runner, old(runner).trace().len() as int, h1.trace().len() as int, plan.revert_paths@[i]@);
        }
        if plan.uncommit_plan is Some {
            let up = plan.uncommit_plan->Some_0;
            assert(runner.trace().take(h1.trace().len() as int) =~= h1.trace());
            crate::rewrite::materialize::lemma_moved_kept(h1.trace(), runner.trace(), up, new_head);
        }
    }
    Ok(SubmoduleCleanupResult { paths: clone_paths(&plan.paths), uncommitted, reverted })
}

/// Each reverted submodule is synced to the gitlink `HEAD` records, or, where
/// `HEAD` records none, its checkout is taken away.
fn revert_submodules<R: GitRunner>(runner: &mut Host<R>, plan: &SubmoduleCleanupPlan) -> (r: Result<
    (),
    SubmoduleCleanupError,
>)
    ensures
        grows(*old(runner), *final(runner)),
        r matches Err(e) ==> !(e is StalePlan),
        plan.revert_paths@.len() == 0 ==> r is Ok,
        r is Ok ==> forall|i: int|
            0 <= i < plan.revert_paths@.len() ==> reverted_submodule(
                *final(runner),
                old(runner).trace().len() as int,
                #[trigger] plan.revert_paths@[i]@,
            ),
{
    let ghost from = runner.trace().len() as int;
    let mut i: usize = 0;
    while i < plan.revert_paths.len()
        invariant
            grows(*old(runner), *runner),
            from == old(runner).trace().len(),
            i <= plan.revert_paths@.len(),
            forall|j: int| 0 <= j < i ==> reverted_submodule(*runner, from, #[trigger] plan.revert_paths@[j]@),
        decreases plan.revert_paths@.len() - i,
    {
        let ghost h0 = *runner;
        let path = plan.revert_paths[i].as_str();
        let ghost k = runner.trace().len() as int;
        let has_gitlink = match head_has_gitlink(runner, path) {
            Ok(b) => b,
            Err(e) => return Err(e),
        };
        let ghost h1 = *runner;
        let step = if has_gitlink {
            sync_gitlink(runner, path)
        } else {
            remove_checkout(runner, path)
        };
        match step {
            Ok(()) => {},
            Err(e) => return Err(e),
        }
        proof {
            assert(runner.trace()[k] == h1.trace()[k]);
            assert(runner.reply(k) == h1.reply(k));
            if has_gitlink {
                assert(runner.trace().subrange(k + 1, k + 5) =~= sync_effects(path@));
            } else {
                assert(runner.trace()[k + 1] == deinit_effect(path@));
            }
            assert(reverted_submodule(*runner, from, path@));
            assert forall|j: int| 0 <= j < i implies reverted_submodule(*runner, from, #[trigger] plan.revert_paths@[j]@) by {
                lemma_reverted_grows(h0, *runner, from, plan.revert_paths@[j]@);
            }
        }
        i = i + 1;
    }
    Ok(())
}

/// `-c submodule.recurse=false restore --source=HEAD --staged --worktree -- :(top,literal)<path>`.
pub fn restore_args(path: &str) -> (r: Vec<String>)
    ensures
        r.deep_view() == seq![
            "-c"@,
            "submodule.recurse=false"@,
            "restore"@,
            "--source=HEAD"@,
            "--staged"@,
            "--worktree"@,
            "--"@,
            ":(top,literal)"@ + path@,
        ],
{
    let mut values = command_args(
        &["-c", "submodule.recurse=false", "restore", "--source=HEAD", "--staged", "--worktree", "--"],
    );
    push_arg(&mut values, literal(path).as_str());
    assert(values.deep_view() =~= seq![
        "-c"@,
        "submodule.recurse=false"@,
        "restore"@,
        "--source=HEAD"@,
        "--staged"@,
        "--worktree"@,
        "--"@,
        ":(top,literal)"@ + path@,
    ]);
    values
}

/// `-c submodule.recurse=false submodule update --force -- <path>`.
pub fn update_args(path: &str) -> (r: Vec<String>)
    ensures
        r.deep_view() == seq![
            "-c"@,
            "submodule.recurse=false"@,
            "submodule"@,
            "update"@,
            "--force"@,
            "--"@,
            path@,
        ],
{
    let mut values = command_args(&["-c", "submodule.recurse=false", "submodule", "update", "--force", "--"]);
    push_arg(&mut values, path);
    assert(values.deep_view() =~= seq![
        "-c"@,
        "submodule.recurse=false"@,
        "submodule"@,
        "update"@,
        "--force"@,
        "--"@,
        path@,
    ]);
    values
}

/// `-C <path>` followed by `rest`.
pub fn in_submodule_args(path: &str, rest: &[&str]) -> (r: Vec<String>)
    ensures
        r.deep_view() == seq!["-C"@, path@] + Seq::new(rest@.len(), |i: int| rest@[i]@),
{
    let mut values = command_args(&["-C"]);
    push_arg(&mut values, path);
    let more = command_args(rest);
    crate::git::extend_args(&mut values, &more);
    assert(values.deep_view() =~= seq!["-C"@, path@] + Seq::new(rest@.len(), |i: int| rest@[i]@));
    values
}

/// The commands that bring the submodule at `path` back to the gitlink `HEAD`
/// records: restore the gitlink, update the checkout, then force its checkout
/// and clean it.
pub open spec fn sync_effects(path: Seq<char>) -> Seq<Effect> {
    seq![
        Effect::Run {
            args: seq![
                "-c"@,
                "submodule.recurse=false"@,
                "restore"@,
                "--source=HEAD"@,
                "--staged"@,
                "--worktree"@,
                "--"@,
                ":(top,literal)"@ + path,
            ],
            writes: true,
        },
        Effect::Run {
            args: seq![
                "-c"@,
                "submodule.recurse=false"@,
                "submodule"@,
                "update"@,
                "--force"@,
                "--"@,
                path,
            ],
            writes: true,
        },
        Effect::Run { args: seq!["-C"@, path, "checkout"@, "--force"@, "HEAD"@], writes: true },
        Effect::Run { args: seq!["-C"@, path, "clean"@, "-fd"@], writes: true },
    ]
}

/// The command that asks whether `HEAD` records a gitlink at `path`.
pub open spec fn gitlink_effect(path: Seq<char>) -> Effect {
    Effect::Run { args: seq!["ls-tree"@, "HEAD"@, "--"@, path], writes: false }
}

/// The command that deinitialises the submodule at `path`.
pub open spec fn deinit_effect(path: Seq<char>) -> Effect {
    Effect::Run {
        args: seq!["-c"@, "submodule.recurse=false"@, "submodule"@, "deinit"@, "-f"@, "--"@, path],
        writes: true,
    }
}

/// From index `from` on, the submodule at `path` was put back: `HEAD` was asked
/// for its gitlink; where it records one, the four sync commands ran right
/// after and each succeeded; where it records none, the submodule was
/// deinitialised.
pub open spec fn reverted_submodule<R: GitRunner>(h: Host<R>, from: int, path: Seq<char>) -> bool {
    exists|k: int|
        0 <= from <= k < h.trace().len() && #[trigger] h.trace()[k] == gitlink_effect(path) && (h.reply(k) matches Some(
            o,
        ) && (o.len() > 0 ==> k + 4 < h.trace().len() && h.trace().subrange(k + 1, k + 5) == sync_effects(path)
            && forall|j: int| k < j < k + 5 ==> #[trigger] h.reply(j) is Some) && (o.len() == 0 ==> exists|k2: int|
            k < k2 < h.trace().len() && #[trigger] h.trace()[k2] == deinit_effect(path)))
}

pub proof fn lemma_reverted_from<R: GitRunner>(h: Host<R>, from: int, later: int, path: Seq<char>)
    requires
        reverted_submodule(h, later, path),
        0 <= from <= later,
    ensures
        reverted_submodule(h, from, path),
{
    let k = choose|k: int|
        0 <= later <= k < h.trace().len() && #[trigger] h.trace()[k] == gitlink_effect(path) && (h.reply(k) matches Some(
            o,
        ) && (o.len() > 0 ==> k + 4 < h.trace().len() && h.trace().subrange(k + 1, k + 5) == sync_effects(path)
            && forall|j: int| k < j < k + 5 ==> #[trigger] h.reply(j) is Some) && (o.len() == 0 ==> exists|k2: int|
            k < k2 < h.trace().len() && #[trigger] h.trace()[k2] == deinit_effect(path)));
    assert(from <= k);
}

pub proof fn lemma_reverted_grows<R: GitRunner>(h: Host<R>, h2: Host<R>, from: int, path: Seq<char>)
    requires
        reverted_submodule(h, from, path),
        grows(h, h2),
    ensures
        reverted_submodule(h2, from, path),
{
    let k = choose|k: int|
        0 <= from <= k < h.trace().len() && #[trigger] h.trace()[k] == gitlink_effect(path) && (h.reply(k) matches Some(
            o,
        ) && (o.len() > 0 ==> k + 4 < h.trace().len() && h.trace().subrange(k + 1, k + 5) == sync_effects(path)
            && forall|j: int| k < j < k + 5 ==> #[trigger] h.reply(j) is Some) && (o.len() == 0 ==> exists|k2: int|
            k < k2 < h.trace().len() && #[trigger] h.trace()[k2] == deinit_effect(path)));
    assert(h2.trace()[k] == h.trace()[k]);
    assert(h2.reply(k) == h.reply(k));
    let o = h.reply(k)->Some_0;
    if o.len() > 0 {
        assert(h2.trace().subrange(k + 1, k + 5) =~= h.trace().subrange(k + 1, k + 5)) by {
            assert forall|j: int| 0 <= j < 4 implies #[trigger] h2.trace().subrange(k + 1, k + 5)[j] == h.trace().subrange(k + 1, k + 5)[j] by {
                assert(h2.trace()[k + 1 + j] == h.trace()[k + 1 + j]);
            }
        }
        assert forall|j: int| k < j < k + 5 implies #[trigger] h2.reply(j) is Some by {
            assert(h2.reply(j) == h.reply(j));
        }
    } else {
        let k2 = choose|k2: int| k < k2 < h.trace().len() && #[trigger] h.trace()[k2] == deinit_effect(path);
        assert(h2.trace()[k2] == h.trace()[k2]);
    }
}

fn sync_gitlink<R: GitRunner>(runner: &mut Host<R>, path: &str) -> (r: Result<(), SubmoduleCleanupError>)
    ensures
        grows(*old(runner), *final(runner)),
        r matches Err(e) ==> !(e is StalePlan),
        r matches Err(e) ==> e is Git,
        r is Ok ==> final(runner).trace() == old(runner).trace() + sync_effects(path@),
        r is Err ==> exists|k: int|
            1 <= k <= 4 && final(runner).trace() == old(runner).trace() + sync_effects(path@).take(k),
        r is Ok ==> forall|i: int|
            old(runner).trace().len() <= i < final(runner).trace().len() ==> #[trigger] final(runner).reply(i) is Some,
        r is Err ==> final(runner).reply(final(runner).trace().len() - 1) is None,
{
    let ghost start = runner.trace();
    let ghost all = sync_effects(path@);
    match runner.run_unlocked(&GitCommand::write(restore_args(path))) {
        Ok(_) => {},
        Err(e) => {
            assert(runner.trace() =~= start + all.take(1));
            return Err(SubmoduleCleanupError::Git(e));
        },
    }
    assert(runner.trace() =~= start + all.take(1));
    match runner.run_unlocked(&GitCommand::write(update_args(path))) {
        Ok(_) => {},
        Err(e) => {
            assert(runner.trace() =~= start + all.take(2));
            return Err(SubmoduleCleanupError::Git(e));
        },
    }
    assert(runner.trace() =~= start + all.take(2));
    let checkout = in_submodule_args(path, &["checkout", "--force", "HEAD"]);
    assert(checkout.deep_view() =~= seq!["-C"@, path@, "checkout"@, "--force"@, "HEAD"@]);
    match runner.run_unlocked(&GitCommand::write(checkout)) {
        Ok(_) => {},
        Err(e) => {
            assert(runner.trace() =~= start + all.take(3));
            return Err(SubmoduleCleanupError::Git(e));
        },
    }
    assert(runner.trace() =~= start + all.take(3));
    let clean = in_submodule_args(path, &["clean", "-fd"]);
    assert(clean.deep_view() =~= seq!["-C"@, path@, "clean"@, "-fd"@]);
    let r = runner.run_unlocked(&GitCommand::write(clean));
    assert(runner.trace() =~= start + all);
    assert(all.take(4) =~= all);
    match r {
        Ok(_) => Ok(()),
        Err(e) => Err(SubmoduleCleanupError::Git(e)),
    }
}

/// Deinitialises the submodule, ignoring a failure, then deletes whatever of
/// its checkout is left.
fn remove_checkout<R: GitRunner>(runner: &mut Host<R>, path: &str) -> (r: Result<(), SubmoduleCleanupError>)
    ensures
        grows(*old(runner), *final(runner)),
        r matches Err(e) ==> !(e is StalePlan),
        old(runner).trace().len() < final(runner).trace().len(),
        final(runner).trace()[old(runner).trace().len() as int] == deinit_effect(path@),
{
    let mut values = command_args(&["-c", "submodule.recurse=false", "submodule", "deinit", "-f", "--"]);
    push_arg(&mut values, path);
    assert(values.deep_view() =~= seq![
        "-c"@,
        "submodule.recurse=false"@,
        "submodule"@,
        "deinit"@,
        "-f"@,
        "--"@,
        path@,
    ]);
    let _ = runner.run_unlocked(&GitCommand::write(values));
    let worktree = join_path(runner.repo_path().as_str(), path);
    if runner.path_exists(worktree.as_str()) {
        match runner.remove_dir_all(worktree.as_str()) {
            Ok(()) => {},
            Err(e) => return Err(SubmoduleCleanupError::InvalidState(e)),
        }
    }
    Ok(())
}

/// Whether `HEAD`'s tree has an entry at `path`.
fn head_has_gitlink<R: GitRunner>(runner: &mut Host<R>, path: &str) -> (r: Result<bool, SubmoduleCleanupError>)
    ensures
        grows(*old(runner), *final(runner)),
        r matches Err(e) ==> !(e is StalePlan),
        final(runner).trace() == old(runner).trace().push(gitlink_effect(path@)),
        r matches Ok(b) ==> (final(runner).reply(old(runner).trace().len() as int) matches Some(o) && b == (o.len() > 0)),
{
    let mut values = command_args(&["ls-tree", "HEAD", "--"]);
    push_arg(&mut values, path);
    assert(values.deep_view() =~= seq!["ls-tree"@, "HEAD"@, "--"@, path@]);
    match runner.run(&GitCommand::read(values)) {
        Ok(output) => Ok(output.stdout.len() > 0),
        Err(e) => Err(SubmoduleCleanupError::Git(e)),
    }
}

/// The log record of a cleanup: not reversible, with the review commands.
pub fn cleanup_record(plan: &SubmoduleCleanupPlan, id: String, started: String) -> (r: OperationRecord)
    ensures
        r.id@ == id@,
        r.operation@ == "cleanup_submodules"@,
        r.started@ == started@,
        r.finished is None,
        r.refs_before.map() == Map::<Seq<char>, Seq<char>>::empty(),
        r.refs_after.map() == Map::<Seq<char>, Seq<char>>::empty(),
        r.snapshots.map() == Map::<Seq<char>, Seq<char>>::empty(),
        r.details.map() == Map::<Seq<char>, Seq<char>>::empty(),
        r.phase is None,
        r.commands.deep_view() == plan.commands.deep_view(),
        !r.reversible,
{
    OperationRecord {
        id,
        operation: String::from_str("cleanup_submodules"),
        started,
        finished: None,
        refs_before: PathMap::new(),
        refs_after: PathMap::new(),
        snapshots: PathMap::new(),
        details: PathMap::new(),
        phase: None,
        commands: crate::text::clone_strings(&plan.commands),
        reversible: false,
    }
}

/// The record a cleanup logs when it begins.
pub open spec fn cleanup_record_view(plan: SubmoduleCleanupPlan, id: Seq<char>, started: Seq<char>) -> OperationRecordView {
    OperationRecordView {
        id,
        operation: "cleanup_submodules"@,
        started,
        finished: None,
        refs_before: Map::empty(),
        refs_after: Map::empty(),
        snapshots: Map::empty(),
        details: Map::empty(),
        phase: None,
        commands: plan.commands.deep_view(),
        reversible: false,
    }
}

fn begin_record<R: GitRunner>(runner: &mut Host<R>, oplog: &Oplog, plan: &SubmoduleCleanupPlan) -> (r: Result<
    String,
    SubmoduleCleanupError,
>)
    ensures
        grows(*old(runner), *final(runner)),
        r matches Ok(id) ==> exists|started: Seq<char>, pid: nat|
            id@ == operation_id_spec("submodule-cleanup"@, started, pid) && began_with(
                old(runner).trace(),
                final(runner).trace(),
                oplog.path@,
                started,
                pid,
                cleanup_record_view(*plan, id@, started),
            ),
        r matches Err(e) ==> !(e is StalePlan),
        r matches Ok(id) ==> names_operation(id@, "submodule-cleanup"@),
{
    let ghost before = runner.trace();
    let started = timestamp(runner);
    let pid = runner.process_id();
    let id = operation_id("submodule-cleanup", started.as_str(), pid);
    let ghost started_text = started@;
    let record = cleanup_record(plan, id.clone(), started);
    assert(record@ =~= cleanup_record_view(*plan, id@, started_text));
    assert(runner.trace() == before.push(Effect::Clock { time: started_text }).push(
        Effect::ProcessId { id: pid as nat },
    ));
    match oplog.begin(runner, record) {
        Ok(()) => Ok(id),
        Err(e) => Err(SubmoduleCleanupError::Recording(e.message())),
    }
}

} // verus!
