//! Applying a revert plan: restoring the paths from their source and logging it.
use vstd::prelude::*;

use crate::host::grows;

use crate::host::{reads_only, Effect, Host};

use crate::git::{command_args, GitCommand, GitRunner};
use crate::map::PathMap;
use crate::recording::oplog::{
    began_with, lemma_began_logged, lemma_finish_logged, lemma_logged_kept, logged, logged_finished, timestamp,
    OperationRecord, OperationRecordView, Oplog,
};
use crate::rewrite::materialize::{names_operation, operation_id, operation_id_spec};
use crate::text::concat;

use super::errors::RevertError;
use super::model::{RevertPlan, RevertResult};
use super::plan::{self, literal_paths, literals};

verus! {

broadcast use crate::host::lemma_grows_chain, crate::host::lemma_grows_none, crate::host::lemma_grows_trace,
    crate::host::lemma_grows_reply;

pub(crate) fn apply<R: GitRunner>(runner: &mut Host<R>, plan: &RevertPlan) -> (r: Result<RevertResult, RevertError>)
    ensures
        r is Ok ==> plan::revert_plan_held(*final(runner), old(runner).trace().len() as int, *plan),
        r is Ok ==> restored(final(runner).trace(), *plan),
        grows(*old(runner), *final(runner)),
        r matches Ok(result) ==> result.paths.deep_view() == plan.paths.deep_view()
            && result.source@ == plan.source@,
        r matches Err(RevertError::StalePlan) ==> reads_only(old(runner).trace(), final(runner).trace()),
        r is Ok ==> exists|id: Seq<char>, started: Seq<char>|
            logged(final(runner).trace(), #[trigger] revert_record_view(*plan, id, started))
                && logged_finished(final(runner).trace(), id, Map::<Seq<char>, Seq<char>>::empty()),
{
    match plan::verify_current(runner, plan) {
        Ok(()) => {},
        Err(e) => return Err(e),
    }
    let ghost verified = *runner;
    let git_dir = match runner.git_dir() {
        Ok(d) => d,
        Err(e) => return Err(RevertError::Git(e)),
    };
    let oplog = match Oplog::open(runner, git_dir.as_str()) {
        Ok(o) => o,
        Err(e) => return Err(RevertError::Recording(e.message())),
    };
    let ghost before_begin = *runner;
    let id = match begin_record(runner, &oplog, plan) {
        Ok(id) => id,
        Err(e) => return Err(e),
    };
    let ghost begun = *runner;
    let ghost (started_at, pid_at) = choose|started: Seq<char>, pid: nat|
        id@ == operation_id_spec("revert"@, started, pid) && began_with(
            before_begin.trace(),
            begun.trace(),
            oplog.path@,
            started,
            pid,
            revert_record_view(*plan, id@, started),
        );
    let ghost record_begun = revert_record_view(*plan, id@, started_at);
    proof {
        lemma_began_logged(before_begin.trace(), begun.trace(), oplog.path@, started_at, pid_at, record_begun);
    }
    let ghost k = runner.trace().len() as int;
    match restore_paths(runner, plan) {
        Ok(()) => {},
        Err(e) => return Err(e),
    }
    let ghost h = *runner;
    let after_refs: PathMap<String> = PathMap::new();
    let ghost refs = after_refs.map();
    match oplog.finish(runner, id.as_str(), after_refs) {
        Ok(()) => {},
        Err(e) => return Err(RevertError::Recording(e.message())),
    }
    proof {
        assert(refs == Map::<Seq<char>, Seq<char>>::empty());
        lemma_finish_logged(h.trace(), runner.trace(), oplog.path@, id@, refs);
        lemma_logged_kept(begun.trace(), runner.trace(), record_begun, id@, refs);
        assert(runner.trace()[k] == h.trace()[k]);
        plan::lemma_revert_held_grows(verified, *runner, old(runner).trace().len() as int, old(runner).trace().len() as int, *plan);
    }
    Ok(
        RevertResult {
            paths: crate::rewrite::model::clone_paths(&plan.paths),
            source: plan.source.clone(),
        },
    )
}

/// `-c submodule.recurse=false restore --source=<source> --staged --worktree -- <paths>`.
/// The command that restores the plan's paths from its source, index and worktree.
pub open spec fn restore_effect(plan: RevertPlan) -> Effect {
    Effect::Run {
        args: seq![
            "-c"@,
            "submodule.recurse=false"@,
            "restore"@,
            "--source="@ + plan.source@,
            "--staged"@,
            "--worktree"@,
            "--"@,
        ] + literals(plan.paths.deep_view()),
        writes: true,
    }
}

/// Somewhere in `trace`, the plan's paths were restored from its source.
pub open spec fn restored(trace: Seq<Effect>, plan: RevertPlan) -> bool {
    exists|k: int| 0 <= k < trace.len() && #[trigger] trace[k] == restore_effect(plan)
}

pub fn restore_args(plan: &RevertPlan) -> (r: Vec<String>)
    ensures
        r.deep_view() == seq![
            "-c"@,
            "submodule.recurse=false"@,
            "restore"@,
            "--source="@ + plan.source@,
            "--staged"@,
            "--worktree"@,
            "--"@,
        ] + literals(plan.paths.deep_view()),
{
    let mut values = command_args(&["-c", "submodule.recurse=false", "restore"]);
    assert(values.deep_view() =~= seq!["-c"@, "submodule.recurse=false"@, "restore"@]);
    let source = concat("--source=", plan.source.as_str());
    crate::git::push_arg(&mut values, source.as_str());
    let rest = command_args(&["--staged", "--worktree", "--"]);
    assert(rest.deep_view() =~= seq!["--staged"@, "--worktree"@, "--"@]);
    crate::git::extend_args(&mut values, &rest);
    let lits = literal_paths(&plan.paths);
    crate::git::extend_args(&mut values, &lits);
    assert(values.deep_view() =~= seq![
        "-c"@,
        "submodule.recurse=false"@,
        "restore"@,
        "--source="@ + plan.source@,
        "--staged"@,
        "--worktree"@,
        "--"@,
    ] + literals(plan.paths.deep_view()));
    values
}

/// Restores the plan's paths from its source, in the index and the worktree.
fn restore_paths<R: GitRunner>(runner: &mut Host<R>, plan: &RevertPlan) -> (r: Result<(), RevertError>)
    ensures
        grows(*old(runner), *final(runner)),
        r matches Err(e) ==> !(e is StalePlan),
        final(runner).trace() == old(runner).trace().push(restore_effect(*plan)),
        r is Ok <==> final(runner).reply(old(runner).trace().len() as int) is Some,
{
    match runner.run_unlocked(&GitCommand::write(restore_args(plan))) {
        Ok(_) => Ok(()),
        Err(e) => Err(RevertError::Git(e)),
    }
}

/// The record a revert logs when it begins: not reversible, with the
/// commands it runs.
pub open spec fn revert_record_view(plan: RevertPlan, id: Seq<char>, started: Seq<char>) -> OperationRecordView {
    OperationRecordView {
        id,
        operation: "revert"@,
        started,
        finished: None,
        refs_before: Map::empty(),
        refs_after: Map::empty(),
        snapshots: Map::empty(),
        details: Map::empty(),
        phase: None,
        commands: plan.commands.deep_view(),
        reversible: false,
    }
}

fn begin_record<R: GitRunner>(runner: &mut Host<R>, oplog: &Oplog, plan: &RevertPlan) -> (r: Result<
    String,
    RevertError,
>)
    ensures
        grows(*old(runner), *final(runner)),
        r matches Ok(id) ==> exists|started: Seq<char>, pid: nat|
            id@ == operation_id_spec("revert"@, started, pid) && began_with(
                old(runner).trace(),
                final(runner).trace(),
                oplog.path@,
                started,
                pid,
                revert_record_view(*plan, id@, started),
            ),
        r matches Err(e) ==> !(e is StalePlan),
        r matches Ok(id) ==> names_operation(id@, "revert"@),
{
    let ghost before = runner.trace();
    let started = timestamp(runner);
    let pid = runner.process_id();
    let id = operation_id("revert", started.as_str(), pid);
    let ghost started_text = started@;
    let record = OperationRecord {
        id: id.clone(),
        operation: String::from_str("revert"),
        started,
        finished: None,
        refs_before: PathMap::new(),
        refs_after: PathMap::new(),
        snapshots: PathMap::new(),
        details: PathMap::new(),
        phase: None,
        commands: crate::text::clone_strings(&plan.commands),
        reversible: false,
    };
    assert(record@ =~= revert_record_view(*plan, id@, started_text));
    assert(runner.trace() == before.push(Effect::Clock { time: started_text }).push(
        Effect::ProcessId { id: pid as nat },
    ));
    match oplog.begin(runner, record) {
        Ok(()) => Ok(id),
        Err(e) => Err(RevertError::Recording(e.message())),
    }
}

} // verus!
