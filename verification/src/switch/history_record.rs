//! The operation-log record of a history switch.
use vstd::prelude::*;

use crate::host::grows;

use crate::host::{Effect, Host};

use crate::git::GitRunner;
use crate::map::PathMap;
use crate::recording::oplog::{began_with, single_entry, timestamp, OperationRecord, OperationRecordView, Oplog};
use crate::rewrite::materialize::{names_operation, operation_id, operation_id_spec};

use super::errors::SwitchError;
use super::history_model::HistorySwitchPlan;
use super::present::present_ref;
use super::record_commands::{history_commands, history_commands_spec};

verus! {

broadcast use crate::host::lemma_grows_chain, crate::host::lemma_grows_none, crate::host::lemma_grows_trace,
    crate::host::lemma_grows_reply;

pub open spec fn history_details_spec(plan: HistorySwitchPlan) -> Map<Seq<char>, Seq<char>> {
    Map::<Seq<char>, Seq<char>>::empty().insert("source_branch"@, plan.source_branch@).insert(
        "target_commit"@,
        plan.target_commit@,
    ).insert("present_ref"@, present_ref()).insert("present_branch"@, plan.source_branch@)
}

/// The record of a history switch: reversible, `HEAD` as it was, where the
/// Present marker points and the commands it runs.
pub fn history_record(plan: &HistorySwitchPlan, id: String, started: String) -> (r: OperationRecord)
    ensures
        r.id@ == id@,
        r.operation@ == "history-switch"@,
        r.started@ == started@,
        r.finished is None,
        r.refs_before.map() == Map::<Seq<char>, Seq<char>>::empty().insert(
            "HEAD"@,
            plan.source_head@,
        ),
        r.refs_after.map() == Map::<Seq<char>, Seq<char>>::empty(),
        r.snapshots.map() == Map::<Seq<char>, Seq<char>>::empty(),
        r.details.map() == history_details_spec(*plan),
        r.phase is None,
        r.commands.deep_view() == history_commands_spec(*plan),
        r.reversible,
{
    let mut details: PathMap<String> = PathMap::new();
    details.insert(String::from_str("source_branch"), plan.source_branch.clone());
    details.insert(String::from_str("target_commit"), String::from_str(plan.target_commit.as_str()));
    details.insert(String::from_str("present_ref"), String::from_str("refs/githelper/present"));
    details.insert(String::from_str("present_branch"), plan.source_branch.clone());
    OperationRecord {
        id,
        operation: String::from_str("history-switch"),
        started,
        finished: None,
        refs_before: single_entry("HEAD", plan.source_head.as_str()),
        refs_after: PathMap::new(),
        snapshots: PathMap::new(),
        details,
        phase: None,
        commands: history_commands(plan),
        reversible: true,
    }
}

/// The record a switch into history logs when it begins.
pub open spec fn history_record_view(plan: HistorySwitchPlan, id: Seq<char>, started: Seq<char>) -> OperationRecordView {
    OperationRecordView {
        id,
        operation: "history-switch"@,
        started,
        finished: None,
        refs_before: Map::<Seq<char>, Seq<char>>::empty().insert("HEAD"@, plan.source_head@),
        refs_after: Map::empty(),
        snapshots: Map::empty(),
        details: history_details_spec(plan),
        phase: None,
        commands: history_commands_spec(plan),
        reversible: true,
    }
}

pub(crate) fn begin_history<R: GitRunner>(runner: &mut Host<R>, oplog: &Oplog, plan: &HistorySwitchPlan) -> (r: Result<
    String,
    SwitchError,
>)
    ensures
        r matches Err(e) ==> !(e is MissingSavedWork),
        grows(*old(runner), *final(runner)),
        r matches Ok(id) ==> exists|started: Seq<char>, pid: nat|
            id@ == operation_id_spec("history-switch"@, started, pid) && began_with(
                old(runner).trace(),
                final(runner).trace(),
                oplog.path@,
                started,
                pid,
                history_record_view(*plan, id@, started),
            ),
        r matches Err(e) ==> !(e is StalePlan),
        r matches Err(e) ==> e is Recording,
        r matches Ok(id) ==> names_operation(id@, "history-switch"@),
{
    let ghost before = runner.trace();
    let started = timestamp(runner);
    let pid = runner.process_id();
    let id = operation_id("history-switch", started.as_str(), pid);
    let ghost started_text = started@;
    let record = history_record(plan, id.clone(), started);
    assert(record@ =~= history_record_view(*plan, id@, started_text));
    assert(runner.trace() == before.push(Effect::Clock { time: started_text }).push(
        Effect::ProcessId { id: pid as nat },
    ));
    match oplog.begin(runner, record) {
        Ok(()) => Ok(id),
        Err(e) => Err(SwitchError::Recording(e.message())),
    }
}

} // verus!
