//! The operation-log records of switches and of Saved work changes.
use vstd::prelude::*;

use crate::host::grows;

use crate::host::{Effect, Host};

use crate::git::GitRunner;
use crate::map::PathMap;
use crate::recording::oplog::{
    began_with, index_of_active, index_of_id, paused_log, read_log, single_entry, timestamp, OperationRecord,
    OperationRecordView, Oplog,
};
use crate::rewrite::materialize::{names_operation, operation_id, operation_id_spec};
use crate::text::{concat, concat3};

use super::errors::SwitchError;
use super::model::{phase_name, QuickSwitchPhase, QuickSwitchPlan, SavedWork};

verus! {

broadcast use crate::host::lemma_grows_chain, crate::host::lemma_grows_none, crate::host::lemma_grows_trace,
    crate::host::lemma_grows_reply;

/// What a switch that paused for a pull decision left in the log.
pub struct PullDecision {
    pub id: String,
    pub source_branch: String,
    pub target_branch: String,
    pub remote_ref: String,
    pub carry_reference: Option<String>,
}

/// Where a paused switch parked its carry and its untracked files.
pub struct PullPauseSnapshots {
    pub carry: Option<String>,
    pub untracked_merge: Option<String>,
}

pub open spec fn switch_details_spec(plan: QuickSwitchPlan) -> Map<Seq<char>, Seq<char>> {
    let base = Map::<Seq<char>, Seq<char>>::empty().insert("source_branch"@, plan.source_branch@).insert(
        "target_branch"@,
        plan.target_branch@,
    );
    match plan.pull_remote_ref {
        Some(r) => base.insert("remote_ref"@, r@),
        None => base,
    }
}

/// The commands a quick switch's record lists: the snapshot, its Saved work
/// ref when changes stay behind, the reset and the switch, and the apply of the
/// snapshot when changes are carried.
pub open spec fn begin_commands_spec(plan: QuickSwitchPlan) -> Seq<Seq<char>> {
    let keep = plan.has_tracked_changes && !plan.carry_changes;
    let carry = plan.has_tracked_changes && plan.carry_changes;
    seq!["git stash create"@] + (if keep {
        seq!["git update-ref "@ + plan.saved_work_reference@ + " <snapshot>"@]
    } else {
        Seq::empty()
    }) + seq!["git reset --hard HEAD"@, "git switch --no-guess -- "@ + plan.target_branch@] + (
    if carry {
        seq!["git stash apply --index <snapshot>"@]
    } else {
        Seq::empty()
    })
}

fn begin_commands(plan: &QuickSwitchPlan) -> (r: Vec<String>)
    ensures
        r.deep_view() == begin_commands_spec(*plan),
{
    let mut commands: Vec<String> = Vec::new();
    commands.push(String::from_str("git stash create"));
    let ghost first = commands.deep_view();
    if plan.has_tracked_changes && !plan.carry_changes {
        commands.push(concat3("git update-ref ", plan.saved_work_reference.as_str(), " <snapshot>"));
    }
    let ghost kept = commands.deep_view();
    commands.push(String::from_str("git reset --hard HEAD"));
    commands.push(concat("git switch --no-guess -- ", plan.target_branch.as_str()));
    let ghost switched = commands.deep_view();
    if plan.has_tracked_changes && plan.carry_changes {
        commands.push(String::from_str("git stash apply --index <snapshot>"));
    }
    let keep = plan.has_tracked_changes && !plan.carry_changes;
    let carry = plan.has_tracked_changes && plan.carry_changes;
    assert(first =~= seq!["git stash create"@]);
    assert(kept =~= first + (if keep {
        seq!["git update-ref "@ + plan.saved_work_reference@ + " <snapshot>"@]
    } else {
        Seq::empty()
    }));
    assert(switched =~= kept + seq!["git reset --hard HEAD"@, "git switch --no-guess -- "@ + plan.target_branch@]);
    assert(commands.deep_view() =~= switched + (if carry {
        seq!["git stash apply --index <snapshot>"@]
    } else {
        Seq::empty()
    }));
    commands
}

/// The record of a quick switch: reversible, `HEAD` as it was, and the
/// commands it runs.
pub fn switch_record(switch_plan: &QuickSwitchPlan, id: String, started: String) -> (r: OperationRecord)
    ensures
        r@ == switch_record_view(*switch_plan, id@, started@),
{
    let r = OperationRecord {
        id,
        operation: String::from_str("quick-switch"),
        started,
        finished: None,
        refs_before: single_entry("HEAD", switch_plan.source_head.as_str()),
        refs_after: PathMap::new(),
        snapshots: PathMap::new(),
        details: PathMap::new(),
        phase: None,
        commands: begin_commands(switch_plan),
        reversible: true,
    };
    assert(r@ =~= switch_record_view(*switch_plan, r.id@, r.started@));
    r
}

/// The record a quick switch logs when it begins.
pub open spec fn switch_record_view(plan: QuickSwitchPlan, id: Seq<char>, started: Seq<char>) -> OperationRecordView {
    OperationRecordView {
        id,
        operation: "quick-switch"@,
        started,
        finished: None,
        refs_before: Map::<Seq<char>, Seq<char>>::empty().insert("HEAD"@, plan.source_head@),
        refs_after: Map::empty(),
        snapshots: Map::empty(),
        details: Map::empty(),
        phase: None,
        commands: begin_commands_spec(plan),
        reversible: true,
    }
}

/// What a paused switch names in its record: the branches and the remote it
/// waits on.
pub fn pause_details(plan: &QuickSwitchPlan) -> (r: PathMap<String>)
    ensures
        r.map() == switch_details_spec(*plan),
{
    let mut details: PathMap<String> = PathMap::new();
    details.insert(String::from_str("source_branch"), plan.source_branch.clone());
    details.insert(String::from_str("target_branch"), plan.target_branch.clone());
    match &plan.pull_remote_ref {
        Some(remote) => details.insert(String::from_str("remote_ref"), remote.clone()),
        None => {},
    }
    details
}

pub(crate) fn begin_switch<R: GitRunner>(runner: &mut Host<R>, oplog: &Oplog, switch_plan: &QuickSwitchPlan) -> (r: Result<
    String,
    SwitchError,
>)
    ensures
        r matches Err(e) ==> !(e is MissingSavedWork),
        grows(*old(runner), *final(runner)),
        r matches Err(e) ==> !(e is StalePlan),
        r matches Err(e) ==> e is Recording,
        r matches Ok(id) ==> names_operation(id@, "quick-switch"@),
        r matches Ok(id) ==> exists|started: Seq<char>, pid: nat|
            id@ == operation_id_spec("quick-switch"@, started, pid) && began_with(
                old(runner).trace(),
                final(runner).trace(),
                oplog.path@,
                started,
                pid,
                switch_record_view(*switch_plan, id@, started),
            ),
{
    let ghost before = runner.trace();
    let started = timestamp(runner);
    let pid = runner.process_id();
    let id = operation_id("quick-switch", started.as_str(), pid);
    let ghost started_text = started@;
    let record = switch_record(switch_plan, id.clone(), started);
    assert(runner.trace() == before.push(Effect::Clock { time: started_text }).push(
        Effect::ProcessId { id: pid as nat },
    ));
    begin(runner, oplog, record, id)
}

/// The record of a Saved work restore or deletion: not reversible, the ref as it was.
pub fn saved_work_record(operation: &str, saved: &SavedWork, command: String, id: String, started: String) -> (r: OperationRecord)
    ensures
        r.id@ == id@,
        r.operation@ == operation@,
        r.started@ == started@,
        r.finished is None,
        r.refs_before.map() == Map::<Seq<char>, Seq<char>>::empty().insert(
            saved.reference@,
            saved.snapshot@,
        ),
        r.refs_after.map() == Map::<Seq<char>, Seq<char>>::empty(),
        r.snapshots.map() == Map::<Seq<char>, Seq<char>>::empty(),
        r.details.map() == Map::<Seq<char>, Seq<char>>::empty(),
        r.phase is None,
        r.commands.deep_view() == seq![command@],
        !r.reversible,
{
    let mut commands: Vec<String> = Vec::new();
    commands.push(command);
    assert(commands.deep_view() =~= seq![command@]);
    OperationRecord {
        id,
        operation: String::from_str(operation),
        started,
        finished: None,
        refs_before: single_entry(saved.reference.as_str(), saved.snapshot.as_str()),
        refs_after: PathMap::new(),
        snapshots: PathMap::new(),
        details: PathMap::new(),
        phase: None,
        commands,
        reversible: false,
    }
}

pub(crate) fn begin_restore<R: GitRunner>(runner: &mut Host<R>, oplog: &Oplog, saved: &SavedWork) -> (r: Result<
    String,
    SwitchError,
>)
    ensures
        r matches Err(e) ==> !(e is MissingSavedWork),
        grows(*old(runner), *final(runner)),
        r matches Err(e) ==> !(e is StalePlan),
        r matches Ok(id) ==> names_operation(id@, "restore-saved-work"@),
        r matches Err(e) ==> e is Recording,
        r matches Ok(id) ==> exists|started: Seq<char>, pid: nat|
            id@ == operation_id_spec("restore-saved-work"@, started, pid) && began_with(
                old(runner).trace(),
                final(runner).trace(),
                oplog.path@,
                started,
                pid,
                saved_work_record_view(
                    "restore-saved-work"@,
                    *saved,
                    "git stash apply --index "@ + saved.reference@,
                    id@,
                    started,
                ),
            ),
{
    let command = concat("git stash apply --index ", saved.reference.as_str());
    begin_simple(runner, oplog, "restore-saved-work", saved, command)
}

pub(crate) fn begin_delete<R: GitRunner>(runner: &mut Host<R>, oplog: &Oplog, saved: &SavedWork) -> (r: Result<
    String,
    SwitchError,
>)
    ensures
        r matches Err(e) ==> !(e is MissingSavedWork),
        grows(*old(runner), *final(runner)),
        r matches Err(e) ==> !(e is StalePlan),
        r matches Ok(id) ==> names_operation(id@, "delete-saved-work"@),
        r matches Err(e) ==> e is Recording,
        r matches Ok(id) ==> exists|started: Seq<char>, pid: nat|
            id@ == operation_id_spec("delete-saved-work"@, started, pid) && began_with(
                old(runner).trace(),
                final(runner).trace(),
                oplog.path@,
                started,
                pid,
                saved_work_record_view(
                    "delete-saved-work"@,
                    *saved,
                    "git update-ref -d "@ + saved.reference@,
                    id@,
                    started,
                ),
            ),
{
    let command = concat("git update-ref -d ", saved.reference.as_str());
    begin_simple(runner, oplog, "delete-saved-work", saved, command)
}

fn begin_simple<R: GitRunner>(
    runner: &mut Host<R>,
    oplog: &Oplog,
    operation: &str,
    saved: &SavedWork,
    command: String,
) -> (r: Result<String, SwitchError>)
    ensures
        r matches Err(e) ==> !(e is MissingSavedWork),
        grows(*old(runner), *final(runner)),
        r matches Err(e) ==> !(e is StalePlan),
        r matches Ok(id) ==> names_operation(id@, operation@),
        r matches Err(e) ==> e is Recording,
        r matches Ok(id) ==> exists|started: Seq<char>, pid: nat|
            id@ == operation_id_spec(operation@, started, pid) && began_with(
                old(runner).trace(),
                final(runner).trace(),
                oplog.path@,
                started,
                pid,
                saved_work_record_view(operation@, *saved, command@, id@, started),
            ),
{
    let ghost before = runner.trace();
    let ghost command_text = command@;
    let started = timestamp(runner);
    let pid = runner.process_id();
    let id = operation_id(operation, started.as_str(), pid);
    let ghost started_text = started@;
    let record = saved_work_record(operation, saved, command, id.clone(), started);
    assert(record@ =~= saved_work_record_view(operation@, *saved, command_text, id@, started_text));
    assert(runner.trace() == before.push(Effect::Clock { time: started_text }).push(
        Effect::ProcessId { id: pid as nat },
    ));
    begin(runner, oplog, record, id)
}

/// The record a Saved work restore or deletion logs when it begins.
pub open spec fn saved_work_record_view(
    operation: Seq<char>,
    saved: SavedWork,
    command: Seq<char>,
    id: Seq<char>,
    started: Seq<char>,
) -> OperationRecordView {
    OperationRecordView {
        id,
        operation,
        started,
        finished: None,
        refs_before: Map::<Seq<char>, Seq<char>>::empty().insert(saved.reference@, saved.snapshot@),
        refs_after: Map::empty(),
        snapshots: Map::empty(),
        details: Map::empty(),
        phase: None,
        commands: seq![command],
        reversible: false,
    }
}

fn begin<R: GitRunner>(runner: &mut Host<R>, oplog: &Oplog, record: OperationRecord, id: String) -> (r: Result<
    String,
    SwitchError,
>)
    ensures
        r matches Err(e) ==> !(e is MissingSavedWork),
        grows(*old(runner), *final(runner)),
        r matches Err(e) ==> !(e is StalePlan),
        r matches Ok(s) ==> s@ == id@,
        r matches Err(e) ==> e is Recording,
        r is Ok ==> exists|mid: Seq<Effect>, loaded: Seq<OperationRecordView>|
            read_log(old(runner).trace(), mid, oplog.path@, loaded) && final(runner).trace()
                == mid.push(Effect::Store { path: oplog.path@, records: loaded.push(record@) }),
{
    match oplog.begin(runner, record) {
        Ok(()) => Ok(id),
        Err(e) => Err(SwitchError::Recording(e.message())),
    }
}

pub open spec fn pause_snapshots_spec(snapshots: PullPauseSnapshots) -> Map<Seq<char>, Seq<char>> {
    pause_map(
        match snapshots.carry {
            Some(c) => Some(c@),
            None => None,
        },
        match snapshots.untracked_merge {
            Some(u) => Some(u@),
            None => None,
        },
    )
}

/// The snapshots a paused switch records: its carry ref and its untracked-merge ref, where it has them.
pub open spec fn pause_map(carry: Option<Seq<char>>, untracked_merge: Option<Seq<char>>) -> Map<
    Seq<char>,
    Seq<char>,
> {
    let with_carry = match carry {
        Some(c) => Map::<Seq<char>, Seq<char>>::empty().insert("carry"@, c),
        None => Map::<Seq<char>, Seq<char>>::empty(),
    };
    match untracked_merge {
        Some(u) => with_carry.insert("untracked-merge"@, u),
        None => with_carry,
    }
}

/// The refs a paused switch holds, as a log record keeps them.
pub fn pause_snapshots(snapshots: PullPauseSnapshots) -> (r: PathMap<String>)
    ensures
        r.map() == pause_snapshots_spec(snapshots),
{
    let mut map: PathMap<String> = PathMap::new();
    match snapshots.carry {
        Some(c) => map.insert(String::from_str("carry"), c),
        None => {},
    }
    match snapshots.untracked_merge {
        Some(u) => map.insert(String::from_str("untracked-merge"), u),
        None => {},
    }
    map
}

/// Records that the switch `id` paused because the pull could not
/// fast-forward: its phase, the refs it parked, and the branches and remote it
/// waits on.
pub(crate) fn mark_pull_failed<R: GitRunner>(
    runner: &mut Host<R>,
    oplog: &Oplog,
    id: &str,
    snapshots: PullPauseSnapshots,
    plan: &QuickSwitchPlan,
) -> (r: Result<(), SwitchError>)
    ensures
        r matches Err(e) ==> !(e is MissingSavedWork),
        grows(*old(runner), *final(runner)),
        r is Ok ==> exists|mid: Seq<Effect>, loaded: Seq<OperationRecordView>|
            read_log(old(runner).trace(), mid, oplog.path@, loaded) && index_of_id(loaded, id@) >= 0
                && final(runner).trace() == mid.push(
                Effect::Store {
                    path: oplog.path@,
                    records: paused_log(
                        loaded,
                        id@,
                        phase_name(QuickSwitchPhase::PullFastForwardFailed),
                        pause_snapshots_spec(snapshots),
                        switch_details_spec(*plan),
                    ),
                },
            ),
        r matches Err(e) ==> !(e is StalePlan),
        r matches Err(e) ==> e is Recording,
{
    let phase = QuickSwitchPhase::PullFastForwardFailed;
    let held = pause_snapshots(snapshots);
    match oplog.pause(runner, id, phase.as_str(), held, pause_details(plan)) {
        Ok(()) => Ok(()),
        Err(e) => Err(SwitchError::Recording(e.message())),
    }
}

/// A record of a switch paused at its pull: its phase says so, and its
/// details name the target branch and the remote.
pub open spec fn pull_decision_spec(record: crate::recording::oplog::OperationRecordView) -> bool {
    &&& record.phase == Some(phase_name(QuickSwitchPhase::PullFastForwardFailed))
    &&& record.details.dom().contains("target_branch"@)
    &&& record.details.dom().contains("remote_ref"@)
}

/// The pull decision a record of a switch stands for, when it paused at the pull.
pub fn pull_decision_of(record: OperationRecord) -> (r: Option<PullDecision>)
    ensures
        r is Some <==> pull_decision_spec(record@),
        r matches Some(d) ==> {
            &&& d.id@ == record.id@
            &&& d.target_branch@ == record@.details["target_branch"@]
            &&& d.remote_ref@ == record@.details["remote_ref"@]
            &&& (record@.details.dom().contains("source_branch"@) ==> d.source_branch@
                == record@.details["source_branch"@])
            &&& (record@.snapshots.dom().contains("carry"@) <==> d.carry_reference is Some)
            &&& (d.carry_reference matches Some(c) ==> c@ == record@.snapshots["carry"@])
        },
{
    let paused = match &record.phase {
        Some(p) => match QuickSwitchPhase::parse(p.as_str()) {
            Some(QuickSwitchPhase::PullFastForwardFailed) => true,
            None => false,
        },
        None => false,
    };
    proof {
        if record@.phase == Some(phase_name(QuickSwitchPhase::PullFastForwardFailed)) {
            assert(record.phase is Some);
        }
    }
    if !paused {
        return None;
    }
    let target_branch = match record.details.get("target_branch") {
        Some(v) => v.clone(),
        None => return None,
    };
    let remote_ref = match record.details.get("remote_ref") {
        Some(v) => v.clone(),
        None => return None,
    };
    let source_branch = match record.details.get("source_branch") {
        Some(v) => v.clone(),
        None => String::new(),
    };
    let carry_reference = match record.snapshots.get("carry") {
        Some(v) => Some(v.clone()),
        None => None,
    };
    Some(PullDecision { id: record.id, source_branch, target_branch, remote_ref, carry_reference })
}

/// The switch that is waiting for a pull decision, if one is.
/// The switch of the log `records` that waits for a pull decision: the last
/// unfinished quick switch, when it paused at its pull.
pub open spec fn paused_switch(records: Seq<OperationRecordView>) -> Option<OperationRecordView> {
    let i = index_of_active(records, "quick-switch"@);
    if i >= 0 && pull_decision_spec(records[i]) {
        Some(records[i])
    } else {
        None
    }
}

/// `d` is the decision that the paused record `rec` waits on.
pub open spec fn decision_of(d: PullDecision, rec: OperationRecordView) -> bool {
    &&& d.id@ == rec.id
    &&& d.target_branch@ == rec.details["target_branch"@]
    &&& d.remote_ref@ == rec.details["remote_ref"@]
    &&& (rec.snapshots.dom().contains("carry"@) <==> d.carry_reference is Some)
    &&& (d.carry_reference matches Some(c) ==> c@ == rec.snapshots["carry"@])
}

pub(crate) fn active_pull_decision<R: GitRunner>(runner: &mut Host<R>, oplog: &Oplog) -> (r: Result<
    Option<PullDecision>,
    SwitchError,
>)
    ensures
        r matches Err(e) ==> !(e is MissingSavedWork),
        r matches Ok(found) ==> exists|loaded: Seq<OperationRecordView>|
            read_log(old(runner).trace(), final(runner).trace(), oplog.path@, loaded) && (found is Some
                <==> paused_switch(loaded) is Some) && (found matches Some(d) ==> decision_of(
                d,
                paused_switch(loaded)->Some_0,
            )),
        grows(*old(runner), *final(runner)),
        r matches Err(e) ==> !(e is StalePlan),
{
    proof {
        reveal_strlit("quick-switch");
    }
    match oplog.active(runner, "quick-switch") {
        Ok(Some(record)) => Ok(pull_decision_of(record)),
        Ok(None) => Ok(None),
        Err(e) => Err(SwitchError::Recording(e.message())),
    }
}

} // verus!
