//! Carrying out a history switch: the checkout is detached on the target
//! commit and the Present marker remembers the branch to come back to.
use vstd::prelude::*;

use crate::host::grows;

use crate::host::{reads_only, Host};

use crate::git::GitRunner;
use crate::recording::oplog::{began_with, lemma_began_logged, lemma_logged_kept, logged, Oplog};
use crate::rewrite::materialize::operation_id_spec;

use super::apply::{finished_after, write_after};
use super::carry::{self, CarrySource};
use super::errors::SwitchError;
use super::history_model::{HistorySwitchPlan, HistorySwitchResult};
use super::model::{duplicate_saved, saved_view};
use super::prep::{self, TrackedPrep, TrackedSpec};
use super::{checkout, history_plan, history_record, present, state, untracked};

verus! {

broadcast use crate::host::lemma_grows_chain, crate::host::lemma_grows_none, crate::host::lemma_grows_trace,
    crate::host::lemma_grows_reply;

pub(crate) fn apply<R: GitRunner>(runner: &mut Host<R>, plan: &HistorySwitchPlan) -> (r: Result<
    HistorySwitchResult,
    SwitchError,
>)
    ensures
        r is Ok ==> history_plan::history_plan_held(*final(runner), old(runner).trace().len() as int, *plan),
        r matches Err(e) ==> !(e is MissingSavedWork),
        grows(*old(runner), *final(runner)),
        r matches Err(SwitchError::StalePlan) ==> reads_only(old(runner).trace(), final(runner).trace()),
        r matches Ok(result) ==> exists|path: Seq<char>, id: Seq<char>, started: Seq<char>|
            #![trigger history_record::history_record_view(*plan, id, started), finished_after(*old(runner), *final(runner), path, id, saved_view(result.saved_work))]
            logged(final(runner).trace(), history_record::history_record_view(*plan, id, started))
                && finished_after(*old(runner), *final(runner), path, id, saved_view(result.saved_work)),
        r matches Ok(result) ==> {
            &&& result.source_branch@ == plan.source_branch@
            &&& result.target_commit@ == plan.target_commit@
            &&& result.present_branch@ == plan.source_branch@
            &&& result.carried_index is Some ==> plan.has_tracked_changes && plan.carry_changes
        },
{
    match history_plan::verify(runner, plan) {
        Ok(()) => {},
        Err(e) => return Err(e),
    }
    let ghost verified = *runner;
    let git_dir = match runner.git_dir() {
        Ok(d) => d,
        Err(e) => return Err(SwitchError::Git(e)),
    };
    let oplog = match Oplog::open(runner, git_dir.as_str()) {
        Ok(o) => o,
        Err(e) => return Err(SwitchError::Recording(e.message())),
    };
    let ghost before_begin = *runner;
    let operation_id = match history_record::begin_history(runner, &oplog, plan) {
        Ok(id) => id,
        Err(e) => return Err(e),
    };
    let ghost begun = *runner;
    let ghost (started_at, pid_at) = choose|started: Seq<char>, pid: nat|
        operation_id@ == operation_id_spec("history-switch"@, started, pid) && began_with(
            before_begin.trace(),
            begun.trace(),
            oplog.path@,
            started,
            pid,
            history_record::history_record_view(*plan, operation_id@, started),
        );
    let ghost record_begun = history_record::history_record_view(*plan, operation_id@, started_at);
    proof {
        lemma_began_logged(before_begin.trace(), begun.trace(), oplog.path@, started_at, pid_at, record_begun);
    }
    let prepared = match prep::prepare_tracked(
        runner,
        TrackedSpec {
            source_branch: plan.source_branch.as_str(),
            saved_work_reference: plan.saved_work_reference.as_str(),
            has_tracked_changes: plan.has_tracked_changes,
            carry_changes: plan.carry_changes,
        },
    ) {
        Ok(p) => p,
        Err(e) => return Err(e),
    };
    let park = match park_untracked(runner, plan, operation_id.as_str()) {
        Ok(p) => p,
        Err(e) => return Err(e),
    };
    match detach(runner, plan) {
        Ok(()) => {},
        Err(e) => return Err(e),
    }
    let ghost before_finish = *runner;
    let r = finish(runner, &oplog, operation_id.as_str(), plan, &prepared, &park);
    proof {
        if r is Ok {
            assert(grows(begun, *runner));
            lemma_logged_kept(begun.trace(), runner.trace(), record_begun, operation_id@, Map::empty());
            super::apply::lemma_finished_after_earlier(
                *old(runner),
                before_finish,
                *runner,
                oplog.path@,
                operation_id@,
                saved_view(r->Ok_0.saved_work),
            );
            history_plan::lemma_history_held_grows(verified, *runner, old(runner).trace().len() as int, old(runner).trace().len() as int, *plan);
        }
    }
    r
}

fn park_untracked<R: GitRunner>(runner: &mut Host<R>, plan: &HistorySwitchPlan, operation_id: &str) -> (r: Result<
    Option<untracked::ParkRef>,
    SwitchError,
>)
    ensures
        r matches Err(e) ==> !(e is MissingSavedWork),
        grows(*old(runner), *final(runner)),
        r matches Err(e) ==> !(e is StalePlan),
        plan.untracked_conflicts@.len() == 0 ==> (r matches Ok(p) && p is None),
        plan.untracked_conflicts@.len() > 0 && r is Ok ==> (r matches Ok(p) && p matches Some(park)
            && park.reference@ == "refs/githelper/untracked-merge/"@ + operation_id@),
{
    if plan.untracked_conflicts.len() == 0 {
        return Ok(None);
    }
    match untracked::park(runner, &plan.untracked_conflicts, operation_id) {
        Ok(p) => Ok(Some(p)),
        Err(e) => Err(e),
    }
}

/// Marks the branch as Present, then detaches; a failed detach takes the marker back.
fn detach<R: GitRunner>(runner: &mut Host<R>, plan: &HistorySwitchPlan) -> (r: Result<(), SwitchError>)
    ensures
        r matches Err(e) ==> !(e is MissingSavedWork),
        grows(*old(runner), *final(runner)),
        r matches Err(e) ==> !(e is StalePlan),
{
    match present::write(runner, plan.source_branch.as_str()) {
        Ok(()) => {},
        Err(e) => return Err(e),
    }
    match checkout::switch_detach(runner, plan.target_commit.as_str()) {
        Ok(()) => Ok(()),
        Err(error) => {
            let _ = present::delete(runner);
            Err(error)
        },
    }
}

fn finish<R: GitRunner>(
    runner: &mut Host<R>,
    oplog: &Oplog,
    operation_id: &str,
    plan: &HistorySwitchPlan,
    prepared: &TrackedPrep,
    park: &Option<untracked::ParkRef>,
) -> (r: Result<HistorySwitchResult, SwitchError>)
    requires
        prepared.carry_pushed ==> plan.has_tracked_changes && plan.carry_changes,
    ensures
        r matches Err(e) ==> !(e is MissingSavedWork),
        grows(*old(runner), *final(runner)),
        r matches Err(e) ==> !(e is StalePlan),
        r matches Ok(result) ==> finished_after(
            *old(runner),
            *final(runner),
            oplog.path@,
            operation_id@,
            saved_view(result.saved_work),
        ),
        r matches Ok(result) ==> {
            &&& result.source_branch@ == plan.source_branch@
            &&& result.target_commit@ == plan.target_commit@
            &&& result.present_branch@ == plan.source_branch@
            &&& result.carried_index is Some ==> plan.has_tracked_changes && plan.carry_changes
        },
{
    let source = CarrySource {
        branch: plan.source_branch.as_str(),
        saved_work_reference: plan.saved_work_reference.as_str(),
    };
    let carry = match carry::pop(runner, source, prepared.carry_pushed) {
        Ok(c) => c,
        Err(e) => return Err(e),
    };
    let untracked_merge_warning = match park {
        Some(p) => match untracked::reapply(runner, p.reference.as_str()) {
            Ok(w) => w,
            Err(e) => return Err(e),
        },
        None => None,
    };
    let saved_work = match duplicate_saved(&prepared.saved_work) {
        Some(s) => Some(s),
        None => carry.saved_work,
    };
    match write_after(runner, oplog, operation_id, &saved_work) {
        Ok(()) => {},
        Err(e) => return Err(e),
    }
    Ok(
        HistorySwitchResult {
            source_branch: plan.source_branch.clone(),
            target_commit: plan.target_commit.clone(),
            saved_work,
            carried_index: carry.carried_index,
            carry_warning: carry.warning,
            untracked_merge_warning,
            present_branch: plan.source_branch.clone(),
        },
    )
}

} // verus!
