//! Carrying out a quick switch.
use vstd::prelude::*;

use crate::host::grows;

use crate::host::{reads_only, Effect, Host};

use crate::git::GitRunner;
use crate::map::PathMap;
use crate::recording::oplog::{
    began_with, finished_log, index_of_id, lemma_began_logged, lemma_logged_kept, logged, paused_log, read_log,
    OperationRecordView, Oplog,
};
use crate::rewrite::materialize::operation_id_spec;
use crate::text::trim_spec;

use super::carry::{self, CarrySource};
use super::errors::SwitchError;
use super::model::{duplicate_saved, saved_view, QuickSwitchPlan, QuickSwitchResult, SavedWork};
use super::prep::{self, TrackedPrep, TrackedSpec};
use super::model::{phase_name, QuickSwitchPhase};
use super::record::{self, pause_map, switch_details_spec, PullPauseSnapshots};
use super::{checkout, plan, pull, state, untracked};

verus! {

broadcast use crate::host::lemma_grows_chain, crate::host::lemma_grows_none, crate::host::lemma_grows_trace,
    crate::host::lemma_grows_reply;

struct SwitchPrep {
    prepared: TrackedPrep,
    untracked_park: Option<untracked::ParkRef>,
}

struct SwitchCtx<'a> {
    oplog: &'a Oplog,
    operation_id: &'a str,
    plan: &'a QuickSwitchPlan,
}

/// What every result of a switch holds: the branches of the plan, a pull
/// only where the plan has a remote, and a decision asked for only when the
/// pull could not fast-forward.
pub open spec fn result_fits_plan(result: QuickSwitchResult, plan: QuickSwitchPlan) -> bool {
    &&& result.source_branch@ == plan.source_branch@
    &&& result.target_branch@ == plan.target_branch@
    &&& result.pulled ==> plan.pull_remote_ref is Some
    &&& result.pull_decision_needed ==> plan.pull_remote_ref is Some && !result.pulled
        && result.pull_warning is Some
    &&& !result.pull_decision_needed ==> result.pull_warning is None
    &&& result.carried_index is Some ==> plan.has_tracked_changes && plan.carry_changes
}

pub(crate) fn switch<R: GitRunner>(runner: &mut Host<R>, switch_plan: &QuickSwitchPlan) -> (r: Result<
    QuickSwitchResult,
    SwitchError,
>)
    ensures
        r is Ok ==> plan::plan_held(*final(runner), old(runner).trace().len() as int, *switch_plan),
        r matches Ok(result) ==> (result.pull_decision_needed ==> paused_at_pull(*final(runner), *switch_plan)),
        r matches Ok(result) ==> (!result.pull_decision_needed ==> exists|path: Seq<char>, id: Seq<char>|
            finished_after(*old(runner), *final(runner), path, id, saved_view(result.saved_work))),
        r matches Err(e) ==> !(e is MissingSavedWork),
        grows(*old(runner), *final(runner)),
        r matches Ok(result) ==> result_fits_plan(result, *switch_plan),
        r matches Err(SwitchError::StalePlan) ==> reads_only(old(runner).trace(), final(runner).trace()),
        r is Ok ==> exists|id: Seq<char>, started: Seq<char>|
            logged(final(runner).trace(), #[trigger] record::switch_record_view(*switch_plan, id, started)),
{
    match plan::verify_current(runner, switch_plan) {
        Ok(()) => {},
        Err(e) => return Err(e),
    }
    let ghost verified = *runner;
    let git_dir = match runner.git_dir() {
        Ok(d) => d,
        Err(e) => return Err(SwitchError::Git(e)),
    };
    let oplog = match Oplog::open(runner, git_dir.as_str()) {
        Ok(o) => o,
        Err(e) => return Err(SwitchError::Recording(e.message())),
    };
    let ghost before_begin = *runner;
    let operation_id = match record::begin_switch(runner, &oplog, switch_plan) {
        Ok(id) => id,
        Err(e) => return Err(e),
    };
    let ghost begun = *runner;
    let ghost (started_at, pid_at) = choose|started: Seq<char>, pid: nat|
        operation_id@ == operation_id_spec("quick-switch"@, started, pid) && began_with(
            before_begin.trace(),
            begun.trace(),
            oplog.path@,
            started,
            pid,
            record::switch_record_view(*switch_plan, operation_id@, started),
        );
    let ghost record_begun = record::switch_record_view(*switch_plan, operation_id@, started_at);
    proof {
        lemma_began_logged(before_begin.trace(), begun.trace(), oplog.path@, started_at, pid_at, record_begun);
    }
    let ctx = SwitchCtx { oplog: &oplog, operation_id: operation_id.as_str(), plan: switch_plan };
    let prepared = match prepare_tracked_changes(runner, switch_plan) {
        Ok(t) => t,
        Err(e) => return Err(e),
    };
    let untracked_park = match park_untracked(runner, switch_plan, operation_id.as_str()) {
        Ok(p) => p,
        Err(e) => return Err(e),
    };
    let prep = SwitchPrep { prepared, untracked_park };
    match checkout::switch_branch(runner, switch_plan) {
        Ok(()) => {},
        Err(e) => return Err(e),
    }
    match &switch_plan.pull_remote_ref {
        Some(remote_ref) => {
            let fast_forwarded = match pull::fast_forward(runner, remote_ref.as_str()) {
                Ok(b) => b,
                Err(e) => return Err(e),
            };
            if !fast_forwarded {
                let r = pause_for_pull(runner, &ctx, &prep);
                proof {
                    if r is Ok {
                        plan::lemma_plan_held_grows(verified, *runner, old(runner).trace().len() as int, *switch_plan);
                        let j = runner.trace().len() - 1;
                        assert(runner.trace()[j] == runner.trace().last());
                        assert(grows(begun, *runner));
                        lemma_logged_kept(begun.trace(), runner.trace(), record_begun, operation_id@, Map::empty());
                    }
                }
                return r;
            }
            let ghost before = *runner;
            let r = finish_switch(runner, &ctx, &prep, true);
            proof {
                if r is Ok {
                    plan::lemma_plan_held_grows(verified, *runner, old(runner).trace().len() as int, *switch_plan);
                    lemma_finished_after_earlier(*old(runner), before, *runner, ctx.oplog.path@, ctx.operation_id@, saved_view(r->Ok_0.saved_work));
                    assert(grows(begun, *runner));
                    lemma_logged_kept(begun.trace(), runner.trace(), record_begun, operation_id@, Map::empty());
                }
            }
            r
        },
        None => {
            let ghost before = *runner;
            let r = finish_switch(runner, &ctx, &prep, false);
            proof {
                if r is Ok {
                    plan::lemma_plan_held_grows(verified, *runner, old(runner).trace().len() as int, *switch_plan);
                    lemma_finished_after_earlier(*old(runner), before, *runner, ctx.oplog.path@, ctx.operation_id@, saved_view(r->Ok_0.saved_work));
                    assert(grows(begun, *runner));
                    lemma_logged_kept(begun.trace(), runner.trace(), record_begun, operation_id@, Map::empty());
                }
            }
            r
        },
    }
}

/// Somewhere in the trace, the log was written with a record of this switch
/// marked paused at its pull, naming the plan's branches and remote.
pub open spec fn paused_at_pull<R: GitRunner>(h: Host<R>, plan: QuickSwitchPlan) -> bool {
    exists|j: int|
        0 <= j < h.trace().len() && (#[trigger] h.trace()[j] matches Effect::Store { records, .. }
            && exists|loaded: Seq<OperationRecordView>, id: Seq<char>, snapshots: Map<Seq<char>, Seq<char>>|
            index_of_id(loaded, id) >= 0 && records == #[trigger] paused_log(
                loaded,
                id,
                phase_name(QuickSwitchPhase::PullFastForwardFailed),
                snapshots,
                switch_details_spec(plan),
            ))
}

/// A finished switch stays finished as the trace grows.
pub proof fn lemma_finished_after_later<R: GitRunner>(
    before: Host<R>,
    after: Host<R>,
    later: Host<R>,
    path: Seq<char>,
    id: Seq<char>,
    saved: Option<(Seq<char>, Seq<char>, Seq<char>)>,
)
    requires
        finished_after(before, after, path, id, saved),
        grows(after, later),
    ensures
        finished_after(before, later, path, id, saved),
{
    let k = choose|k: int|
        before.trace().len() <= k < after.trace().len() && #[trigger] after.trace()[k] == state::resolve_effect(
            "HEAD"@,
        ) && (after.reply(k) matches Some(out) && exists|j: int, loaded: Seq<OperationRecordView>, when: Seq<char>|
            #![trigger after.trace()[j], finished_log(loaded, id, when, after_map(trim_spec(vstd::utf8::decode_utf8(out)), saved))]
            k < j < after.trace().len() && index_of_id(loaded, id) >= 0 && after.trace()[j] == (Effect::Store {
                path,
                records: finished_log(
                    loaded,
                    id,
                    when,
                    after_map(trim_spec(vstd::utf8::decode_utf8(out)), saved),
                ),
            }));
    let out = after.reply(k)->Some_0;
    let (j, loaded, when) = choose|j: int, loaded: Seq<OperationRecordView>, when: Seq<char>|
        #![trigger after.trace()[j], finished_log(loaded, id, when, after_map(trim_spec(vstd::utf8::decode_utf8(out)), saved))]
        k < j < after.trace().len() && index_of_id(loaded, id) >= 0 && after.trace()[j] == (Effect::Store {
            path,
            records: finished_log(
                loaded,
                id,
                when,
                after_map(trim_spec(vstd::utf8::decode_utf8(out)), saved),
            ),
        });
    assert(later.trace()[k] == after.trace()[k]);
    assert(later.reply(k) == after.reply(k));
    assert(later.trace()[j] == after.trace()[j]);
}

/// A paused switch stays recorded as the trace grows.
pub proof fn lemma_paused_later<R: GitRunner>(h: Host<R>, later: Host<R>, plan: QuickSwitchPlan)
    requires
        paused_at_pull(h, plan),
        grows(h, later),
    ensures
        paused_at_pull(later, plan),
{
    let j = choose|j: int|
        0 <= j < h.trace().len() && (#[trigger] h.trace()[j] matches Effect::Store { records, .. }
            && exists|loaded: Seq<OperationRecordView>, id: Seq<char>, snapshots: Map<Seq<char>, Seq<char>>|
            index_of_id(loaded, id) >= 0 && records == #[trigger] paused_log(
                loaded,
                id,
                phase_name(QuickSwitchPhase::PullFastForwardFailed),
                snapshots,
                switch_details_spec(plan),
            ));
    assert(later.trace()[j] == h.trace()[j]);
}

/// Finishing seen from further back is still finishing.
pub proof fn lemma_finished_after_earlier<R: GitRunner>(
    earlier: Host<R>,
    before: Host<R>,
    after: Host<R>,
    path: Seq<char>,
    id: Seq<char>,
    saved: Option<(Seq<char>, Seq<char>, Seq<char>)>,
)
    requires
        earlier.trace().len() <= before.trace().len(),
        finished_after(before, after, path, id, saved),
    ensures
        finished_after(earlier, after, path, id, saved),
{
    let k = choose|k: int|
        before.trace().len() <= k < after.trace().len() && #[trigger] after.trace()[k] == state::resolve_effect(
            "HEAD"@,
        ) && (after.reply(k) matches Some(out) && exists|j: int, loaded: Seq<OperationRecordView>, when: Seq<char>|
            #![trigger after.trace()[j], finished_log(loaded, id, when, after_map(trim_spec(vstd::utf8::decode_utf8(out)), saved))]
            k < j < after.trace().len() && index_of_id(loaded, id) >= 0 && after.trace()[j] == (Effect::Store {
                path,
                records: finished_log(
                    loaded,
                    id,
                    when,
                    after_map(trim_spec(vstd::utf8::decode_utf8(out)), saved),
                ),
            }));
    assert(earlier.trace().len() <= k);
}

fn prepare_tracked_changes<R: GitRunner>(runner: &mut Host<R>, switch_plan: &QuickSwitchPlan) -> (r: Result<
    TrackedPrep,
    SwitchError,
>)
    ensures
        r matches Err(e) ==> !(e is MissingSavedWork),
        grows(*old(runner), *final(runner)),
        r matches Err(e) ==> !(e is StalePlan),
        !switch_plan.has_tracked_changes ==> (r matches Ok(p) && p.saved_work is None
            && !p.carry_pushed),
        r matches Ok(p) ==> {
            &&& p.carry_pushed == (switch_plan.has_tracked_changes && switch_plan.carry_changes)
            &&& (p.saved_work is Some <==> switch_plan.has_tracked_changes
                && !switch_plan.carry_changes)
            &&& p.saved_work matches Some(s) ==> s.branch@ == switch_plan.source_branch@
                && s.reference@ == switch_plan.saved_work_reference@
        },
{
    prep::prepare_tracked(
        runner,
        TrackedSpec {
            source_branch: switch_plan.source_branch.as_str(),
            saved_work_reference: switch_plan.saved_work_reference.as_str(),
            has_tracked_changes: switch_plan.has_tracked_changes,
            carry_changes: switch_plan.carry_changes,
        },
    )
}

fn park_untracked<R: GitRunner>(runner: &mut Host<R>, switch_plan: &QuickSwitchPlan, operation_id: &str) -> (r: Result<
    Option<untracked::ParkRef>,
    SwitchError,
>)
    ensures
        r matches Err(e) ==> !(e is MissingSavedWork),
        grows(*old(runner), *final(runner)),
        r matches Err(e) ==> !(e is StalePlan),
        switch_plan.untracked_conflicts@.len() == 0 ==> (r matches Ok(p) && p is None),
        switch_plan.untracked_conflicts@.len() > 0 && r is Ok ==> (r matches Ok(p) && p matches Some(
            park) && park.reference@ == "refs/githelper/untracked-merge/"@ + operation_id@),
{
    if switch_plan.untracked_conflicts.len() == 0 {
        return Ok(None);
    }
    match untracked::park(runner, &switch_plan.untracked_conflicts, operation_id) {
        Ok(p) => Ok(Some(p)),
        Err(e) => Err(e),
    }
}

/// What a switch that paused at its pull tells the user.
pub open spec fn pull_pause_warning() -> Seq<char> {
    "Pull could not fast-forward. Choose how to update from the remote."@
}

/// The pull could not fast-forward: the carry is anchored on a ref of its own,
/// the log records the pause, and the user is asked how to go on.
fn pause_for_pull<R: GitRunner>(runner: &mut Host<R>, ctx: &SwitchCtx<'_>, prep: &SwitchPrep) -> (r: Result<
    QuickSwitchResult,
    SwitchError,
>)
    requires
        ctx.plan.pull_remote_ref is Some,
    ensures
        r matches Err(e) ==> !(e is MissingSavedWork),
        r is Ok ==> exists|loaded: Seq<OperationRecordView>|
            index_of_id(loaded, ctx.operation_id@) >= 0 && final(runner).trace().last() == (Effect::Store {
                path: ctx.oplog.path@,
                records: paused_log(
                    loaded,
                    ctx.operation_id@,
                    phase_name(QuickSwitchPhase::PullFastForwardFailed),
                    pause_map(
                        if prep.prepared.carry_pushed {
                            Some("refs/githelper/carry/"@ + ctx.operation_id@)
                        } else {
                            None
                        },
                        match prep.untracked_park {
                            Some(p) => Some(p.reference@),
                            None => None,
                        },
                    ),
                    switch_details_spec(*ctx.plan),
                ),
            }),
        r is Ok && prep.prepared.carry_pushed ==> exists|k: int, id: Seq<char>|
            old(runner).trace().len() <= k < final(runner).trace().len() && final(runner).trace()[k]
                == pull::anchor_effect("refs/githelper/carry/"@ + ctx.operation_id@, id),
        grows(*old(runner), *final(runner)),
        r matches Err(e) ==> !(e is StalePlan),
        r matches Ok(result) ==> result_fits_plan(result, *ctx.plan) && result.pull_decision_needed,
        r matches Ok(result) ==> {
            &&& result.pull_warning matches Some(w) && w@ == pull_pause_warning()
            &&& !result.pulled
            &&& result.carried_index is None
            &&& result.carry_warning is None
            &&& result.untracked_merge_warning is None
            &&& saved_view(result.saved_work) == saved_view(prep.prepared.saved_work)
            &&& saved_view(result.target_saved_work) == saved_view(ctx.plan.target_saved_work)
        },
{
    let ghost start = *runner;
    let carry_reference = if prep.prepared.carry_pushed {
        match pull::anchor_carry(runner, ctx.operation_id) {
            Ok(reference) => Some(reference),
            Err(e) => return Err(e),
        }
    } else {
        None
    };
    let ghost anchored = *runner;
    proof {
        if prep.prepared.carry_pushed {
            let k = start.trace().len() as int + 1;
            let out = anchored.reply(start.trace().len() as int)->Some_0;
            assert(anchored.trace()[k] == pull::anchor_effect(
                "refs/githelper/carry/"@ + ctx.operation_id@,
                crate::text::trim_spec(vstd::utf8::decode_utf8(out)),
            ));
        }
    }
    let untracked_merge = match &prep.untracked_park {
        Some(park) => Some(park.reference.clone()),
        None => None,
    };
    match record::mark_pull_failed(
        runner,
        ctx.oplog,
        ctx.operation_id,
        PullPauseSnapshots { carry: carry_reference, untracked_merge },
        ctx.plan,
    ) {
        Ok(()) => {},
        Err(e) => return Err(e),
    }
    proof {
        if prep.prepared.carry_pushed {
            let k = start.trace().len() as int + 1;
            assert(runner.trace()[k] == runner.trace().take(anchored.trace().len() as int)[k]);
        }
    }
    let warning = String::from_str("Pull could not fast-forward. Choose how to update from the remote.");
    proof {
        reveal_strlit("Pull could not fast-forward. Choose how to update from the remote.");
    }
    Ok(
        QuickSwitchResult {
            source_branch: ctx.plan.source_branch.clone(),
            target_branch: ctx.plan.target_branch.clone(),
            saved_work: duplicate_saved(&prep.prepared.saved_work),
            carried_index: None,
            carry_warning: None,
            target_saved_work: duplicate_saved(&ctx.plan.target_saved_work),
            pulled: false,
            pull_warning: Some(warning),
            pull_decision_needed: true,
            untracked_merge_warning: None,
        },
    )
}

/// Pops the carry, brings the parked untracked files back, and logs the refs
/// the switch left: `HEAD` and any Saved work it made.
fn finish_switch<R: GitRunner>(runner: &mut Host<R>, ctx: &SwitchCtx<'_>, prep: &SwitchPrep, pulled: bool) -> (r: Result<
    QuickSwitchResult,
    SwitchError,
>)
    requires
        pulled ==> ctx.plan.pull_remote_ref is Some,
        prep.prepared.carry_pushed ==> ctx.plan.has_tracked_changes && ctx.plan.carry_changes,
        prep.prepared.saved_work matches Some(s) ==> s.branch@ == ctx.plan.source_branch@,
    ensures
        r matches Err(e) ==> !(e is MissingSavedWork),
        r matches Ok(result) ==> finished_after(*old(runner), *final(runner), ctx.oplog.path@, ctx.operation_id@, saved_view(result.saved_work)),
        grows(*old(runner), *final(runner)),
        r matches Err(e) ==> !(e is StalePlan),
        r matches Ok(result) ==> result_fits_plan(result, *ctx.plan) && !result.pull_decision_needed
            && result.pulled == pulled,
        r matches Ok(result) ==> {
            &&& result.pull_warning is None
            &&& (result.carried_index is Some <==> prep.prepared.carry_pushed)
            &&& !prep.prepared.carry_pushed ==> result.carry_warning is None
            &&& prep.prepared.saved_work is Some ==> saved_view(result.saved_work) == saved_view(
                prep.prepared.saved_work,
            )
            &&& result.saved_work matches Some(s) ==> s.branch@ == ctx.plan.source_branch@
            &&& saved_view(result.target_saved_work) == saved_view(ctx.plan.target_saved_work)
            &&& prep.untracked_park is None ==> result.untracked_merge_warning is None
        },
{
    let source = CarrySource {
        branch: ctx.plan.source_branch.as_str(),
        saved_work_reference: ctx.plan.saved_work_reference.as_str(),
    };
    let carry = match carry::pop(runner, source, prep.prepared.carry_pushed) {
        Ok(c) => c,
        Err(e) => return Err(e),
    };
    let untracked_merge_warning = match &prep.untracked_park {
        Some(park) => match untracked::reapply(runner, park.reference.as_str()) {
            Ok(w) => w,
            Err(e) => return Err(e),
        },
        None => None,
    };
    let saved_work = match duplicate_saved(&prep.prepared.saved_work) {
        Some(s) => Some(s),
        None => carry.saved_work,
    };
    let ghost before_write = *runner;
    match write_after(runner, ctx.oplog, ctx.operation_id, &saved_work) {
        Ok(()) => {},
        Err(e) => return Err(e),
    }
    proof {
        assert(old(runner).trace().len() <= before_write.trace().len());
    }
    Ok(
        QuickSwitchResult {
            source_branch: ctx.plan.source_branch.clone(),
            target_branch: ctx.plan.target_branch.clone(),
            saved_work,
            carried_index: carry.carried_index,
            carry_warning: carry.warning,
            target_saved_work: duplicate_saved(&ctx.plan.target_saved_work),
            pulled,
            pull_warning: None,
            pull_decision_needed: false,
            untracked_merge_warning,
        },
    )
}

/// The refs a finished switch left: `HEAD`, and the Saved work ref if any.
pub fn after_refs(head: &str, saved_work: &Option<SavedWork>) -> (r: PathMap<String>)
    ensures
        saved_work is None ==> r.map() == Map::<Seq<char>, Seq<char>>::empty().insert("HEAD"@, head@),
        saved_work matches Some(s) ==> r.map() == Map::<Seq<char>, Seq<char>>::empty().insert(
            "HEAD"@,
            head@,
        ).insert(s.reference@, s.snapshot@),
{
    let mut after: PathMap<String> = PathMap::new();
    after.insert(String::from_str("HEAD"), String::from_str(head));
    match saved_work {
        Some(s) => after.insert(s.reference.clone(), String::from_str(s.snapshot.as_str())),
        None => {},
    }
    after
}

/// Reads `HEAD` and marks the record `operation_id` finished with the refs the
/// switch left: that `HEAD` and the Saved work, if any.
pub(crate) fn write_after<R: GitRunner>(
    runner: &mut Host<R>,
    oplog: &Oplog,
    operation_id: &str,
    saved_work: &Option<SavedWork>,
) -> (r: Result<
    (),
    SwitchError,
>)
    ensures
        r matches Err(e) ==> !(e is MissingSavedWork),
        grows(*old(runner), *final(runner)),
        r matches Err(e) ==> !(e is StalePlan),
        r is Ok ==> finished_after(*old(runner), *final(runner), oplog.path@, operation_id@, saved_view(*saved_work)),
{
    let ghost h0 = *runner;
    let head = match state::read_id(runner, "HEAD") {
        Ok(id) => id,
        Err(e) => return Err(e),
    };
    let ghost h1 = *runner;
    proof {
        reveal_strlit("HEAD");
    }
    let after = after_refs(head.as_str(), saved_work);
    assert(after.map() == after_map(head@, saved_view(*saved_work)));
    let r = oplog.finish(runner, operation_id, after);
    proof {
        if r is Ok {
            let k = h0.trace().len() as int;
            let out = h1.reply(k)->Some_0;
            let (mid, loaded, when) = choose|mid: Seq<Effect>, loaded: Seq<OperationRecordView>, when: Seq<char>|
                read_log(h1.trace(), mid, oplog.path@, loaded) && index_of_id(loaded, operation_id@) >= 0
                    && runner.trace() == mid.push(Effect::Clock { time: when }).push(
                    Effect::Store {
                        path: oplog.path@,
                        records: finished_log(loaded, operation_id@, when, after_map(head@, saved_view(*saved_work))),
                    },
                );
            assert(runner.trace()[k] == runner.trace().take(h1.trace().len() as int)[k]);
            assert(runner.reply(k) == h1.reply(k));
            assert(state::id_read(out, head@));
            let j = runner.trace().len() - 1;
            assert(runner.trace()[j] == Effect::Store {
                path: oplog.path@,
                records: finished_log(
                    loaded,
                    operation_id@,
                    when,
                    after_map(trim_spec(vstd::utf8::decode_utf8(out)), saved_view(*saved_work)),
                ),
            });
        }
    }
    match r {
        Ok(()) => Ok(()),
        Err(e) => Err(SwitchError::Recording(e.message())),
    }
}

/// The refs a finished switch leaves: `HEAD`, and the Saved work ref if any.
pub open spec fn after_map(head: Seq<char>, saved: Option<(Seq<char>, Seq<char>, Seq<char>)>) -> Map<
    Seq<char>,
    Seq<char>,
> {
    match saved {
        Some((_, reference, snapshot)) => Map::<Seq<char>, Seq<char>>::empty().insert("HEAD"@, head).insert(
            reference,
            snapshot,
        ),
        None => Map::<Seq<char>, Seq<char>>::empty().insert("HEAD"@, head),
    }
}

/// From `before` to `after`, `HEAD` was read, and the record `id` was then
/// finished with the refs the switch left: that `HEAD` and the Saved work.
pub open spec fn finished_after<R: GitRunner>(
    before: Host<R>,
    after: Host<R>,
    path: Seq<char>,
    id: Seq<char>,
    saved: Option<(Seq<char>, Seq<char>, Seq<char>)>,
) -> bool {
    exists|k: int|
        before.trace().len() <= k < after.trace().len() && #[trigger] after.trace()[k] == state::resolve_effect(
            "HEAD"@,
        ) && (after.reply(k) matches Some(out) && exists|j: int, loaded: Seq<OperationRecordView>, when: Seq<char>|
            #![trigger after.trace()[j], finished_log(loaded, id, when, after_map(trim_spec(vstd::utf8::decode_utf8(out)), saved))]
            k < j < after.trace().len() && index_of_id(loaded, id) >= 0 && after.trace()[j] == (Effect::Store {
                path,
                records: finished_log(
                    loaded,
                    id,
                    when,
                    after_map(trim_spec(vstd::utf8::decode_utf8(out)), saved),
                ),
            }))
}

} // verus!
