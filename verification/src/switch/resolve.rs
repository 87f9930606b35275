//! Going on after a switch whose pull could not fast-forward.
use vstd::prelude::*;

use crate::host::grows;

use crate::host::{Effect, Host};

use crate::git::{join_path, GitRunner};
use crate::recording::oplog::{finished_log, index_of_id, read_log, single_entry, OperationRecordView, Oplog};
use crate::text::concat3;

use super::errors::SwitchError;
use super::model::{PullResolution, QuickSwitchPhase, QuickSwitchResult, QuickSwitchStatus};
use super::record::{decision_of, paused_switch};
use super::{pull, record, state};

verus! {

broadcast use crate::host::lemma_grows_chain, crate::host::lemma_grows_none, crate::host::lemma_grows_trace,
    crate::host::lemma_grows_reply;

/// The switch waiting for a pull decision, if one is.
/// `st` reports the paused record `rec`: its id, target, remote and carry.
pub open spec fn status_of(st: QuickSwitchStatus, rec: OperationRecordView) -> bool {
    &&& st.operation_id@ == rec.id
    &&& st.target_branch@ == rec.details["target_branch"@]
    &&& st.remote_ref@ == rec.details["remote_ref"@]
    &&& (rec.snapshots.dom().contains("carry"@) <==> st.carry_reference is Some)
    &&& (st.carry_reference matches Some(c) ==> c@ == rec.snapshots["carry"@])
}

pub(crate) fn status<R: GitRunner>(runner: &mut Host<R>) -> (r: Result<Option<QuickSwitchStatus>, SwitchError>)
    ensures
        r matches Ok(found) ==> exists|dir: Seq<char>, loaded: Seq<OperationRecordView>|
            read_log(
                old(runner).trace().push(Effect::Setting),
                final(runner).trace(),
                crate::recording::recovery::log_path(dir),
                loaded,
            ) && (found is Some <==> paused_switch(loaded) is Some) && (found matches Some(st) ==> status_of(
                st,
                paused_switch(loaded)->Some_0,
            )),
        r matches Err(e) ==> !(e is MissingSavedWork),
        grows(*old(runner), *final(runner)),
        r matches Err(e) ==> !(e is StalePlan),
        r matches Ok(Some(s)) ==> s.phase == QuickSwitchPhase::PullFastForwardFailed,
{
    let git_dir = match runner.git_dir() {
        Ok(d) => d,
        Err(e) => return Err(SwitchError::Git(e)),
    };
    let oplog = Oplog::open_existing(git_dir.as_str());
    assert(oplog.path@ == crate::recording::recovery::log_path(git_dir@));
    match record::active_pull_decision(runner, &oplog) {
        Ok(Some(context)) => Ok(
            Some(
                QuickSwitchStatus {
                    operation_id: context.id,
                    target_branch: context.target_branch,
                    remote_ref: context.remote_ref,
                    phase: QuickSwitchPhase::PullFastForwardFailed,
                    carry_reference: context.carry_reference,
                },
            ),
        ),
        Ok(None) => Ok(None),
        Err(e) => Err(e),
    }
}

/// Carries out the user's choice for the paused switch and finishes it.
pub(crate) fn resolve<R: GitRunner>(runner: &mut Host<R>, resolution: PullResolution) -> (r: Result<
    QuickSwitchResult,
    SwitchError,
>)
    ensures
        r matches Err(e) ==> !(e is MissingSavedWork),
        r matches Ok(result) ==> exists|k: int|
            old(runner).trace().len() <= k < final(runner).trace().len() && (#[trigger] final(runner).trace()[k] matches Effect::Load {
                loaded: Some(loaded),
                ..
            } && (paused_switch(loaded) matches Some(rec) && result.target_branch@
                == rec.details["target_branch"@] && (final(runner).trace().last() matches Effect::Store {
                records,
                ..
            } && exists|loaded2: Seq<OperationRecordView>, when: Seq<char>, head: Seq<char>|
                records == #[trigger] finished_log(
                    loaded2,
                    rec.id,
                    when,
                    Map::<Seq<char>, Seq<char>>::empty().insert("HEAD"@, head),
                )))),
        grows(*old(runner), *final(runner)),
        r matches Err(e) ==> !(e is StalePlan),
        r matches Ok(result) ==> {
            &&& !result.pull_decision_needed
            &&& result.saved_work is None
            &&& result.target_saved_work is None
            &&& resolution == PullResolution::Cancel ==> !result.pulled && result.pull_warning is None
            &&& resolution == PullResolution::ReplaceWithRemote ==> result.pulled
        },
{
    let git_dir = match runner.git_dir() {
        Ok(d) => d,
        Err(e) => return Err(SwitchError::Git(e)),
    };
    let oplog = match Oplog::open(runner, git_dir.as_str()) {
        Ok(o) => o,
        Err(e) => return Err(SwitchError::Recording(e.message())),
    };
    let ghost before_log = *runner;
    let context = match record::active_pull_decision(runner, &oplog) {
        Ok(Some(c)) => c,
        Ok(None) => {
            return Err(
                SwitchError::InvalidState(String::from_str("no interrupted quick switch pull exists")),
            );
        },
        Err(e) => return Err(e),
    };
    let ghost after_log = *runner;
    let ghost k = before_log.trace().len() as int + 1;
    let ghost rec = {
        let loaded = choose|loaded: Seq<OperationRecordView>|
            read_log(before_log.trace(), after_log.trace(), oplog.path@, loaded) && paused_switch(loaded)
                is Some && decision_of(context, paused_switch(loaded)->Some_0);
        paused_switch(loaded)->Some_0
    };
    proof {
        let loaded = choose|loaded: Seq<OperationRecordView>|
            read_log(before_log.trace(), after_log.trace(), oplog.path@, loaded) && paused_switch(loaded)
                is Some && decision_of(context, paused_switch(loaded)->Some_0);
        crate::recording::oplog::lemma_active_in_range(loaded, "quick-switch"@);
        assert(loaded.len() > 0);
        assert(after_log.trace()[k] == Effect::Load { path: oplog.path@, loaded: Some(loaded) });
    }
    let branch = match state::read_branch(runner) {
        Ok(b) => b,
        Err(e) => return Err(e),
    };
    if !crate::order::str_eq(branch.as_str(), context.target_branch.as_str()) {
        return Err(
            SwitchError::InvalidState(
                String::from_str("the branch changed after the pull was interrupted"),
            ),
        );
    }
    let (pulled, pull_warning) = match apply_resolution(runner, resolution, context.remote_ref.as_str()) {
        Ok(p) => p,
        Err(e) => return Err(e),
    };
    let carry_arg: Option<&str> = match &context.carry_reference {
        Some(c) => Some(c.as_str()),
        None => None,
    };
    let (carried_index, carry_warning) = match reapply_carry(runner, carry_arg) {
        Ok(p) => p,
        Err(e) => return Err(e),
    };
    let head = match state::read_id(runner, "HEAD") {
        Ok(id) => id,
        Err(e) => return Err(e),
    };
    let ghost before_finish = *runner;
    let got = oplog.finish(runner, context.id.as_str(), single_entry("HEAD", head.as_str()));
    match got {
        Ok(()) => {},
        Err(e) => return Err(SwitchError::Recording(e.message())),
    }
    proof {
        reveal_strlit("HEAD");
        let loaded = choose|loaded: Seq<OperationRecordView>|
            read_log(before_log.trace(), after_log.trace(), oplog.path@, loaded) && paused_switch(loaded)
                is Some && decision_of(context, paused_switch(loaded)->Some_0);
        assert(runner.trace()[k] == runner.trace().take(after_log.trace().len() as int)[k]);
        let (mid, loaded2, when) = choose|mid: Seq<Effect>, loaded2: Seq<OperationRecordView>, when: Seq<char>|
            read_log(before_finish.trace(), mid, oplog.path@, loaded2) && index_of_id(loaded2, context.id@) >= 0
                && runner.trace() == mid.push(Effect::Clock { time: when }).push(
                Effect::Store {
                    path: oplog.path@,
                    records: finished_log(
                        loaded2,
                        context.id@,
                        when,
                        Map::<Seq<char>, Seq<char>>::empty().insert("HEAD"@, head@),
                    ),
                },
            );
        assert(runner.trace().last() == Effect::Store {
            path: oplog.path@,
            records: finished_log(
                loaded2,
                rec.id,
                when,
                Map::<Seq<char>, Seq<char>>::empty().insert("HEAD"@, head@),
            ),
        });
    }
    Ok(
        QuickSwitchResult {
            source_branch: context.source_branch,
            target_branch: context.target_branch,
            saved_work: None,
            carried_index,
            carry_warning,
            target_saved_work: None,
            pulled,
            pull_warning,
            pull_decision_needed: false,
            untracked_merge_warning: None,
        },
    )
}

pub open spec fn merge_conflict_warning() -> Seq<char> {
    "Merge pull left conflicts. Resolve them in the working tree, then continue your work."@
}

/// Cancel leaves the branch as it is; replace takes the remote's commit; merge
/// pulls with a merge that may stop in conflicts.
pub(crate) fn apply_resolution<R: GitRunner>(runner: &mut Host<R>, resolution: PullResolution, remote_ref: &str) -> (r: Result<
    (bool, Option<String>),
    SwitchError,
>)
    ensures
        r matches Err(e) ==> !(e is MissingSavedWork),
        grows(*old(runner), *final(runner)),
        r matches Err(e) ==> !(e is StalePlan),
        resolution == PullResolution::Cancel ==> (r matches Ok(p) && !p.0 && p.1 is None),
        resolution == PullResolution::ReplaceWithRemote ==> (r matches Ok(p) ==> p.0 && p.1 is None),
        resolution == PullResolution::MergePull ==> (r matches Ok(p) ==> (p.0 <==> p.1 is None) && (p.1 matches Some(
            w,
        ) ==> w@ == merge_conflict_warning())),
        resolution == PullResolution::Cancel ==> final(runner).trace() == old(runner).trace(),
        resolution == PullResolution::ReplaceWithRemote ==> final(runner).trace() == old(runner).trace().push(
            pull::reset_to_effect(remote_ref@),
        ) && (r is Ok <==> final(runner).reply(old(runner).trace().len() as int) is Some),
        resolution == PullResolution::MergePull ==> (pull::remote_parts_spec(remote_ref@) matches Some((remote, branch)) ==> final(runner).trace()
            == old(runner).trace().push(pull::merge_pull_effect(remote, branch)) && (r matches Ok(p) ==> (p.0
            <==> final(runner).reply(old(runner).trace().len() as int) is Some))),
{
    match resolution {
        PullResolution::Cancel => Ok((false, None)),
        PullResolution::ReplaceWithRemote => match pull::replace_with_remote(runner, remote_ref) {
            Ok(()) => Ok((true, None)),
            Err(e) => Err(e),
        },
        PullResolution::MergePull => match pull::merge_pull(runner, remote_ref) {
            Ok(true) => Ok((true, None)),
            Ok(false) => Ok(
                (
                    false,
                    Some(
                        String::from_str(
                            "Merge pull left conflicts. Resolve them in the working tree, then continue your work.",
                        ),
                    ),
                ),
            ),
            Err(e) => Err(e),
        },
    }
}

/// Puts the anchored carry back, unless a merge is still stopped in conflicts:
/// applying over `MERGE_HEAD` is unsafe, so the carry then stays anchored.
fn reapply_carry<R: GitRunner>(runner: &mut Host<R>, carry_reference: Option<&str>) -> (r: Result<
    (Option<bool>, Option<String>),
    SwitchError,
>)
    ensures
        r matches Err(e) ==> !(e is MissingSavedWork),
        grows(*old(runner), *final(runner)),
        r matches Err(e) ==> !(e is StalePlan),
        carry_reference is None ==> (r matches Ok(p) && p.0 is None && p.1 is None),
        r matches Ok(p) && p.0 is Some ==> carry_reference is Some,
        r matches Ok((None, Some(w))) ==> (carry_reference matches Some(c) && w@
            == "Carried changes remain at "@ + c@ + " until the merge conflicts are resolved."@),
{
    let reference = match carry_reference {
        Some(r) => r,
        None => return Ok((None, None)),
    };
    match state::optional_id(runner, reference) {
        Ok(Some(_)) => {},
        Ok(None) => return Ok((None, None)),
        Err(e) => return Err(e),
    }
    let merging = match merge_in_progress(runner) {
        Ok(b) => b,
        Err(e) => return Err(e),
    };
    if merging {
        return Ok(
            (
                None,
                Some(
                    concat3(
                        "Carried changes remain at ",
                        reference,
                        " until the merge conflicts are resolved.",
                    ),
                ),
            ),
        );
    }
    match pull::apply_carry_ref(runner, reference) {
        Ok((indexed, warning)) => Ok((Some(indexed), warning)),
        Err(e) => Err(e),
    }
}

fn merge_in_progress<R: GitRunner>(runner: &mut Host<R>) -> (r: Result<bool, SwitchError>)
    ensures
        r matches Err(e) ==> !(e is MissingSavedWork),
        grows(*old(runner), *final(runner)),
        r matches Err(e) ==> !(e is StalePlan),
{
    let git_dir = match runner.git_dir() {
        Ok(d) => d,
        Err(e) => return Err(SwitchError::Git(e)),
    };
    if runner.path_exists(join_path(git_dir.as_str(), "MERGE_HEAD").as_str()) {
        return Ok(true);
    }
    match state::optional_id(runner, "MERGE_HEAD") {
        Ok(id) => Ok(id.is_some()),
        Err(e) => Err(e),
    }
}

} // verus!
