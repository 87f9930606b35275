//! Planning a quick switch, and listing Saved work.
use vstd::prelude::*;

use crate::host::{
    asked, grows, lemma_asked_grows, lemma_asked_last, lemma_grows_chain, lemma_grows_none, lemma_reads_chain,
    lemma_reads_none, reads_only, Effect, Host,
};

use crate::git::{command_args, GitCommand, GitRunner};
use crate::order::str_eq;
use crate::rewrite::ObjectId;
use crate::split::state::plainly_invalid_branch;
use crate::text::{
    concat3, join, join_spec, nonempty_spec, same_strings, split_nonempty, split_spec,
    strip_prefix, starts_with_spec, views,
};

use super::errors::SwitchError;
use super::model::{QuickSwitchPlan, QuickSwitchRequest, SavedWork};
use super::preflight::{self, classify_spec, untracked_spec};
use super::state::{self, remote_tracking_spec, wip_prefix, wip_prefix_str};

verus! {

broadcast use crate::host::lemma_grows_chain, crate::host::lemma_grows_none, crate::host::lemma_grows_trace,
    crate::host::lemma_grows_reply;

pub open spec fn opt_str(o: Option<String>) -> Option<Seq<char>> {
    match o {
        Some(s) => Some(s@),
        None => None,
    }
}

/// What a plan made from `request` promises, whatever the repository held.
pub open spec fn plan_fits_request(plan: QuickSwitchPlan, request: QuickSwitchRequest) -> bool {
    &&& plan.target_branch@ == request.target_branch@
    &&& !plainly_invalid_branch(request.target_branch@)
    &&& plan.source_branch@ != plan.target_branch@
    &&& plan.carry_changes == request.carry_changes
    &&& plan.pull_after_switch == request.pull_after_switch
    &&& plan.saved_work_reference@ == wip_prefix() + plan.source_branch@
    &&& match request.create_from_remote {
        Some(remote) => remote_tracking_spec(remote@) is Some && opt_str(plan.create_from_remote)
            == remote_tracking_spec(remote@),
        None => plan.create_from_remote is None,
    }
    &&& !request.pull_after_switch ==> plan.pull_remote_ref is None
    &&& request.pull_after_switch && plan.create_from_remote is Some ==> opt_str(plan.pull_remote_ref)
        == opt_str(plan.create_from_remote)
    &&& plan.untracked_conflicts@.len() > 0 ==> request.merge_untracked
    &&& plan.target_saved_work matches Some(s) ==> s.branch@ == plan.target_branch@ && s.reference@
        == wip_prefix() + plan.target_branch@
}

/// The tree whose files a quick switch checks the untracked files against:
/// the remote branch it creates the target from, or the target branch.
pub open spec fn plan_tree(plan: QuickSwitchPlan) -> Seq<char> {
    match plan.create_from_remote {
        Some(remote) => remote@,
        None => "refs/heads/"@ + plan.target_branch@,
    }
}

/// From index `from` of `h` on, Git listed the untracked files and, where
/// there were some, the files of `tree`: no untracked file clashes with those
/// as a directory, and `conflicts` are the untracked files `tree` has too.
pub open spec fn untracked_checked<R: GitRunner>(h: Host<R>, from: int, tree: Seq<char>, conflicts: Seq<Seq<char>>) -> bool {
    exists|o: Seq<u8>|
        asked(h, from, preflight::untracked_effect(), Some(o)) && (untracked_spec(split_spec(o, 0)) matches Some(
            u,
        ) && exists|targets: Seq<Seq<char>>|
            conflicts == (#[trigger] classify_spec(u, targets)).0 && classify_spec(u, targets).1.len() == 0 && (u.len()
                > 0 ==> preflight::targets_listed(h, from, tree, targets)))
}

/// What was read stays read as the host grows, and from any earlier index.
pub proof fn lemma_untracked_checked_grows<R: GitRunner>(
    h: Host<R>,
    h2: Host<R>,
    from: int,
    later: int,
    tree: Seq<char>,
    conflicts: Seq<Seq<char>>,
)
    requires
        untracked_checked(h, later, tree, conflicts),
        grows(h, h2),
        0 <= from <= later,
    ensures
        untracked_checked(h2, from, tree, conflicts),
{
    let o = choose|o: Seq<u8>|
        asked(h, later, preflight::untracked_effect(), Some(o)) && (untracked_spec(split_spec(o, 0)) matches Some(
            u,
        ) && exists|targets: Seq<Seq<char>>|
            conflicts == (#[trigger] classify_spec(u, targets)).0 && classify_spec(u, targets).1.len() == 0 && (u.len()
                > 0 ==> preflight::targets_listed(h, later, tree, targets)));
    let k = choose|k: int|
        0 <= later <= k < h.trace().len() && h.trace()[k] == preflight::untracked_effect() && #[trigger] h.reply(k) == Some(o);
    assert(h2.trace()[k] == h2.trace().take(h.trace().len() as int)[k]);
    assert(h2.reply(k) == h.reply(k));
    assert(asked(h2, from, preflight::untracked_effect(), Some(o)));
    let u = untracked_spec(split_spec(o, 0))->Some_0;
    let t = choose|targets: Seq<Seq<char>>|
        conflicts == (#[trigger] classify_spec(u, targets)).0 && classify_spec(u, targets).1.len() == 0 && (u.len()
            > 0 ==> preflight::targets_listed(h, later, tree, targets));
    if u.len() > 0 {
        preflight::lemma_targets_listed_grows(h, h2, from, later, tree, t);
    }
}

pub(crate) fn create<R: GitRunner>(runner: &mut Host<R>, request: QuickSwitchRequest) -> (r: Result<
    QuickSwitchPlan,
    SwitchError,
>)
    ensures
        r matches Err(e) ==> !(e is MissingSavedWork),
        plainly_invalid_branch(request.target_branch@) ==> final(runner).trace() == old(runner).trace(),
        r matches Err(e) ==> !(e is StalePlan),
        plainly_invalid_branch(request.target_branch@) ==> (r matches Err(
            SwitchError::InvalidState(m),
        ) && m@ == "invalid branch name: "@ + request.target_branch@),
        r matches Ok(plan) ==> plan_fits_request(plan, request),
        r matches Ok(plan) ==> untracked_checked(
            *final(runner),
            old(runner).trace().len() as int,
            plan_tree(plan),
            plan.untracked_conflicts.deep_view(),
        ),
{
    match state::validate_branch_name(runner, request.target_branch.as_str()) {
        Ok(()) => {},
        Err(e) => return Err(e),
    }
    match state::ensure_no_operation(runner) {
        Ok(()) => {},
        Err(e) => return Err(e),
    }
    let source_branch = match state::read_branch(runner) {
        Ok(b) => b,
        Err(e) => return Err(e),
    };
    if str_eq(source_branch.as_str(), request.target_branch.as_str()) {
        return Err(SwitchError::InvalidState(String::from_str("target branch is already checked out")));
    }
    let source_head = match state::read_id(runner, "HEAD") {
        Ok(id) => id,
        Err(e) => return Err(e),
    };
    let remote_arg: Option<&str> = match &request.create_from_remote {
        Some(r) => Some(r.as_str()),
        None => None,
    };
    let (target_head, create_from_remote) = match resolve_target(
        runner,
        request.target_branch.as_str(),
        remote_arg,
    ) {
        Ok(p) => p,
        Err(e) => return Err(e),
    };
    let saved_work_reference = state::wip_ref(source_branch.as_str());
    if !request.carry_changes {
        match state::optional_id(runner, saved_work_reference.as_str()) {
            Ok(Some(_)) => return Err(SwitchError::ExistingSavedWork(source_branch)),
            Ok(None) => {},
            Err(e) => return Err(e),
        }
    }
    let ghost before_untracked = *runner;
    let untracked = match preflight::read_untracked(runner) {
        Ok(u) => u,
        Err(e) => return Err(e),
    };
    let ghost read_u = *runner;
    let tree_ref = match &create_from_remote {
        Some(remote) => remote.clone(),
        None => state::branch_ref(request.target_branch.as_str()),
    };
    let untracked_conflicts = match resolve_untracked_conflicts(
        runner,
        UntrackedInput { tree_ref: tree_ref.as_str(), paths: &untracked, merge: request.merge_untracked },
    ) {
        Ok(c) => c,
        Err(e) => return Err(e),
    };
    let ghost checked = *runner;
    proof {
        let from = before_untracked.trace().len() as int;
        lemma_asked_last(read_u, from, preflight::untracked_effect());
        lemma_asked_grows(read_u, checked, from, preflight::untracked_effect(), read_u.reply(from));
        let o = read_u.reply(from)->Some_0;
        assert(untracked_spec(split_spec(o, 0)) == Some(untracked.deep_view()));
        let t = choose|targets: Seq<Seq<char>>|
            untracked_conflicts.deep_view() == (#[trigger] classify_spec(untracked.deep_view(), targets)).0
                && classify_spec(untracked.deep_view(), targets).1.len() == 0 && (untracked@.len() > 0
                ==> preflight::targets_listed(checked, read_u.trace().len() as int, tree_ref@, targets));
        if untracked@.len() > 0 {
            preflight::lemma_targets_listed_grows(checked, checked, from, read_u.trace().len() as int, tree_ref@, t);
        }
        assert(read_u.reply(from) == Some(o));
        assert(asked(checked, from, preflight::untracked_effect(), Some(o)));
        assert(untracked_conflicts.deep_view() == classify_spec(untracked.deep_view(), t).0
            && classify_spec(untracked.deep_view(), t).1.len() == 0 && (untracked.deep_view().len() > 0
            ==> preflight::targets_listed(checked, from, tree_ref@, t)));
        let u = untracked_spec(split_spec(o, 0))->Some_0;
        assert(u == untracked.deep_view());
        assert(untracked_conflicts.deep_view() == classify_spec(u, t).0 && classify_spec(u, t).1.len() == 0 && (u.len()
            > 0 ==> preflight::targets_listed(checked, from, tree_ref@, t)));
        assert(untracked_checked(checked, from, tree_ref@, untracked_conflicts.deep_view()));
    }
    let pull_remote_ref = if request.pull_after_switch {
        let created: Option<&str> = match &create_from_remote {
            Some(r) => Some(r.as_str()),
            None => None,
        };
        match resolve_pull_remote(runner, request.target_branch.as_str(), created) {
            Ok(p) => p,
            Err(e) => return Err(e),
        }
    } else {
        None
    };
    let target_saved_work = match read_saved_work(runner, request.target_branch.as_str()) {
        Ok(s) => s,
        Err(e) => return Err(e),
    };
    let has_tracked_changes = match state::read_tracked_changes(runner) {
        Ok(b) => b,
        Err(e) => return Err(e),
    };
    proof {
        lemma_untracked_checked_grows(
            checked,
            *runner,
            old(runner).trace().len() as int,
            before_untracked.trace().len() as int,
            tree_ref@,
            untracked_conflicts.deep_view(),
        );
    }
    Ok(
        QuickSwitchPlan {
            source_branch,
            source_head,
            target_branch: request.target_branch,
            target_head,
            saved_work_reference,
            has_tracked_changes,
            carry_changes: request.carry_changes,
            pull_after_switch: request.pull_after_switch,
            create_from_remote,
            pull_remote_ref,
            target_saved_work,
            untracked_conflicts,
        },
    )
}

/// What a quick switch reads of the repository before it runs.
pub struct CurrentSwitchState {
    /// The branch `HEAD` is on.
    pub branch: String,
    pub head: ObjectId,
    /// The commit the target resolves to, when it resolves.
    pub target: Option<ObjectId>,
    /// Whether the source branch has Saved work; only asked when changes are not carried.
    pub saved_work_exists: bool,
    pub has_tracked_changes: bool,
    /// The untracked files the target also has, as the plan would list them now.
    pub untracked_conflicts: Vec<String>,
}

/// The repository is where the plan found it: same branch and `HEAD`, the
/// target at the same commit, the same tracked changes and the same untracked
/// files in the way.
pub open spec fn switch_state_matches(state: CurrentSwitchState, plan: QuickSwitchPlan) -> bool {
    &&& state.branch@ == plan.source_branch@
    &&& state.head@ == plan.source_head@
    &&& state.target matches Some(t) && t@ == plan.target_head@
    &&& state.has_tracked_changes == plan.has_tracked_changes
    &&& state.untracked_conflicts.deep_view() == plan.untracked_conflicts.deep_view()
}

/// The verdict on a plan, given what was read: it runs only where the
/// repository still matches it and, unless changes are carried, the source
/// branch has no Saved work yet.
pub fn check_current(state: &CurrentSwitchState, plan: &QuickSwitchPlan) -> (r: Result<(), SwitchError>)
    ensures
        r is Ok <==> switch_state_matches(*state, *plan) && (plan.carry_changes
            || !state.saved_work_exists),
        r matches Err(e) ==> e is StalePlan || e is ExistingSavedWork,
        r matches Err(SwitchError::StalePlan) ==> !switch_state_matches(*state, *plan),
        r matches Err(SwitchError::ExistingSavedWork(b)) ==> {
            &&& !plan.carry_changes && state.saved_work_exists
            &&& b@ == plan.source_branch@
            &&& state.branch@ == plan.source_branch@ && state.head@ == plan.source_head@
            &&& state.target matches Some(t) && t@ == plan.target_head@
        },
{
    if !str_eq(state.branch.as_str(), plan.source_branch.as_str()) || !state.head.same(
        &plan.source_head,
    ) {
        return Err(SwitchError::StalePlan);
    }
    let target_matches = match &state.target {
        Some(id) => id.same(&plan.target_head),
        None => false,
    };
    if !target_matches {
        return Err(SwitchError::StalePlan);
    }
    if !plan.carry_changes && state.saved_work_exists {
        return Err(SwitchError::ExistingSavedWork(plan.source_branch.clone()));
    }
    if state.has_tracked_changes != plan.has_tracked_changes || !same_strings(
        &state.untracked_conflicts,
        &plan.untracked_conflicts,
    ) {
        return Err(SwitchError::StalePlan);
    }
    Ok(())
}

/// `state` is what a quick switch read from index `from` on: each field is
/// what Git answered to the command that asks for it.
pub open spec fn switch_state_read<R: GitRunner>(h: Host<R>, from: int, plan: QuickSwitchPlan, state: CurrentSwitchState) -> bool {
    &&& exists|o: Seq<u8>| asked(h, from, state::branch_effect(), Some(o)) && state::branch_read(o, state.branch@)
    &&& exists|o: Seq<u8>| asked(h, from, state::resolve_effect("HEAD"@), Some(o)) && state::id_read(o, state.head@)
    &&& match plan.create_from_remote {
        Some(remote) => match state.target {
            Some(t) => exists|o: Seq<u8>|
                asked(h, from, state::resolve_effect(remote@), Some(o)) && state::id_read(o, t@),
            None => asked(h, from, state::resolve_effect(remote@), None),
        },
        None => state.target matches Some(t) && exists|o: Seq<u8>|
            asked(h, from, state::resolve_effect("refs/heads/"@ + plan.target_branch@), Some(o))
                && state::id_read(o, t@),
    }
    &&& !plan.carry_changes ==> exists|a: Option<Seq<u8>>|
        asked(h, from, state::resolve_effect(plan.saved_work_reference@), a) && (state.saved_work_exists
            <==> a is Some)
    &&& plan.carry_changes ==> !state.saved_work_exists
    &&& exists|o: Seq<u8>|
        asked(h, from, state::tracked_effect(), Some(o)) && state.has_tracked_changes == (nonempty_spec(
            split_spec(o, 0),
        ).len() > 0)
    &&& exists|o: Seq<u8>|
        asked(h, from, preflight::untracked_effect(), Some(o)) && (untracked_spec(split_spec(o, 0)) matches Some(
            u,
        ) && exists|targets: Seq<Seq<char>>|
            state.untracked_conflicts.deep_view() == (#[trigger] classify_spec(u, targets)).0)
}

/// What was read stays read as the host grows.
pub proof fn lemma_state_read_grows<R: GitRunner>(h: Host<R>, h2: Host<R>, from: int, plan: QuickSwitchPlan, state: CurrentSwitchState)
    requires
        switch_state_read(h, from, plan, state),
        grows(h, h2),
    ensures
        switch_state_read(h2, from, plan, state),
{
    let o1 = choose|o: Seq<u8>| asked(h, from, state::branch_effect(), Some(o)) && state::branch_read(o, state.branch@);
    lemma_asked_grows(h, h2, from, state::branch_effect(), Some(o1));
    let o2 = choose|o: Seq<u8>| asked(h, from, state::resolve_effect("HEAD"@), Some(o)) && state::id_read(o, state.head@);
    lemma_asked_grows(h, h2, from, state::resolve_effect("HEAD"@), Some(o2));
    match plan.create_from_remote {
        Some(remote) => match state.target {
            Some(t) => {
                let o3 = choose|o: Seq<u8>| asked(h, from, state::resolve_effect(remote@), Some(o)) && state::id_read(o, t@);
                lemma_asked_grows(h, h2, from, state::resolve_effect(remote@), Some(o3));
            },
            None => {
                lemma_asked_grows(h, h2, from, state::resolve_effect(remote@), None);
            },
        },
        None => {
            let t = state.target->Some_0;
            let o3 = choose|o: Seq<u8>|
                asked(h, from, state::resolve_effect("refs/heads/"@ + plan.target_branch@), Some(o)) && state::id_read(o, t@);
            lemma_asked_grows(h, h2, from, state::resolve_effect("refs/heads/"@ + plan.target_branch@), Some(o3));
        },
    }
    if !plan.carry_changes {
        let a = choose|a: Option<Seq<u8>>|
            asked(h, from, state::resolve_effect(plan.saved_work_reference@), a) && (state.saved_work_exists <==> a is Some);
        lemma_asked_grows(h, h2, from, state::resolve_effect(plan.saved_work_reference@), a);
    }
    let o5 = choose|o: Seq<u8>|
        asked(h, from, state::tracked_effect(), Some(o)) && state.has_tracked_changes == (nonempty_spec(split_spec(o, 0)).len() > 0);
    lemma_asked_grows(h, h2, from, state::tracked_effect(), Some(o5));
    let o6 = choose|o: Seq<u8>|
        asked(h, from, preflight::untracked_effect(), Some(o)) && (untracked_spec(split_spec(o, 0)) matches Some(
            u,
        ) && exists|targets: Seq<Seq<char>>|
            state.untracked_conflicts.deep_view() == (#[trigger] classify_spec(u, targets)).0);
    lemma_asked_grows(h, h2, from, preflight::untracked_effect(), Some(o6));
}

/// A plan that held on what was read: the state read matches it.
pub open spec fn plan_held<R: GitRunner>(h: Host<R>, from: int, plan: QuickSwitchPlan) -> bool {
    exists|at: int, state: CurrentSwitchState|
        at >= from && #[trigger] switch_state_read(h, at, plan, state) && switch_state_matches(state, plan) && (
        plan.carry_changes || !state.saved_work_exists)
}

pub proof fn lemma_plan_held_grows<R: GitRunner>(h: Host<R>, h2: Host<R>, from: int, plan: QuickSwitchPlan)
    requires
        plan_held(h, from, plan),
        grows(h, h2),
    ensures
        plan_held(h2, from, plan),
{
    let (at, state) = choose|at: int, state: CurrentSwitchState|
        at >= from && #[trigger] switch_state_read(h, at, plan, state) && switch_state_matches(state, plan) && (
        plan.carry_changes || !state.saved_work_exists);
    lemma_state_read_grows(h, h2, at, plan, state);
}

pub proof fn lemma_plan_held_from<R: GitRunner>(h: Host<R>, from: int, later: int, plan: QuickSwitchPlan)
    requires
        plan_held(h, later, plan),
        from <= later,
    ensures
        plan_held(h, from, plan),
{
    let (at, state) = choose|at: int, state: CurrentSwitchState|
        at >= later && #[trigger] switch_state_read(h, at, plan, state) && switch_state_matches(state, plan) && (
        plan.carry_changes || !state.saved_work_exists);
    assert(at >= from);
}

/// Reads what `check_current` needs: the branch, `HEAD`, the target's commit,
/// whether Saved work exists (when changes are not carried), the tracked
/// changes and the untracked files in the way.
fn read_current_state<R: GitRunner>(runner: &mut Host<R>, plan: &QuickSwitchPlan) -> (r: Result<
    CurrentSwitchState,
    SwitchError,
>)
    ensures
        r matches Err(e) ==> !(e is MissingSavedWork),
        r matches Err(e) ==> !(e is StalePlan),
        r matches Err(e) ==> e is Git || e is InvalidState || e is UntrackedConflict
            || e is UntrackedOverlap,
        r matches Ok(s) ==> plan.carry_changes ==> !s.saved_work_exists,
        reads_only(old(runner).trace(), final(runner).trace()),
        grows(*old(runner), *final(runner)),
        r matches Ok(s) ==> switch_state_read(*final(runner), old(runner).trace().len() as int, *plan, s),
{
    let ghost start = runner.trace();
    let ghost from = start.len() as int;
    let ghost h0 = *runner;
    proof {
        lemma_reads_none(start);
        lemma_grows_none(h0);
    }
    let got = state::read_branch(runner);
    let ghost h1 = *runner;
    proof {
        lemma_reads_chain(start, start, runner.trace());
    }
    let branch = match got {
        Ok(b) => b,
        Err(e) => return Err(e),
    };
    proof {
        lemma_asked_last(h1, from, state::branch_effect());
    }
    let ghost t = runner.trace();
    let got = state::read_id(runner, "HEAD");
    let ghost h2 = *runner;
    proof {
        lemma_reads_chain(start, t, runner.trace());
        lemma_grows_chain(h0, h1, h2);
    }
    let head = match got {
        Ok(id) => id,
        Err(e) => return Err(e),
    };
    proof {
        lemma_asked_last(h2, from, state::resolve_effect("HEAD"@));
    }
    let ghost t = runner.trace();
    let got = match &plan.create_from_remote {
        Some(remote) => state::optional_id(runner, remote.as_str()),
        None => match state::read_id(runner, state::branch_ref(plan.target_branch.as_str()).as_str()) {
            Ok(id) => Ok(Some(id)),
            Err(e) => Err(e),
        },
    };
    let ghost h3 = *runner;
    proof {
        lemma_reads_chain(start, t, runner.trace());
        lemma_grows_chain(h0, h2, h3);
    }
    let target = match got {
        Ok(id) => id,
        Err(e) => return Err(e),
    };
    let ghost e3 = if plan.create_from_remote is Some {
        state::resolve_effect(plan.create_from_remote->Some_0@)
    } else {
        state::resolve_effect("refs/heads/"@ + plan.target_branch@)
    };
    proof {
        lemma_asked_last(h3, from, e3);
    }
    let ghost t = runner.trace();
    let got = if plan.carry_changes {
        Ok(false)
    } else {
        match state::optional_id(runner, plan.saved_work_reference.as_str()) {
            Ok(found) => Ok(found.is_some()),
            Err(e) => Err(e),
        }
    };
    let ghost h4 = *runner;
    proof {
        if plan.carry_changes {
            lemma_reads_none(t);
            lemma_grows_none(h3);
        }
        lemma_reads_chain(start, t, runner.trace());
        lemma_grows_chain(h0, h3, h4);
    }
    let saved_work_exists = match got {
        Ok(b) => b,
        Err(e) => return Err(e),
    };
    let ghost e4 = state::resolve_effect(plan.saved_work_reference@);
    proof {
        if !plan.carry_changes {
            lemma_asked_last(h4, from, e4);
        }
    }
    let ghost t = runner.trace();
    let got = state::read_tracked_changes(runner);
    let ghost h5 = *runner;
    proof {
        lemma_reads_chain(start, t, runner.trace());
        lemma_grows_chain(h0, h4, h5);
    }
    let has_tracked_changes = match got {
        Ok(b) => b,
        Err(e) => return Err(e),
    };
    proof {
        lemma_asked_last(h5, from, state::tracked_effect());
    }
    let ghost t = runner.trace();
    let got = preflight::read_untracked(runner);
    let ghost h6 = *runner;
    proof {
        lemma_reads_chain(start, t, runner.trace());
        lemma_grows_chain(h0, h5, h6);
    }
    let untracked = match got {
        Ok(u) => u,
        Err(e) => return Err(e),
    };
    proof {
        lemma_asked_last(h6, from, preflight::untracked_effect());
    }
    let tree_ref = match &plan.create_from_remote {
        Some(remote) => remote.clone(),
        None => state::branch_ref(plan.target_branch.as_str()),
    };
    let merge_untracked = plan.untracked_conflicts.len() > 0;
    let ghost t = runner.trace();
    let got = resolve_untracked_conflicts(
        runner,
        UntrackedInput { tree_ref: tree_ref.as_str(), paths: &untracked, merge: merge_untracked },
    );
    let ghost h7 = *runner;
    proof {
        lemma_reads_chain(start, t, runner.trace());
        lemma_grows_chain(h0, h6, h7);
    }
    let untracked_conflicts = match got {
        Ok(c) => c,
        Err(e) => return Err(e),
    };
    let result = CurrentSwitchState {
        branch,
        head,
        target,
        saved_work_exists,
        has_tracked_changes,
        untracked_conflicts,
    };
    proof {
        lemma_grows_chain(h5, h6, h7);
        lemma_grows_chain(h4, h5, h7);
        lemma_grows_chain(h3, h4, h7);
        lemma_grows_chain(h2, h3, h7);
        lemma_grows_chain(h1, h2, h7);
        lemma_asked_grows(h1, h7, from, state::branch_effect(), h1.reply(h1.trace().len() - 1));
        lemma_asked_grows(h2, h7, from, state::resolve_effect("HEAD"@), h2.reply(h2.trace().len() - 1));
        lemma_asked_grows(h3, h7, from, e3, h3.reply(h3.trace().len() - 1));
        if !plan.carry_changes {
            lemma_asked_grows(h4, h7, from, e4, h4.reply(h4.trace().len() - 1));
        }
        lemma_asked_grows(h5, h7, from, state::tracked_effect(), h5.reply(h5.trace().len() - 1));
        lemma_asked_grows(h6, h7, from, preflight::untracked_effect(), h6.reply(h6.trace().len() - 1));
        let o1 = h1.reply(h1.trace().len() - 1)->Some_0;
        assert(asked(h7, from, state::branch_effect(), Some(o1)) && state::branch_read(o1, result.branch@));
        let o2 = h2.reply(h2.trace().len() - 1)->Some_0;
        assert(asked(h7, from, state::resolve_effect("HEAD"@), Some(o2)) && state::id_read(o2, result.head@));
        if plan.create_from_remote is Some {
            if result.target is Some {
                let o3 = h3.reply(h3.trace().len() - 1)->Some_0;
                assert(asked(h7, from, e3, Some(o3)) && state::id_read(o3, result.target->Some_0@));
            }
        } else {
            let o3 = h3.reply(h3.trace().len() - 1)->Some_0;
            assert(asked(h7, from, e3, Some(o3)) && state::id_read(o3, result.target->Some_0@));
        }
        if !plan.carry_changes {
            let a4 = h4.reply(h4.trace().len() - 1);
            assert(asked(h7, from, e4, a4) && (result.saved_work_exists <==> a4 is Some));
        }
        let o5 = h5.reply(h5.trace().len() - 1)->Some_0;
        assert(asked(h7, from, state::tracked_effect(), Some(o5)) && result.has_tracked_changes == (
        nonempty_spec(split_spec(o5, 0)).len() > 0));
        let o6 = h6.reply(h6.trace().len() - 1)->Some_0;
        assert(asked(h7, from, preflight::untracked_effect(), Some(o6)));
        let u = untracked_spec(split_spec(o6, 0))->Some_0;
        assert(untracked_spec(split_spec(o6, 0)) == Some(untracked.deep_view()));
        let targets = choose|targets: Seq<Seq<char>>|
            result.untracked_conflicts.deep_view() == (#[trigger] classify_spec(untracked.deep_view(), targets)).0;
        assert(result.untracked_conflicts.deep_view() == classify_spec(u, targets).0);
    }
    Ok(result)
}

/// Refuses a plan the repository has moved away from: no Git operation may be
/// under way, then what was read must pass `check_current`.
pub(crate) fn verify_current<R: GitRunner>(runner: &mut Host<R>, plan: &QuickSwitchPlan) -> (r: Result<(), SwitchError>)
    ensures
        r matches Err(e) ==> !(e is MissingSavedWork),
        grows(*old(runner), *final(runner)),
        r matches Err(SwitchError::ExistingSavedWork(b)) ==> !plan.carry_changes && b@
            == plan.source_branch@,
        r matches Err(e) ==> e is Git || e is InvalidState || e is UntrackedConflict
            || e is UntrackedOverlap || e is StalePlan || e is ExistingSavedWork,
        reads_only(old(runner).trace(), final(runner).trace()),
        r is Ok ==> plan_held(*final(runner), old(runner).trace().len() as int, *plan),
{
    let ghost start = runner.trace();
    match state::ensure_no_operation(runner) {
        Ok(()) => {},
        Err(e) => return Err(e),
    }
    let ghost t = runner.trace();
    let got = read_current_state(runner, plan);
    proof {
        lemma_reads_chain(start, t, runner.trace());
    }
    let current = match got {
        Ok(s) => s,
        Err(e) => return Err(e),
    };
    let verdict = check_current(&current, plan);
    proof {
        if verdict is Ok {
            assert(t.len() >= start.len());
            assert(switch_state_read(*runner, t.len() as int, *plan, current));
        }
    }
    verdict
}

/// The untracked paths to check, the tree to check them against, and whether
/// the request lets overlapping files be merged.
pub struct UntrackedInput<'a> {
    pub tree_ref: &'a str,
    pub paths: &'a Vec<String>,
    pub merge: bool,
}

/// The verdict on classified untracked files: a directory clash refuses the
/// switch, an overlap refuses it unless merging was asked for, and the
/// overlapping files are what the switch carries across.
pub fn decide_untracked(mergeable: Vec<String>, hard: &Vec<String>, merge: bool) -> (r: Result<
    Vec<String>,
    SwitchError,
>)
    ensures
        hard@.len() > 0 ==> (r matches Err(SwitchError::UntrackedConflict(m)) && m@ == join_spec(
            hard.deep_view(),
            ", "@,
        )),
        hard@.len() == 0 && mergeable@.len() > 0 && !merge ==> (r matches Err(
            SwitchError::UntrackedOverlap(v),
        ) && v.deep_view() == mergeable.deep_view()),
        hard@.len() == 0 && (mergeable@.len() == 0 || merge) ==> (r matches Ok(v) && v.deep_view()
            == mergeable.deep_view()),
        r matches Err(e) ==> e is UntrackedConflict || e is UntrackedOverlap,
{
    if hard.len() > 0 {
        return Err(SwitchError::UntrackedConflict(join(hard, ", ")));
    }
    if mergeable.len() > 0 && !merge {
        return Err(SwitchError::UntrackedOverlap(mergeable));
    }
    Ok(mergeable)
}

pub(crate) fn resolve_untracked_conflicts<R: GitRunner>(runner: &mut Host<R>, input: UntrackedInput<'_>) -> (r: Result<
    Vec<String>,
    SwitchError,
>)
    ensures
        r matches Err(e) ==> !(e is MissingSavedWork),
        grows(*old(runner), *final(runner)),
        reads_only(old(runner).trace(), final(runner).trace()),
        r matches Err(e) ==> !(e is StalePlan),
        r matches Ok(v) ==> (v@.len() > 0 ==> input.merge) && exists|targets: Seq<Seq<char>>|
            v.deep_view() == (#[trigger] classify_spec(input.paths.deep_view(), targets)).0
                && classify_spec(input.paths.deep_view(), targets).1.len() == 0 && (input.paths@.len() > 0
                ==> preflight::targets_listed(
                *final(runner),
                old(runner).trace().len() as int,
                input.tree_ref@,
                targets,
            )),
        r matches Err(e) ==> e is Git || e is InvalidState || e is UntrackedConflict || e is UntrackedOverlap,
{
    let (mergeable, hard) = match preflight::classify(runner, input.tree_ref, input.paths) {
        Ok(p) => p,
        Err(e) => return Err(e),
    };
    proof {
        let t = choose|targets: Seq<Seq<char>>|
            (mergeable.deep_view(), hard.deep_view()) == #[trigger] classify_spec(
                input.paths.deep_view(),
                targets,
            ) && (input.paths@.len() > 0 ==> preflight::targets_listed(
                *runner,
                old(runner).trace().len() as int,
                input.tree_ref@,
                targets,
            ));
        assert(mergeable.deep_view() == classify_spec(input.paths.deep_view(), t).0);
        assert(hard.deep_view() == classify_spec(input.paths.deep_view(), t).1);
    }
    decide_untracked(mergeable, &hard, input.merge)
}

/// What one line of `for-each-ref --format=%(refname)%00%(objectname)` says.
pub open spec fn saved_work_line_spec(line: Seq<u8>) -> Option<(Seq<char>, Seq<char>, Seq<char>)> {
    let fields = split_spec(line, 0);
    if fields.len() != 2 || !vstd::utf8::valid_utf8(fields[0]) || !vstd::utf8::valid_utf8(
        fields[1],
    ) {
        None
    } else {
        let reference = vstd::utf8::decode_utf8(fields[0]);
        if !starts_with_spec(reference, wip_prefix()) || !crate::rewrite::model::valid_object_id(
            vstd::utf8::decode_utf8(fields[1]),
        ) {
            None
        } else {
            Some(
                (
                    reference.skip(wip_prefix().len() as int),
                    reference,
                    vstd::utf8::decode_utf8(fields[1]),
                ),
            )
        }
    }
}

/// One Saved work entry: its ref, the branch it belongs to and its snapshot.
pub fn parse_saved_work(line: &[u8]) -> (r: Result<SavedWork, SwitchError>)
    ensures
        r matches Err(e) ==> !(e is MissingSavedWork),
        r matches Err(e) ==> !(e is StalePlan),
        r is Ok <==> saved_work_line_spec(line@) is Some,
        r matches Ok(s) ==> saved_work_line_spec(line@) == Some((s.branch@, s.reference@, s.snapshot@)),
{
    let fields = crate::text::split_bytes(line, 0);
    assert(views(fields@) == split_spec(line@, 0));
    if fields.len() != 2 {
        return Err(SwitchError::InvalidState(String::from_str("saved work ref output was malformed")));
    }
    assert(views(fields@)[0] == fields@[0]@);
    assert(views(fields@)[1] == fields@[1]@);
    let reference = match state::text(fields[0].as_slice()) {
        Ok(t) => t,
        Err(e) => return Err(e),
    };
    let branch = match strip_prefix(reference.as_str(), wip_prefix_str()) {
        Some(b) => b,
        None => return Err(SwitchError::InvalidState(String::from_str("invalid saved work ref"))),
    };
    assert(reference@.skip(wip_prefix().len() as int) =~= branch@);
    let snapshot_text = match state::text(fields[1].as_slice()) {
        Ok(t) => t,
        Err(e) => return Err(e),
    };
    let snapshot = match ObjectId::new(snapshot_text) {
        Ok(id) => id,
        Err(m) => return Err(SwitchError::InvalidState(m)),
    };
    Ok(SavedWork { branch, reference, snapshot })
}

/// Every Saved work entry of a listing, one per non-empty line.
pub fn parse_saved_work_listing(listing: &[u8]) -> (r: Result<Vec<SavedWork>, SwitchError>)
    ensures
        r matches Err(e) ==> !(e is MissingSavedWork),
        r matches Err(e) ==> !(e is StalePlan),
        r is Ok <==> forall|i: int|
            0 <= i < nonempty_spec(split_spec(listing@, 10)).len() ==> (#[trigger] saved_work_line_spec(
                nonempty_spec(split_spec(listing@, 10))[i],
            )) is Some,
        r matches Ok(v) ==> v@.len() == nonempty_spec(split_spec(listing@, 10)).len() && forall|i: int|
            0 <= i < v@.len() ==> saved_work_line_spec(
                #[trigger] nonempty_spec(split_spec(listing@, 10))[i],
            ) == Some((v@[i].branch@, v@[i].reference@, v@[i].snapshot@)),
{
    let lines = split_nonempty(listing, 10);
    let mut entries: Vec<SavedWork> = Vec::new();
    let mut i: usize = 0;
    while i < lines.len()
        invariant
            i <= lines@.len(),
            views(lines@) == nonempty_spec(split_spec(listing@, 10)),
            entries@.len() == i,
            forall|j: int|
                0 <= j < i ==> saved_work_line_spec(#[trigger] views(lines@)[j]) == Some(
                    (entries@[j].branch@, entries@[j].reference@, entries@[j].snapshot@),
                ),
        decreases lines@.len() - i,
    {
        assert(views(lines@)[i as int] == lines@[i as int]@);
        match parse_saved_work(lines[i].as_slice()) {
            Ok(s) => entries.push(s),
            Err(e) => return Err(e),
        }
        i = i + 1;
    }
    Ok(entries)
}

/// The command that lists every Saved work ref with its snapshot.
pub open spec fn list_saved_effect() -> Effect {
    Effect::Run {
        args: seq!["for-each-ref"@, "--format=%(refname)%00%(objectname)"@, wip_prefix()],
        writes: false,
    }
}

/// A Saved work line names a branch whose Saved work ref is the wip prefix
/// followed by the branch, at a valid object id.
pub proof fn lemma_saved_work_line(line: Seq<u8>)
    ensures
        saved_work_line_spec(line) matches Some((branch, reference, snapshot)) ==> reference
            == wip_prefix() + branch && crate::rewrite::model::valid_object_id(snapshot),
{
    if let Some((branch, reference, snapshot)) = saved_work_line_spec(line) {
        assert(reference.take(wip_prefix().len() as int) == wip_prefix());
        assert(reference =~= reference.take(wip_prefix().len() as int) + branch);
    }
}

/// Every branch's Saved work.
pub(crate) fn list_saved_work<R: GitRunner>(runner: &mut Host<R>) -> (r: Result<Vec<SavedWork>, SwitchError>)
    ensures
        r matches Err(e) ==> !(e is MissingSavedWork),
        final(runner).trace() == old(runner).trace().push(list_saved_effect()),
        grows(*old(runner), *final(runner)),
        reads_only(old(runner).trace(), final(runner).trace()),
        final(runner).reply(old(runner).trace().len() as int) is None ==> r matches Err(SwitchError::Git(_)),
        r matches Ok(v) ==> (final(runner).reply(old(runner).trace().len() as int) matches Some(out)
            && v@.len() == nonempty_spec(split_spec(out, 10)).len() && forall|i: int|
            0 <= i < v@.len() ==> saved_work_line_spec(
                #[trigger] nonempty_spec(split_spec(out, 10))[i],
            ) == Some((v@[i].branch@, v@[i].reference@, v@[i].snapshot@))),
        r matches Err(e) ==> !(e is StalePlan),
        r matches Ok(v) ==> forall|i: int|
            0 <= i < v@.len() ==> (#[trigger] v@[i]).reference@ == wip_prefix() + v@[i].branch@
                && crate::rewrite::model::valid_object_id(v@[i].snapshot@),
{
    let args = command_args(&["for-each-ref", "--format=%(refname)%00%(objectname)", "refs/githelper/wip/"]);
    assert(args.deep_view() =~= seq!["for-each-ref"@, "--format=%(refname)%00%(objectname)"@, wip_prefix()]);
    let output = match runner.run(&GitCommand::read(args)) {
        Ok(o) => o,
        Err(e) => return Err(SwitchError::Git(e)),
    };
    let r = parse_saved_work_listing(output.stdout.as_slice());
    proof {
        if let Ok(v) = &r {
            let lines = nonempty_spec(split_spec(output.stdout@, 10));
            assert forall|i: int| 0 <= i < v@.len() implies (#[trigger] v@[i]).reference@ == wip_prefix()
                + v@[i].branch@ && crate::rewrite::model::valid_object_id(v@[i].snapshot@) by {
                lemma_saved_work_line(lines[i]);
            }
        }
    }
    r
}

/// The Saved work of `branch`, if it has one.
pub(crate) fn read_saved_work<R: GitRunner>(runner: &mut Host<R>, branch: &str) -> (r: Result<
    Option<SavedWork>,
    SwitchError,
>)
    ensures
        r matches Err(e) ==> !(e is MissingSavedWork),
        grows(*old(runner), *final(runner)),
        reads_only(old(runner).trace(), final(runner).trace()),
        r matches Err(e) ==> !(e is StalePlan),
        r matches Ok(Some(s)) ==> s.branch@ == branch@ && s.reference@ == wip_prefix() + branch@,
{
    let reference = state::wip_ref(branch);
    match state::optional_id(runner, reference.as_str()) {
        Ok(Some(snapshot)) => Ok(Some(SavedWork { branch: String::from_str(branch), reference, snapshot })),
        Ok(None) => Ok(None),
        Err(e) => Err(e),
    }
}

/// The commit the switch lands on: the local branch's, or, for a branch to be
/// created, the remote-tracking ref's, whose full name comes back too.
fn resolve_target<R: GitRunner>(runner: &mut Host<R>, target_branch: &str, create_from_remote: Option<&str>) -> (r: Result<
    (ObjectId, Option<String>),
    SwitchError,
>)
    ensures
        r matches Err(e) ==> !(e is MissingSavedWork),
        grows(*old(runner), *final(runner)),
        r matches Err(e) ==> !(e is StalePlan),
        create_from_remote is None ==> (r matches Ok(p) ==> p.1 is None),
        create_from_remote matches Some(remote) ==> (r matches Ok(p) ==> (p.1 matches Some(s) && Some(
            s@,
        ) == remote_tracking_spec(remote@))),
{
    let remote = match create_from_remote {
        None => {
            let head = match state::read_id(runner, state::branch_ref(target_branch).as_str()) {
                Ok(id) => id,
                Err(e) => return Err(e),
            };
            return Ok((head, None));
        },
        Some(remote) => remote,
    };
    match state::optional_id(runner, state::branch_ref(target_branch).as_str()) {
        Ok(Some(_)) => {
            return Err(
                SwitchError::InvalidState(concat3("local branch ", target_branch, " already exists")),
            );
        },
        Ok(None) => {},
        Err(e) => return Err(e),
    }
    let remote_ref = match state::remote_tracking_ref(remote) {
        Ok(r) => r,
        Err(e) => return Err(e),
    };
    let head = match state::read_id(runner, remote_ref.as_str()) {
        Ok(id) => id,
        Err(e) => return Err(e),
    };
    Ok((head, Some(remote_ref)))
}

/// The remote to pull from: the one the branch was created from, else the same-named one.
fn resolve_pull_remote<R: GitRunner>(runner: &mut Host<R>, target_branch: &str, create_from_remote: Option<&str>) -> (r: Result<
    Option<String>,
    SwitchError,
>)
    ensures
        r matches Err(e) ==> !(e is MissingSavedWork),
        grows(*old(runner), *final(runner)),
        r matches Err(e) ==> !(e is StalePlan),
        create_from_remote matches Some(remote) ==> (r matches Ok(Some(s)) && s@ == remote@),
{
    match create_from_remote {
        Some(remote) => Ok(Some(String::from_str(remote))),
        None => state::same_named_remote(runner, target_branch),
    }
}

} // verus!

verus! {

/// Saved work is listed under the branch it was saved for: a listing line
/// whose ref is the Saved work ref of `branch` reads back as `branch`'s.
pub proof fn law_saved_work_lists_its_branch(line: Seq<u8>, branch: Seq<char>)
    requires
        split_spec(line, 0).len() == 2,
        vstd::utf8::valid_utf8(split_spec(line, 0)[0]),
        vstd::utf8::valid_utf8(split_spec(line, 0)[1]),
        crate::rewrite::model::valid_object_id(vstd::utf8::decode_utf8(split_spec(line, 0)[1])),
        vstd::utf8::decode_utf8(split_spec(line, 0)[0]) == wip_prefix() + branch,
    ensures
        saved_work_line_spec(line) matches Some(entry) && entry.0 == branch && entry.1
            == wip_prefix() + branch,
{
    let reference = wip_prefix() + branch;
    assert(reference.take(wip_prefix().len() as int) =~= wip_prefix());
    assert(reference.skip(wip_prefix().len() as int) =~= branch);
}

} // verus!
