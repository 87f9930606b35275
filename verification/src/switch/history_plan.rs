//! Planning a history switch: the commit to detach onto, and what to do with
//! the changes of the checkout.
use vstd::prelude::*;

use crate::host::grows;

use crate::host::{lemma_reads_chain, lemma_reads_none, reads_only, Effect, Host};

use crate::git::{command_args, push_arg, GitCommand, GitError, GitRunner};
use crate::order::str_eq;
use crate::rewrite::ObjectId;
use crate::text::{concat, same_strings, trim, trim_spec};

use super::errors::SwitchError;
use super::history_model::{HistorySwitchPlan, HistorySwitchRequest};
use super::plan::{self as switch_plan, UntrackedInput};
use super::state::wip_prefix;
use super::{preflight, state};

verus! {

broadcast use crate::host::lemma_grows_chain, crate::host::lemma_grows_none, crate::host::lemma_grows_trace,
    crate::host::lemma_grows_reply;

/// Exactly one of a commit and a time is given, and it is not blank.
pub open spec fn target_chosen(commit: Option<Seq<char>>, until: Option<Seq<char>>) -> bool {
    match (commit, until) {
        (Some(c), None) => trim_spec(c).len() > 0,
        (None, Some(u)) => trim_spec(u).len() > 0,
        _ => false,
    }
}

pub open spec fn opt_text(o: Option<String>) -> Option<Seq<char>> {
    match o {
        Some(s) => Some(s@),
        None => None,
    }
}

pub(crate) fn create<R: GitRunner>(runner: &mut Host<R>, request: HistorySwitchRequest) -> (r: Result<
    HistorySwitchPlan,
    SwitchError,
>)
    ensures
        r matches Err(e) ==> !(e is MissingSavedWork),
        grows(*old(runner), *final(runner)),
        r matches Err(e) ==> !(e is StalePlan),
        r matches Ok(plan) ==> {
            &&& target_chosen(opt_text(request.commit), opt_text(request.until))
            &&& plan.target_commit@ != plan.source_head@
            &&& plan.saved_work_reference@ == wip_prefix() + plan.source_branch@
            &&& plan.carry_changes == request.carry_changes
            &&& plan.untracked_conflicts@.len() > 0 ==> request.merge_untracked
        },
        r matches Ok(plan) ==> (request.commit is None ==> (request.until matches Some(u) && until_resolved(
            *final(runner),
            old(runner).trace().len() as int,
            u@,
            plan.target_commit@,
        ))),
        r matches Ok(plan) ==> (request.commit matches Some(c) ==> commit_resolved(
            *final(runner),
            old(runner).trace().len() as int,
            c@,
            plan.target_commit@,
        )),
        r matches Ok(plan) ==> switch_plan::untracked_checked(
            *final(runner),
            old(runner).trace().len() as int,
            plan.target_commit@,
            plan.untracked_conflicts.deep_view(),
        ),
{
    match state::ensure_no_operation(runner) {
        Ok(()) => {},
        Err(e) => return Err(e),
    }
    let source_branch = match state::read_branch(runner) {
        Ok(b) => b,
        Err(e) => return Err(e),
    };
    let source_head = match state::read_id(runner, "HEAD") {
        Ok(id) => id,
        Err(e) => return Err(e),
    };
    let ghost before_target = *runner;
    let target_commit = match resolve_target(runner, &request, &source_head) {
        Ok(id) => id,
        Err(e) => return Err(e),
    };
    let ghost targeted = *runner;
    let saved_work_reference = state::wip_ref(source_branch.as_str());
    match refuse_existing_saved_work(
        runner,
        &request,
        source_branch.as_str(),
        saved_work_reference.as_str(),
    ) {
        Ok(()) => {},
        Err(e) => return Err(e),
    }
    let ghost before_untracked = *runner;
    let untracked = match preflight::read_untracked(runner) {
        Ok(u) => u,
        Err(e) => return Err(e),
    };
    let ghost read_u = *runner;
    let untracked_conflicts = match switch_plan::resolve_untracked_conflicts(
        runner,
        UntrackedInput {
            tree_ref: target_commit.as_str(),
            paths: &untracked,
            merge: request.merge_untracked,
        },
    ) {
        Ok(c) => c,
        Err(e) => return Err(e),
    };
    let ghost checked = *runner;
    proof {
        let from = before_untracked.trace().len() as int;
        crate::host::lemma_asked_last(read_u, from, preflight::untracked_effect());
        crate::host::lemma_asked_grows(read_u, checked, from, preflight::untracked_effect(), read_u.reply(from));
        let o = read_u.reply(from)->Some_0;
        let t = choose|targets: Seq<Seq<char>>|
            untracked_conflicts.deep_view() == (#[trigger] preflight::classify_spec(untracked.deep_view(), targets)).0
                && preflight::classify_spec(untracked.deep_view(), targets).1.len() == 0 && (untracked@.len() > 0
                ==> preflight::targets_listed(checked, read_u.trace().len() as int, target_commit@, targets));
        if untracked@.len() > 0 {
            preflight::lemma_targets_listed_grows(checked, checked, from, read_u.trace().len() as int, target_commit@, t);
        }
        assert(read_u.reply(from) == Some(o));
        assert(crate::host::asked(checked, from, preflight::untracked_effect(), Some(o)));
        let u = preflight::untracked_spec(crate::text::split_spec(o, 0))->Some_0;
        assert(u == untracked.deep_view());
        assert(untracked_conflicts.deep_view() == preflight::classify_spec(u, t).0 && preflight::classify_spec(u, t).1.len() == 0 && (u.len()
            > 0 ==> preflight::targets_listed(checked, from, target_commit@, t)));
        assert(switch_plan::untracked_checked(checked, from, target_commit@, untracked_conflicts.deep_view()));
    }
    let has_tracked_changes = match state::read_tracked_changes(runner) {
        Ok(b) => b,
        Err(e) => return Err(e),
    };
    proof {
        if request.commit is None {
            let u = request.until->Some_0;
            lemma_until_resolved_grows(
                targeted,
                *runner,
                old(runner).trace().len() as int,
                before_target.trace().len() as int,
                u@,
                target_commit@,
            );
        }
        switch_plan::lemma_untracked_checked_grows(
            checked,
            *runner,
            old(runner).trace().len() as int,
            before_untracked.trace().len() as int,
            target_commit@,
            untracked_conflicts.deep_view(),
        );
        if request.commit is Some {
            let c = request.commit->Some_0;
            lemma_commit_resolved_grows(
                targeted,
                *runner,
                old(runner).trace().len() as int,
                before_target.trace().len() as int,
                c@,
                target_commit@,
            );
        }
    }
    Ok(
        HistorySwitchPlan {
            source_branch,
            source_head,
            target_commit,
            saved_work_reference,
            has_tracked_changes,
            carry_changes: request.carry_changes,
            untracked_conflicts,
        },
    )
}

fn refuse_existing_saved_work<R: GitRunner>(
    runner: &mut Host<R>,
    request: &HistorySwitchRequest,
    source_branch: &str,
    saved_work_reference: &str,
) -> (r: Result<(), SwitchError>)
    ensures
        r matches Err(e) ==> !(e is MissingSavedWork),
        grows(*old(runner), *final(runner)),
        r matches Err(e) ==> !(e is StalePlan),
        request.carry_changes ==> r is Ok,
{
    if request.carry_changes {
        return Ok(());
    }
    match state::optional_id(runner, saved_work_reference) {
        Ok(Some(_)) => Err(SwitchError::ExistingSavedWork(String::from_str(source_branch))),
        Ok(None) => Ok(()),
        Err(e) => Err(e),
    }
}

/// What a switch into history reads of the repository before it runs.
pub struct CurrentHistoryState {
    pub branch: String,
    pub head: ObjectId,
    pub has_tracked_changes: bool,
    /// Whether the source branch has Saved work; only asked when changes are not carried.
    pub saved_work_exists: bool,
    /// The untracked files the target commit also has, as the plan would list them now.
    pub untracked_conflicts: Vec<String>,
}

/// The verdict on a plan into history, given what was read: the branch,
/// `HEAD`, the tracked changes and the untracked files in the way are as the
/// plan found them, and, unless changes are carried, no Saved work exists.
pub fn check_history(state: &CurrentHistoryState, plan: &HistorySwitchPlan) -> (r: Result<(), SwitchError>)
    ensures
        r is Ok <==> {
            &&& state.branch@ == plan.source_branch@
            &&& state.head@ == plan.source_head@
            &&& state.has_tracked_changes == plan.has_tracked_changes
            &&& plan.carry_changes || !state.saved_work_exists
            &&& state.untracked_conflicts.deep_view() == plan.untracked_conflicts.deep_view()
        },
        r matches Err(e) ==> e is StalePlan || e is ExistingSavedWork,
        r matches Err(SwitchError::ExistingSavedWork(b)) ==> b@ == plan.source_branch@
            && !plan.carry_changes && state.saved_work_exists,
{
    if !str_eq(state.branch.as_str(), plan.source_branch.as_str()) || !state.head.same(
        &plan.source_head,
    ) || state.has_tracked_changes != plan.has_tracked_changes {
        return Err(SwitchError::StalePlan);
    }
    if !plan.carry_changes && state.saved_work_exists {
        return Err(SwitchError::ExistingSavedWork(plan.source_branch.clone()));
    }
    if !same_strings(&state.untracked_conflicts, &plan.untracked_conflicts) {
        return Err(SwitchError::StalePlan);
    }
    Ok(())
}

/// From index `from` on, Git printed the plan's branch, `HEAD`, tracked
/// changes and untracked files in the way as the plan found them, and, unless
/// changes are carried, no Saved work for the source branch.
pub open spec fn history_plan_held<R: GitRunner>(h: Host<R>, from: int, plan: HistorySwitchPlan) -> bool {
    &&& exists|k: int|
        0 <= from <= k < h.trace().len() && #[trigger] h.trace()[k] == state::branch_effect() && (h.reply(k) matches Some(
            o,
        ) && state::branch_read(o, plan.source_branch@))
    &&& exists|k: int|
        0 <= from <= k < h.trace().len() && #[trigger] h.trace()[k] == state::resolve_effect("HEAD"@) && (h.reply(k) matches Some(
            o,
        ) && state::id_read(o, plan.source_head@))
    &&& exists|k: int|
        0 <= from <= k < h.trace().len() && #[trigger] h.trace()[k] == state::tracked_effect() && (h.reply(k) matches Some(
            o,
        ) && plan.has_tracked_changes == (crate::text::nonempty_spec(crate::text::split_spec(o, 0)).len() > 0))
    &&& !plan.carry_changes ==> exists|k: int|
        0 <= from <= k < h.trace().len() && #[trigger] h.trace()[k] == state::resolve_effect(plan.saved_work_reference@)
            && h.reply(k) is None
    &&& exists|k: int|
        0 <= from <= k < h.trace().len() && #[trigger] h.trace()[k] == preflight::untracked_effect() && (h.reply(k) matches Some(
            o,
        ) && preflight::untracked_spec(crate::text::split_spec(o, 0)) matches Some(u) && exists|targets: Seq<Seq<char>>|
            plan.untracked_conflicts.deep_view() == (#[trigger] preflight::classify_spec(u, targets)).0)
}

/// What was read stays read as the host grows, and from any earlier index.
pub proof fn lemma_history_held_grows<R: GitRunner>(h: Host<R>, h2: Host<R>, from: int, later: int, plan: HistorySwitchPlan)
    requires
        history_plan_held(h, later, plan),
        grows(h, h2),
        0 <= from <= later,
    ensures
        history_plan_held(h2, from, plan),
{
    let k1 = choose|k: int|
        0 <= later <= k < h.trace().len() && #[trigger] h.trace()[k] == state::branch_effect() && (h.reply(k) matches Some(
            o,
        ) && state::branch_read(o, plan.source_branch@));
    assert(h2.trace()[k1] == h.trace()[k1] && h2.reply(k1) == h.reply(k1));
    let k2 = choose|k: int|
        0 <= later <= k < h.trace().len() && #[trigger] h.trace()[k] == state::resolve_effect("HEAD"@) && (h.reply(k) matches Some(
            o,
        ) && state::id_read(o, plan.source_head@));
    assert(h2.trace()[k2] == h.trace()[k2] && h2.reply(k2) == h.reply(k2));
    let k3 = choose|k: int|
        0 <= later <= k < h.trace().len() && #[trigger] h.trace()[k] == state::tracked_effect() && (h.reply(k) matches Some(
            o,
        ) && plan.has_tracked_changes == (crate::text::nonempty_spec(crate::text::split_spec(o, 0)).len() > 0));
    assert(h2.trace()[k3] == h.trace()[k3] && h2.reply(k3) == h.reply(k3));
    if !plan.carry_changes {
        let k4 = choose|k: int|
            0 <= later <= k < h.trace().len() && #[trigger] h.trace()[k] == state::resolve_effect(plan.saved_work_reference@)
                && h.reply(k) is None;
        assert(h2.trace()[k4] == h.trace()[k4] && h2.reply(k4) == h.reply(k4));
    }
    let k5 = choose|k: int|
        0 <= later <= k < h.trace().len() && #[trigger] h.trace()[k] == preflight::untracked_effect() && (h.reply(k) matches Some(
            o,
        ) && preflight::untracked_spec(crate::text::split_spec(o, 0)) matches Some(u) && exists|targets: Seq<Seq<char>>|
            plan.untracked_conflicts.deep_view() == (#[trigger] preflight::classify_spec(u, targets)).0);
    assert(h2.trace()[k5] == h.trace()[k5] && h2.reply(k5) == h.reply(k5));
}

/// Refuses a plan the repository has moved away from: no Git operation may be
/// under way, then what was read must pass `check_history`.
pub(crate) fn verify<R: GitRunner>(runner: &mut Host<R>, plan: &HistorySwitchPlan) -> (r: Result<(), SwitchError>)
    ensures
        r matches Err(e) ==> !(e is MissingSavedWork),
        grows(*old(runner), *final(runner)),
        r matches Err(SwitchError::ExistingSavedWork(b)) ==> !plan.carry_changes && b@
            == plan.source_branch@,
        r matches Err(e) ==> e is Git || e is InvalidState || e is UntrackedConflict
            || e is UntrackedOverlap || e is StalePlan || e is ExistingSavedWork,
        reads_only(old(runner).trace(), final(runner).trace()),
        r is Ok ==> history_plan_held(*final(runner), old(runner).trace().len() as int, *plan),
{
    let ghost start = runner.trace();
    match state::ensure_no_operation(runner) {
        Ok(()) => {},
        Err(e) => return Err(e),
    }
    let ghost t = runner.trace();
    let ghost k1 = t.len() as int;
    let got = state::read_branch(runner);
    let ghost h1 = *runner;
    proof {
        lemma_reads_chain(start, t, runner.trace());
    }
    let branch = match got {
        Ok(b) => b,
        Err(e) => return Err(e),
    };
    let ghost t = runner.trace();
    let ghost k2 = t.len() as int;
    let got = state::read_id(runner, "HEAD");
    let ghost h2 = *runner;
    proof {
        lemma_reads_chain(start, t, runner.trace());
    }
    let head = match got {
        Ok(id) => id,
        Err(e) => return Err(e),
    };
    let ghost t = runner.trace();
    let ghost k3 = t.len() as int;
    let got = state::read_tracked_changes(runner);
    let ghost h3 = *runner;
    proof {
        lemma_reads_chain(start, t, runner.trace());
    }
    let has_tracked_changes = match got {
        Ok(b) => b,
        Err(e) => return Err(e),
    };
    let ghost t = runner.trace();
    let ghost k4 = t.len() as int;
    let got = if plan.carry_changes {
        Ok(false)
    } else {
        match state::optional_id(runner, plan.saved_work_reference.as_str()) {
            Ok(found) => Ok(found.is_some()),
            Err(e) => Err(e),
        }
    };
    let ghost h4 = *runner;
    proof {
        if plan.carry_changes {
            lemma_reads_none(t);
        }
        lemma_reads_chain(start, t, runner.trace());
    }
    let saved_work_exists = match got {
        Ok(b) => b,
        Err(e) => return Err(e),
    };
    let ghost t = runner.trace();
    let ghost k5 = t.len() as int;
    let got = preflight::read_untracked(runner);
    let ghost h5 = *runner;
    proof {
        lemma_reads_chain(start, t, runner.trace());
    }
    let untracked = match got {
        Ok(u) => u,
        Err(e) => return Err(e),
    };
    let merge = plan.untracked_conflicts.len() > 0;
    let ghost t = runner.trace();
    let got = switch_plan::resolve_untracked_conflicts(
        runner,
        UntrackedInput { tree_ref: plan.target_commit.as_str(), paths: &untracked, merge },
    );
    proof {
        lemma_reads_chain(start, t, runner.trace());
    }
    let untracked_conflicts = match got {
        Ok(c) => c,
        Err(e) => return Err(e),
    };
    let ghost u = untracked.deep_view();
    let ghost conflicts = untracked_conflicts.deep_view();
    let verdict = check_history(
        &CurrentHistoryState { branch, head, has_tracked_changes, saved_work_exists, untracked_conflicts },
        plan,
    );
    proof {
        reveal_strlit("HEAD");
        if verdict is Ok {
            assert(runner.trace()[k1] == h1.trace()[k1] && runner.reply(k1) == h1.reply(k1));
            assert(runner.trace()[k2] == h2.trace()[k2] && runner.reply(k2) == h2.reply(k2));
            assert(runner.trace()[k3] == h3.trace()[k3] && runner.reply(k3) == h3.reply(k3));
            if !plan.carry_changes {
                assert(runner.trace()[k4] == h4.trace()[k4] && runner.reply(k4) == h4.reply(k4));
            }
            assert(runner.trace()[k5] == h5.trace()[k5] && runner.reply(k5) == h5.reply(k5));
            let targets = choose|targets: Seq<Seq<char>>| conflicts == (#[trigger] preflight::classify_spec(u, targets)).0;
            assert(plan.untracked_conflicts.deep_view() == preflight::classify_spec(u, targets).0);
            let o1 = h1.reply(k1)->Some_0;
            assert(0 <= old(runner).trace().len() <= k1 < runner.trace().len() && runner.trace()[k1] == state::branch_effect()
                && runner.reply(k1) == Some(o1) && state::branch_read(o1, plan.source_branch@));
            let o2 = h2.reply(k2)->Some_0;
            assert(0 <= old(runner).trace().len() <= k2 < runner.trace().len() && runner.trace()[k2] == state::resolve_effect("HEAD"@)
                && runner.reply(k2) == Some(o2) && state::id_read(o2, plan.source_head@));
            let o3 = h3.reply(k3)->Some_0;
            assert(0 <= old(runner).trace().len() <= k3 < runner.trace().len() && runner.trace()[k3] == state::tracked_effect()
                && runner.reply(k3) == Some(o3));
            if !plan.carry_changes {
                assert(0 <= old(runner).trace().len() <= k4 < runner.trace().len() && runner.trace()[k4]
                    == state::resolve_effect(plan.saved_work_reference@) && runner.reply(k4) is None);
            }
            let o5 = h5.reply(k5)->Some_0;
            assert(0 <= old(runner).trace().len() <= k5 < runner.trace().len() && runner.trace()[k5] == preflight::untracked_effect()
                && runner.reply(k5) == Some(o5) && preflight::untracked_spec(crate::text::split_spec(o5, 0)) == Some(u));
            assert(plan.has_tracked_changes == (crate::text::nonempty_spec(crate::text::split_spec(o3, 0)).len() > 0));
            assert(preflight::untracked_spec(crate::text::split_spec(o5, 0))->Some_0 == u);
            assert(plan.untracked_conflicts.deep_view() == (preflight::classify_spec(preflight::untracked_spec(crate::text::split_spec(o5, 0))->Some_0, targets)).0);
            assert(history_plan_held(*runner, old(runner).trace().len() as int, *plan));
        }
    }
    verdict
}

/// Which of the two the request chose, if it chose exactly one: the commit
/// (`true`) or the time (`false`), with its text.
pub fn target_choice(request: &HistorySwitchRequest) -> (r: Result<(bool, &str), SwitchError>)
    ensures
        r is Ok <==> target_chosen(opt_text(request.commit), opt_text(request.until)),
        r matches Ok(p) ==> (p.0 ==> (request.commit matches Some(c) && p.1@ == c@)) && (!p.0
            ==> (request.until matches Some(u) && p.1@ == u@)),
        r matches Err(e) ==> (e matches SwitchError::InvalidState(m) && m@
            == "choose a commit or a date and time"@),
{
    match (&request.commit, &request.until) {
        (Some(commit), None) => {
            if !trim(commit.as_str()).as_str().is_empty() {
                return Ok((true, commit.as_str()));
            }
        },
        (None, Some(until)) => {
            if !trim(until.as_str()).as_str().is_empty() {
                return Ok((false, until.as_str()));
            }
        },
        _ => {},
    }
    Err(SwitchError::InvalidState(String::from_str("choose a commit or a date and time")))
}

fn resolve_target<R: GitRunner>(runner: &mut Host<R>, request: &HistorySwitchRequest, source_head: &ObjectId) -> (r: Result<
    ObjectId,
    SwitchError,
>)
    ensures
        r matches Err(e) ==> !(e is MissingSavedWork),
        grows(*old(runner), *final(runner)),
        r matches Err(e) ==> !(e is StalePlan),
        r matches Ok(id) ==> id@ != source_head@ && target_chosen(
            opt_text(request.commit),
            opt_text(request.until),
        ),
        r matches Ok(id) ==> (request.commit is None ==> (request.until matches Some(u) && until_resolved(
            *final(runner),
            old(runner).trace().len() as int,
            u@,
            id@,
        ))),
        r matches Ok(id) ==> (request.commit matches Some(c) ==> commit_resolved(
            *final(runner),
            old(runner).trace().len() as int,
            c@,
            id@,
        )),
{
    let (is_commit, text) = match target_choice(request) {
        Ok(p) => p,
        Err(e) => return Err(e),
    };
    let target = if is_commit {
        resolve_commit(runner, text)
    } else {
        resolve_until(runner, text)
    };
    match target {
        Ok(id) => refuse_current_head(id, source_head),
        Err(e) => Err(e),
    }
}

/// A history switch must move: the target cannot be where `HEAD` already is.
pub fn refuse_current_head(target: ObjectId, source_head: &ObjectId) -> (r: Result<
    ObjectId,
    SwitchError,
>)
    ensures
        target@ == source_head@ ==> (r matches Err(SwitchError::InvalidState(m)) && m@
            == "already at this commit"@),
        target@ != source_head@ ==> (r matches Ok(id) && id@ == target@),
{
    if target.same(source_head) {
        return Err(SwitchError::InvalidState(String::from_str("already at this commit")));
    }
    Ok(target)
}

fn resolve_commit<R: GitRunner>(runner: &mut Host<R>, commit: &str) -> (r: Result<ObjectId, SwitchError>)
    ensures
        r matches Err(e) ==> !(e is MissingSavedWork),
        grows(*old(runner), *final(runner)),
        r matches Err(e) ==> !(e is StalePlan),
        r matches Ok(id) ==> commit_resolved(*final(runner), old(runner).trace().len() as int, commit@, id@),
{
    let ghost k = runner.trace().len() as int;
    let id = match state::read_id(runner, commit) {
        Ok(id) => id,
        Err(e) => return Err(e),
    };
    let ghost h1 = *runner;
    match is_ancestor(runner, id.as_str()) {
        Ok(true) => {
            proof {
                assert(runner.trace()[k] == h1.trace()[k]);
                assert(runner.reply(k) == h1.reply(k));
                assert(runner.trace()[k + 1] == ancestor_effect(id@));
            }
            Ok(id)
        },
        Ok(false) => Err(
            SwitchError::InvalidState(String::from_str("commit is not on the current branch")),
        ),
        Err(e) => Err(e),
    }
}

/// `git rev-list -1 --first-parent --until=<until> HEAD`: the last first-parent
/// commit of `HEAD` at or before the time `until`.
pub open spec fn until_effect(until: Seq<char>) -> Effect {
    Effect::Run {
        args: seq!["rev-list"@, "-1"@, "--first-parent"@, "--until="@ + until, "HEAD"@],
        writes: false,
    }
}

/// From index `from` of `h` on, Git was asked for the last first-parent commit
/// of `HEAD` at or before `until`, and printed `id`, blanks around it removed.
pub open spec fn until_resolved<R: GitRunner>(h: Host<R>, from: int, until: Seq<char>, id: Seq<char>) -> bool {
    exists|k: int|
        0 <= from <= k < h.trace().len() && #[trigger] h.trace()[k] == until_effect(until) && (h.reply(k) matches Some(
            out,
        ) && vstd::utf8::valid_utf8(out) && trim_spec(vstd::utf8::decode_utf8(out)) == id)
}

/// What Git printed stays printed as the host grows, and from any earlier index.
pub proof fn lemma_until_resolved_grows<R: GitRunner>(
    h: Host<R>,
    h2: Host<R>,
    from: int,
    later: int,
    until: Seq<char>,
    id: Seq<char>,
)
    requires
        until_resolved(h, later, until, id),
        grows(h, h2),
        0 <= from <= later,
    ensures
        until_resolved(h2, from, until, id),
{
    let k = choose|k: int|
        0 <= later <= k < h.trace().len() && #[trigger] h.trace()[k] == until_effect(until) && (h.reply(k) matches Some(
            out,
        ) && vstd::utf8::valid_utf8(out) && trim_spec(vstd::utf8::decode_utf8(out)) == id);
    assert(h2.trace()[k] == h2.trace().take(h.trace().len() as int)[k]);
    assert(h2.reply(k) == h.reply(k));
}

/// The last first-parent commit of `HEAD` at or before `until`.
fn resolve_until<R: GitRunner>(runner: &mut Host<R>, until: &str) -> (r: Result<ObjectId, SwitchError>)
    ensures
        r matches Err(e) ==> !(e is MissingSavedWork),
        grows(*old(runner), *final(runner)),
        r matches Err(e) ==> !(e is StalePlan),
        final(runner).trace() == old(runner).trace().push(until_effect(until@)),
        r matches Ok(id) ==> until_resolved(*final(runner), old(runner).trace().len() as int, until@, id@),
{
    proof {
        reveal_strlit("--until=");
        reveal_strlit("HEAD");
    }
    let mut values = command_args(&["rev-list", "-1", "--first-parent"]);
    push_arg(&mut values, concat("--until=", until).as_str());
    push_arg(&mut values, "HEAD");
    assert(values.deep_view() =~= seq!["rev-list"@, "-1"@, "--first-parent"@, "--until="@ + until@, "HEAD"@]);
    let ghost k = runner.trace().len() as int;
    let output = match runner.run(&GitCommand::read(values)) {
        Ok(o) => o,
        Err(e) => return Err(SwitchError::Git(e)),
    };
    let value = match state::text(output.stdout.as_slice()) {
        Ok(t) => trim(t.as_str()),
        Err(e) => return Err(e),
    };
    if value.as_str().is_empty() {
        return Err(
            SwitchError::InvalidState(
                String::from_str("No commit on this branch at or before that time."),
            ),
        );
    }
    match ObjectId::new(value) {
        Ok(id) => {
            proof {
                assert(runner.trace()[k] == until_effect(until@));
                assert(runner.reply(k) == Some(output.stdout@));
            }
            Ok(id)
        },
        Err(m) => Err(SwitchError::InvalidState(m)),
    }
}

/// How `merge-base --is-ancestor` answered: exit status 1 means "no", any
/// other failure is an error.
pub fn ancestor_answer(result: Result<(), GitError>) -> (r: Result<bool, SwitchError>)
    ensures
        r matches Err(e) ==> !(e is MissingSavedWork),
        r matches Err(e) ==> !(e is StalePlan),
        result is Ok ==> r matches Ok(true),
        r matches Ok(true) ==> result is Ok,
        result matches Err(GitError::Command { exit_code: Some(1i32), .. }) ==> r matches Ok(false),
        result matches Err(e) && !(e matches GitError::Command { exit_code: Some(1i32), .. })
            ==> r is Err,
{
    match result {
        Ok(()) => Ok(true),
        Err(GitError::Command { args, exit_code, stderr }) => {
            match exit_code {
                Some(code) => if code == 1 {
                    return Ok(false);
                },
                None => {},
            }
            Err(SwitchError::Git(GitError::Command { args, exit_code, stderr }))
        },
        Err(e) => Err(SwitchError::Git(e)),
    }
}

/// `git merge-base --is-ancestor <id> HEAD`.
pub open spec fn ancestor_effect(id: Seq<char>) -> Effect {
    Effect::Run { args: seq!["merge-base"@, "--is-ancestor"@, id, "HEAD"@], writes: false }
}

/// From index `from` of `h` on, Git resolved `commit` to `id`, and then
/// answered yes when asked whether `id` is an ancestor of `HEAD`.
pub open spec fn commit_resolved<R: GitRunner>(h: Host<R>, from: int, commit: Seq<char>, id: Seq<char>) -> bool {
    exists|k: int|
        0 <= from <= k && k + 1 < h.trace().len() && #[trigger] h.trace()[k] == state::resolve_effect(commit) && (h.reply(
            k,
        ) matches Some(o) && state::id_read(o, id)) && h.trace()[k + 1] == ancestor_effect(id) && h.reply(k + 1) is Some
}

/// What Git answered stays answered as the host grows, and from any earlier index.
pub proof fn lemma_commit_resolved_grows<R: GitRunner>(
    h: Host<R>,
    h2: Host<R>,
    from: int,
    later: int,
    commit: Seq<char>,
    id: Seq<char>,
)
    requires
        commit_resolved(h, later, commit, id),
        grows(h, h2),
        0 <= from <= later,
    ensures
        commit_resolved(h2, from, commit, id),
{
    let k = choose|k: int|
        0 <= later <= k && k + 1 < h.trace().len() && #[trigger] h.trace()[k] == state::resolve_effect(commit) && (h.reply(
            k,
        ) matches Some(o) && state::id_read(o, id)) && h.trace()[k + 1] == ancestor_effect(id) && h.reply(k + 1) is Some;
    assert(h2.trace()[k] == h2.trace().take(h.trace().len() as int)[k]);
    assert(h2.trace()[k + 1] == h2.trace().take(h.trace().len() as int)[k + 1]);
    assert(h2.reply(k) == h.reply(k));
    assert(h2.reply(k + 1) == h.reply(k + 1));
}

fn is_ancestor<R: GitRunner>(runner: &mut Host<R>, commit: &str) -> (r: Result<bool, SwitchError>)
    ensures
        r matches Err(e) ==> !(e is MissingSavedWork),
        grows(*old(runner), *final(runner)),
        r matches Err(e) ==> !(e is StalePlan),
        final(runner).trace() == old(runner).trace().push(ancestor_effect(commit@)),
        r matches Ok(true) ==> final(runner).reply(old(runner).trace().len() as int) is Some,
{
    proof {
        reveal_strlit("HEAD");
    }
    let mut values = command_args(&["merge-base", "--is-ancestor"]);
    push_arg(&mut values, commit);
    push_arg(&mut values, "HEAD");
    assert(values.deep_view() =~= seq!["merge-base"@, "--is-ancestor"@, commit@, "HEAD"@]);
    let result = match runner.run(&GitCommand::read(values)) {
        Ok(_) => Ok(()),
        Err(e) => Err(e),
    };
    ancestor_answer(result)
}

} // verus!
