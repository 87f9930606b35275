//! Planning a split: what it will carry, onto which base, under which name.
use vstd::prelude::*;

use crate::host::grows;

use crate::host::{lemma_reads_chain, reads_only, Host};
use crate::rewrite::ObjectId;

use crate::git::GitRunner;
use crate::order::{str_eq, strictly_sorted};
use crate::text::{decimal, decimal_spec};

use super::errors::SplitError;
use super::model::{SplitBranchPlan, SplitBranchRequest};
use super::paths::{
    self, carried_spec, changed_listed, companions_spec, lemma_changed_listed_grows, matched_spec, trimmed_all,
    trimmed_valid,
};
use super::review::{self, commands_spec};
use super::state::{self, plainly_invalid_branch};

verus! {

broadcast use crate::host::lemma_grows_chain, crate::host::lemma_grows_none, crate::host::lemma_grows_trace,
    crate::host::lemma_grows_reply;

/// `Split <count> file(s) from <branch>` and a newline.
pub open spec fn derived_message_spec(branch: Seq<char>, count: nat) -> Seq<char> {
    "Split "@ + decimal_spec(count) + (if count == 1 {
        " file"@
    } else {
        " files"@
    }) + " from "@ + branch + seq!['\n']
}

/// What a plan made from `request` promises, whatever the repository held.
pub open spec fn plan_fits_request(plan: SplitBranchPlan, request: SplitBranchRequest) -> bool {
    &&& plan.base_ref@ == request.base@
    &&& plan.new_branch@ == request.new_branch@
    &&& !plainly_invalid_branch(request.new_branch@)
    &&& plan.new_branch_ref@ == "refs/heads/"@ + request.new_branch@
    &&& trimmed_valid(request.paths.deep_view())
    &&& strictly_sorted(plan.selected_paths.deep_view())
    &&& plan.selected_paths.deep_view().to_set() == trimmed_all(request.paths.deep_view()).to_set()
    &&& strictly_sorted(plan.changed_paths.deep_view())
    &&& plan.changed_paths@.len() > 0
    &&& exists|changed: Seq<Seq<char>>|
        #[trigger] carried_spec(plan.selected_paths.deep_view(), changed)
            == plan.changed_paths.deep_view().to_set() && plan.companion_paths.deep_view()
            == companions_spec(matched_spec(plan.selected_paths.deep_view(), changed), changed)
            && matched_spec(plan.selected_paths.deep_view(), changed).len() > 0
    &&& match request.message {
        Some(m) => plan.message@ == m@ && !plan.message_is_derived,
        None => plan.message_is_derived && plan.message@ == vstd::utf8::encode_utf8(
            derived_message_spec(plan.source_branch@, plan.changed_paths@.len()),
        ),
    }
    &&& plan.commands.deep_view() == commands_spec(
        plan.merge_base@,
        plan.source_head@,
        plan.new_branch_ref@,
        plan.changed_paths.deep_view(),
    )
}

/// From index `from` of `h` on, Git listed the files changed between the
/// plan's merge base and its source head, and the plan carries, of those,
/// what its selection covers and their partners.
pub open spec fn changes_read<R: GitRunner>(h: Host<R>, from: int, plan: SplitBranchPlan) -> bool {
    exists|changed: Seq<Seq<char>>|
        #[trigger] changed_listed(h, from, plan.merge_base@, plan.source_head@, changed) && paths::carries_from(
            plan.selected_paths.deep_view(),
            changed,
            plan.changed_paths.deep_view(),
            plan.companion_paths.deep_view(),
        )
}

/// From index `from` of `h` on, Git listed the files changed in some range,
/// and the selection `requested`, normalised, covers none of them.
pub open spec fn nothing_covered<R: GitRunner>(h: Host<R>, from: int, requested: Seq<Seq<char>>) -> bool {
    exists|a: Seq<char>, b: Seq<char>, selected: Seq<Seq<char>>, changed: Seq<Seq<char>>|
        #![trigger matched_spec(selected, changed), changed_listed(h, from, a, b, changed)]
        matched_spec(selected, changed).len() == 0 && selected.to_set() == trimmed_all(requested).to_set()
            && changed_listed(h, from, a, b, changed)
}

/// Reads the repository and plans the split that `request` asks for.
pub(crate) fn create<R: GitRunner>(runner: &mut Host<R>, request: SplitBranchRequest) -> (r: Result<
    SplitBranchPlan,
    SplitError,
>)
    ensures
        r matches Ok(plan) ==> split_plan_held(*final(runner), old(runner).trace().len() as int, plan),
        grows(*old(runner), *final(runner)),
        r matches Err(e) ==> !(e is StalePlan),
        r matches Ok(plan) ==> plan_fits_request(plan, request),
        !trimmed_valid(request.paths.deep_view()) || plainly_invalid_branch(request.new_branch@)
            ==> r is Err,
        r matches Ok(plan) ==> changes_read(*final(runner), old(runner).trace().len() as int, plan),
        r matches Err(SplitError::NoChanges) ==> nothing_covered(*final(runner), old(runner).trace().len() as int, request.paths.deep_view()),
{
    let ghost k0 = runner.trace().len() as int;
    let source_branch = match state::read_branch(runner) {
        Ok(b) => b,
        Err(e) => return Err(e),
    };
    let ghost h1 = *runner;
    let source_head = match state::read_id(runner, "HEAD") {
        Ok(id) => id,
        Err(e) => return Err(e),
    };
    let ghost h2 = *runner;
    let base = match state::read_id(runner, request.base.as_str()) {
        Ok(id) => id,
        Err(e) => return Err(e),
    };
    let ghost h3 = *runner;
    let merge_base = match state::merge_base(runner, &base, &source_head) {
        Ok(id) => id,
        Err(e) => return Err(e),
    };
    let new_branch_ref = match reserve_branch(runner, request.new_branch.as_str()) {
        Ok(reference) => reference,
        Err(e) => return Err(e),
    };
    let ghost h4 = *runner;
    let ghost k4 = h4.trace().len() - 1;
    let ghost requested = request.paths.deep_view();
    let ghost before_select = *runner;
    let selection = match paths::select(
        runner,
        request.paths,
        paths::Range { from: &merge_base, to: &source_head },
    ) {
        Ok(s) => s,
        Err(e) => {
            proof {
                if e is NoChanges {
                    let (sel, ch) = choose|sel: Seq<Seq<char>>, ch: Seq<Seq<char>>|
                        #[trigger] matched_spec(sel, ch).len() == 0 && sel.to_set() == trimmed_all(requested).to_set()
                            && changed_listed(*runner, before_select.trace().len() as int, merge_base@, source_head@, ch);
                    lemma_changed_listed_grows(
                        *runner,
                        *runner,
                        old(runner).trace().len() as int,
                        before_select.trace().len() as int,
                        merge_base@,
                        source_head@,
                        ch,
                    );
                }
            }
            return Err(e);
        },
    };
    let ghost selected_h = *runner;
    let ghost merge_base_view = merge_base@;
    let ghost source_head_view = source_head@;
    let ghost selection_selected = selection.selected.deep_view();
    let ghost selection_carried = selection.carried.deep_view();
    let ghost selection_companions = selection.companions.deep_view();
    let message_is_derived = request.message.is_none();
    let message = match request.message {
        Some(m) => m,
        None => derive_message(source_branch.as_str(), selection.carried.len()),
    };
    let draft = SplitBranchPlan {
        source_branch,
        source_head,
        base_ref: request.base,
        base,
        merge_base,
        new_branch: request.new_branch,
        new_branch_ref,
        selected_paths: selection.selected,
        changed_paths: selection.carried,
        companion_paths: selection.companions,
        message,
        message_is_derived,
        commands: Vec::new(),
    };
    let commands = review::commands(&draft);
    let plan = SplitBranchPlan { commands, ..draft };
    proof {
        assert(carried_spec(plan.selected_paths.deep_view(), choose|changed: Seq<Seq<char>>|
            #[trigger] carried_spec(draft.selected_paths.deep_view(), changed)
                == draft.changed_paths.deep_view().to_set() && draft.companion_paths.deep_view()
                == companions_spec(matched_spec(draft.selected_paths.deep_view(), changed), changed)
                && matched_spec(draft.selected_paths.deep_view(), changed).len() > 0)
            == plan.changed_paths.deep_view().to_set());
        reveal_strlit("HEAD");
        assert(runner.trace()[k0] == h1.trace()[k0] && runner.reply(k0) == h1.reply(k0));
        assert(runner.trace()[k0 + 1] == h2.trace()[k0 + 1] && runner.reply(k0 + 1) == h2.reply(k0 + 1));
        assert(runner.trace()[k0 + 2] == h3.trace()[k0 + 2] && runner.reply(k0 + 2) == h3.reply(k0 + 2));
        assert(runner.trace()[k4] == h4.trace()[k4] && runner.reply(k4) == h4.reply(k4));
        assert(runner.trace()[k0] == crate::switch::state::branch_effect());
        assert(runner.trace()[k0 + 1] == crate::switch::state::resolve_effect("HEAD"@));
        assert(runner.trace()[k0 + 2] == crate::switch::state::resolve_effect(plan.base_ref@));
        assert(runner.trace()[k4] == state::show_ref_effect(plan.new_branch_ref@));
        assert(plan.selected_paths.deep_view() == selection_selected);
        assert(plan.changed_paths.deep_view() == selection_carried);
        assert(plan.companion_paths.deep_view() == selection_companions);
        let c0 = choose|changed: Seq<Seq<char>>|
            #[trigger] changed_listed(selected_h, before_select.trace().len() as int, merge_base_view, source_head_view, changed)
                && carried_spec(selection_selected, changed) == selection_carried.to_set()
                && selection_companions == companions_spec(matched_spec(selection_selected, changed), changed);
        assert(changed_listed(selected_h, before_select.trace().len() as int, plan.merge_base@, plan.source_head@, c0));
        let ch = c0;
        lemma_changed_listed_grows(
            selected_h,
            *runner,
            old(runner).trace().len() as int,
            before_select.trace().len() as int,
            plan.merge_base@,
            plan.source_head@,
            ch,
        );
        assert(changed_listed(*runner, old(runner).trace().len() as int, plan.merge_base@, plan.source_head@, ch)
            && carried_spec(plan.selected_paths.deep_view(), ch) == plan.changed_paths.deep_view().to_set()
            && plan.companion_paths.deep_view() == companions_spec(matched_spec(plan.selected_paths.deep_view(), ch), ch));
        assert(paths::carries_from(
            plan.selected_paths.deep_view(),
            ch,
            plan.changed_paths.deep_view(),
            plan.companion_paths.deep_view(),
        ));
        assert(changes_read(*runner, old(runner).trace().len() as int, plan));
    }
    Ok(plan)
}

/// What a split reads of the repository before it runs.
pub struct CurrentSplitState {
    pub branch: String,
    pub head: ObjectId,
    /// The commit the plan's base ref resolves to now.
    pub base: ObjectId,
    /// Whether the new branch's ref exists.
    pub branch_exists: bool,
}

/// The verdict on a split plan, given what was read: the branch, `HEAD` and
/// the base are where the plan found them, and the new branch does not exist.
pub fn check_current(state: &CurrentSplitState, plan: &SplitBranchPlan) -> (r: Result<(), SplitError>)
    ensures
        r is Ok <==> state.branch@ == plan.source_branch@ && state.head@ == plan.source_head@
            && state.base@ == plan.base@ && !state.branch_exists,
        r matches Err(e) ==> e is StalePlan || e is ExistingBranch,
        r matches Err(SplitError::ExistingBranch(b)) ==> b@ == plan.new_branch@ && state.branch_exists
            && state.branch@ == plan.source_branch@ && state.head@ == plan.source_head@
            && state.base@ == plan.base@,
{
    if !str_eq(state.branch.as_str(), plan.source_branch.as_str()) || !state.head.same(
        &plan.source_head,
    ) || !state.base.same(&plan.base) {
        return Err(SplitError::StalePlan);
    }
    if state.branch_exists {
        return Err(SplitError::ExistingBranch(plan.new_branch.clone()));
    }
    Ok(())
}

/// From index `from` on, Git printed the plan's branch, `HEAD` and base as
/// the plan found them, and said that the new branch does not exist.
pub open spec fn split_plan_held<R: GitRunner>(h: Host<R>, from: int, plan: SplitBranchPlan) -> bool {
    &&& exists|k: int|
        0 <= from <= k < h.trace().len() && #[trigger] h.trace()[k] == crate::switch::state::branch_effect()
            && (h.reply(k) matches Some(o) && crate::switch::state::branch_read(o, plan.source_branch@))
    &&& exists|k: int|
        0 <= from <= k < h.trace().len() && #[trigger] h.trace()[k] == crate::switch::state::resolve_effect("HEAD"@)
            && (h.reply(k) matches Some(o) && crate::switch::state::id_read(o, plan.source_head@))
    &&& exists|k: int|
        0 <= from <= k < h.trace().len() && #[trigger] h.trace()[k] == crate::switch::state::resolve_effect(plan.base_ref@)
            && (h.reply(k) matches Some(o) && crate::switch::state::id_read(o, plan.base@))
    &&& exists|k: int|
        0 <= from <= k < h.trace().len() && #[trigger] h.trace()[k] == state::show_ref_effect(plan.new_branch_ref@)
            && h.reply(k) is None
}

/// What was read stays read as the host grows, and from any earlier index.
pub proof fn lemma_split_held_grows<R: GitRunner>(h: Host<R>, h2: Host<R>, from: int, later: int, plan: SplitBranchPlan)
    requires
        split_plan_held(h, later, plan),
        grows(h, h2),
        0 <= from <= later,
    ensures
        split_plan_held(h2, from, plan),
{
    let k1 = choose|k: int|
        0 <= later <= k < h.trace().len() && #[trigger] h.trace()[k] == crate::switch::state::branch_effect()
            && (h.reply(k) matches Some(o) && crate::switch::state::branch_read(o, plan.source_branch@));
    assert(h2.trace()[k1] == h.trace()[k1] && h2.reply(k1) == h.reply(k1));
    let k2 = choose|k: int|
        0 <= later <= k < h.trace().len() && #[trigger] h.trace()[k] == crate::switch::state::resolve_effect("HEAD"@)
            && (h.reply(k) matches Some(o) && crate::switch::state::id_read(o, plan.source_head@));
    assert(h2.trace()[k2] == h.trace()[k2] && h2.reply(k2) == h.reply(k2));
    let k3 = choose|k: int|
        0 <= later <= k < h.trace().len() && #[trigger] h.trace()[k] == crate::switch::state::resolve_effect(plan.base_ref@)
            && (h.reply(k) matches Some(o) && crate::switch::state::id_read(o, plan.base@));
    assert(h2.trace()[k3] == h.trace()[k3] && h2.reply(k3) == h.reply(k3));
    let k4 = choose|k: int|
        0 <= later <= k < h.trace().len() && #[trigger] h.trace()[k] == state::show_ref_effect(plan.new_branch_ref@)
            && h.reply(k) is None;
    assert(h2.trace()[k4] == h.trace()[k4] && h2.reply(k4) == h.reply(k4));
}

/// Refuses a plan the repository has moved away from, or whose branch now
/// exists: reads the branch, `HEAD`, the base and whether the new branch
/// exists, then holds them to the plan with `check_current`.
pub(crate) fn verify_current<R: GitRunner>(runner: &mut Host<R>, plan: &SplitBranchPlan) -> (r: Result<(), SplitError>)
    ensures
        r is Ok ==> split_plan_held(*final(runner), old(runner).trace().len() as int, *plan),
        grows(*old(runner), *final(runner)),
        r matches Err(SplitError::ExistingBranch(b)) ==> b@ == plan.new_branch@,
        r matches Err(e) ==> e is StalePlan || e is ExistingBranch || e is Git || e is InvalidState,
        reads_only(old(runner).trace(), final(runner).trace()),
{
    let ghost start = runner.trace();
    let got = state::read_branch(runner);
    let branch = match got {
        Ok(b) => b,
        Err(e) => return Err(e),
    };
    let ghost t = runner.trace();
    let got = state::read_id(runner, "HEAD");
    proof {
        lemma_reads_chain(start, t, runner.trace());
    }
    let head = match got {
        Ok(id) => id,
        Err(e) => return Err(e),
    };
    let ghost t = runner.trace();
    let got = state::read_id(runner, plan.base_ref.as_str());
    proof {
        lemma_reads_chain(start, t, runner.trace());
    }
    let base = match got {
        Ok(id) => id,
        Err(e) => return Err(e),
    };
    let ghost t = runner.trace();
    let got = state::branch_exists(runner, plan.new_branch_ref.as_str());
    proof {
        lemma_reads_chain(start, t, runner.trace());
    }
    let branch_exists = match got {
        Ok(b) => b,
        Err(e) => return Err(e),
    };
    let verdict = check_current(&CurrentSplitState { branch, head, base, branch_exists }, plan);
    proof {
        reveal_strlit("HEAD");
        if verdict is Ok {
            let k0 = start.len() as int;
            assert(runner.trace()[k0] == crate::switch::state::branch_effect());
            assert(runner.trace()[k0 + 1] == crate::switch::state::resolve_effect("HEAD"@));
            assert(runner.trace()[k0 + 2] == crate::switch::state::resolve_effect(plan.base_ref@));
            assert(runner.trace()[k0 + 3] == state::show_ref_effect(plan.new_branch_ref@));
        }
    }
    verdict
}

/// Checks the new branch's name and that no branch of that name exists yet.
pub(crate) fn reserve_branch<R: GitRunner>(runner: &mut Host<R>, branch: &str) -> (r: Result<String, SplitError>)
    ensures
        r matches Ok(reference) ==> old(runner).trace().len() < final(runner).trace().len() && final(runner).trace().last()
            == state::show_ref_effect(reference@) && final(runner).reply(final(runner).trace().len() - 1) is None,
        grows(*old(runner), *final(runner)),
        r matches Err(e) ==> !(e is NoChanges),
        r matches Err(e) ==> !(e is StalePlan),
        plainly_invalid_branch(branch@) ==> (r matches Err(SplitError::InvalidState(m)) && m@
            == "invalid branch name: "@ + branch@),
        r matches Ok(reference) ==> reference@ == "refs/heads/"@ + branch@
            && !plainly_invalid_branch(branch@),
{
    match state::validate_branch_name(runner, branch) {
        Ok(()) => {},
        Err(e) => return Err(e),
    }
    let reference = state::branch_ref(branch);
    let exists = match state::branch_exists(runner, reference.as_str()) {
        Ok(b) => b,
        Err(e) => return Err(e),
    };
    if exists {
        return Err(SplitError::ExistingBranch(String::from_str(branch)));
    }
    Ok(reference)
}

/// The message of a split whose request gave none.
pub fn derive_message(branch: &str, count: usize) -> (r: Vec<u8>)
    ensures
        r@ == vstd::utf8::encode_utf8(derived_message_spec(branch@, count as nat)),
{
    let mut text = String::from_str("Split ");
    text.append(decimal(count as u64).as_str());
    if count == 1 {
        text.append(" file");
    } else {
        text.append(" files");
    }
    text.append(" from ");
    text.append(branch);
    text.append("\n");
    proof {
        reveal_strlit("\n");
        assert("\n"@ =~= seq!['\n']);
    }
    text.as_str().as_bytes_vec()
}

} // verus!
