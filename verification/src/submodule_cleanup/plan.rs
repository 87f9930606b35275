//! Planning a submodule cleanup: which dirty submodules get their gitlink
//! changes uncommitted and which get their checkout reverted.
use vstd::prelude::*;

use crate::host::grows;

use crate::host::{lemma_reads_chain, reads_only, Effect, Host};

use crate::git::{command_args, GitCommand, GitRunner};
use crate::inspection::{dirty_names_spec, DirtySubmodule};
use crate::text::split_spec;
use crate::rewrite::model::clone_paths;
use crate::rewrite::planner;
use crate::rewrite::{ObjectId, RefName, RepoPath, RewriteOperation, UncommitRequest};
use crate::text::{concat, concat3, trim};

use super::errors::SubmoduleCleanupError;
use super::model::{SubmoduleCleanupPlan, SubmoduleCleanupRequest};

verus! {

broadcast use crate::host::lemma_grows_chain, crate::host::lemma_grows_none, crate::host::lemma_grows_trace,
    crate::host::lemma_grows_reply;

/// Each dirty submodule as its path and whether the Editable range touches it.
pub open spec fn entries_view(v: Seq<DirtySubmodule>) -> Seq<(Seq<char>, bool)> {
    Seq::new(v.len(), |i: int| (v[i].path@, v[i].in_editable_range))
}

/// `p` is one of the dirty submodules.
pub open spec fn listed(entries: Seq<(Seq<char>, bool)>, p: Seq<char>) -> bool {
    exists|i: int| 0 <= i < entries.len() && (#[trigger] entries[i]).0 == p
}

/// `p` is a submodule that `git submodule status` printed as dirty.
pub open spec fn printed_dirty(printed: Seq<u8>, p: Seq<char>) -> bool {
    exists|j: int|
        0 <= j < dirty_names_spec(split_spec(printed, 10)).len() && vstd::utf8::decode_utf8(
            #[trigger] dirty_names_spec(split_spec(printed, 10))[j],
        ) == p
}

/// The flag of the last entry for `p`, as a map built from the entries keeps it.
pub open spec fn editable_flag(entries: Seq<(Seq<char>, bool)>, p: Seq<char>) -> bool
    decreases entries.len(),
{
    if entries.len() == 0 {
        false
    } else if entries.last().0 == p {
        entries.last().1
    } else {
        editable_flag(entries.drop_last(), p)
    }
}

/// The requested paths whose gitlink changes lie in the Editable range, in order.
pub open spec fn uncommit_selection(paths: Seq<Seq<char>>, entries: Seq<(Seq<char>, bool)>) -> Seq<
    Seq<char>,
>
    decreases paths.len(),
{
    if paths.len() == 0 {
        Seq::empty()
    } else if editable_flag(entries, paths.last()) {
        uncommit_selection(paths.drop_last(), entries).push(paths.last())
    } else {
        uncommit_selection(paths.drop_last(), entries)
    }
}

pub open spec fn restore_command_spec(p: Seq<char>) -> Seq<char> {
    "git -c submodule.recurse=false restore --source=HEAD --staged --worktree -- :(top,literal)"@
        + p
}

pub open spec fn sync_command_spec(p: Seq<char>) -> Seq<char> {
    "git -c submodule.recurse=false submodule update --force -- "@ + p
}

pub open spec fn nested_checkout_command_spec(p: Seq<char>) -> Seq<char> {
    "git -C "@ + p + " checkout --force HEAD"@
}

pub open spec fn nested_clean_command_spec(p: Seq<char>) -> Seq<char> {
    "git -C "@ + p + " clean -fd"@
}

/// For each reverted path: restore the gitlink, update the submodule, then
/// force its checkout back to its `HEAD` and clean it.
pub open spec fn cleanup_commands_spec(paths: Seq<Seq<char>>) -> Seq<Seq<char>>
    decreases paths.len(),
{
    if paths.len() == 0 {
        Seq::empty()
    } else {
        let p = paths.last();
        cleanup_commands_spec(paths.drop_last()) + seq![
            restore_command_spec(p),
            sync_command_spec(p),
            nested_checkout_command_spec(p),
            nested_clean_command_spec(p),
        ]
    }
}

pub(crate) fn create<R: GitRunner>(runner: &mut Host<R>, request: SubmoduleCleanupRequest) -> (r: Result<
    SubmoduleCleanupPlan,
    SubmoduleCleanupError,
>)
    ensures
        r matches Ok(plan) ==> exists|k: int|
            old(runner).trace().len() <= k < final(runner).trace().len() && #[trigger] final(runner).trace()[k]
                == crate::switch::state::resolve_effect("HEAD"@) && (final(runner).reply(k) matches Some(out)
                && crate::switch::state::id_read(out, plan.source_head@)),
        r is Ok ==> final(runner).trace()[old(runner).trace().len() as int] == (Effect::Run {
            args: seq!["submodule"@, "status"@],
            writes: false,
        }) && (final(runner).reply(old(runner).trace().len() as int) matches Some(printed) && forall|i: int|
            0 <= i < request.paths@.len() ==> printed_dirty(printed, #[trigger] request.paths@[i]@)),
        grows(*old(runner), *final(runner)),
        (request.paths@.len() == 0 || !request.uncommit && !request.revert) ==> final(runner).trace() == old(runner).trace(),
        r matches Err(e) ==> !(e is StalePlan),
        request.paths@.len() == 0 ==> (r matches Err(SubmoduleCleanupError::InvalidState(m))
            && m@ == "select at least one submodule"@),
        request.paths@.len() > 0 && !request.uncommit && !request.revert ==> (r matches Err(
            SubmoduleCleanupError::InvalidState(m),
        ) && m@ == "select at least one cleanup action"@),
        r matches Ok(plan) ==> {
            &&& plan.paths.deep_view() == request.paths.deep_view()
            &&& plan.uncommit == request.uncommit
            &&& plan.revert == request.revert
            &&& plan.base_ref@ == request.base@
            &&& plan.revert_paths.deep_view() == (if request.revert {
                request.paths.deep_view()
            } else {
                Seq::empty()
            })
            &&& plan.commands.deep_view() == cleanup_commands_spec(plan.revert_paths.deep_view())
            &&& !request.uncommit ==> plan.uncommit_paths@.len() == 0
            &&& request.uncommit ==> exists|entries: Seq<(Seq<char>, bool)>|
                plan.uncommit_paths.deep_view() == #[trigger] uncommit_selection(
                    request.paths.deep_view(),
                    entries,
                ) && flags_read(*final(runner), old(runner).trace().len() as int, request.base@, entries)
            &&& (plan.uncommit_plan is Some <==> plan.uncommit_paths@.len() > 0)
            &&& plan.uncommit_plan matches Some(p) ==> p.operation == RewriteOperation::Uncommit
                && p.selected_paths.deep_view() == plan.uncommit_paths.deep_view()
                && p.base_ref@ == request.base@
        },
{
    if request.paths.len() == 0 {
        return Err(SubmoduleCleanupError::InvalidState(String::from_str("select at least one submodule")));
    }
    if !request.uncommit && !request.revert {
        return Err(
            SubmoduleCleanupError::InvalidState(String::from_str("select at least one cleanup action")),
        );
    }
    let ghost h0 = *runner;
    let eligible = match eligible_paths(runner, &request.base) {
        Ok(v) => v,
        Err(e) => return Err(e),
    };
    let ghost h1 = *runner;
    match ensure_listed(&request.paths, &eligible) {
        Ok(()) => {},
        Err(e) => return Err(e),
    }
    let ghost printed = h1.reply(h0.trace().len() as int)->Some_0;
    proof {
        assert forall|i: int| 0 <= i < request.paths@.len() implies printed_dirty(
            printed,
            #[trigger] request.paths@[i]@,
        ) by {
            assert(listed(entries_view(eligible@), request.paths@[i]@));
            let j = choose|j: int|
                0 <= j < entries_view(eligible@).len() && (#[trigger] entries_view(eligible@)[j]).0
                    == request.paths@[i]@;
            assert(eligible@[j].path@ == vstd::utf8::decode_utf8(dirty_names_spec(split_spec(printed, 10))[j]));
        }
    }
    let ghost before_flags = *runner;
    let flags = match flags_for(runner, &request.base) {
        Ok(v) => v,
        Err(e) => return Err(e),
    };
    let ghost flagged = *runner;
    let uncommit_paths = if request.uncommit {
        let selection = select_uncommit(&request.paths, &flags);
        proof {
            assert(selection.deep_view() == uncommit_selection(
                request.paths.deep_view(),
                entries_view(flags@),
            ));
        }
        selection
    } else {
        Vec::new()
    };
    let revert_paths = if request.revert {
        clone_paths(&request.paths)
    } else {
        Vec::new()
    };
    assert(revert_paths.deep_view() =~= (if request.revert {
        request.paths.deep_view()
    } else {
        Seq::empty()
    }));
    let ghost kh = runner.trace().len() as int;
    let source_head = match read_id(runner, "HEAD") {
        Ok(id) => id,
        Err(e) => return Err(e),
    };
    let ghost hh = *runner;
    proof {
        reveal_strlit("HEAD");
    }
    let uncommit_plan = if uncommit_paths.len() == 0 {
        None
    } else {
        let rewrite_request = UncommitRequest {
            base: request.base.clone(),
            paths: clone_paths(&uncommit_paths),
        };
        match planner::create(runner, rewrite_request) {
            Ok(p) => Some(p),
            Err(e) => return Err(SubmoduleCleanupError::Rewrite(e)),
        }
    };
    let commands = cleanup_commands(&revert_paths);
    proof {
        assert(runner.trace()[kh] == hh.trace()[kh]);
        assert(runner.reply(kh) == hh.reply(kh));
        let k = h0.trace().len() as int;
        assert(runner.trace()[k] == runner.trace().take(h1.trace().len() as int)[k]);
        assert(runner.reply(k) == h1.reply(k));
        lemma_flags_read_grows(
            flagged,
            *runner,
            old(runner).trace().len() as int,
            before_flags.trace().len() as int,
            request.base@,
            entries_view(flags@),
        );
    }
    Ok(
        SubmoduleCleanupPlan {
            paths: request.paths,
            uncommit: request.uncommit,
            revert: request.revert,
            uncommit_paths,
            revert_paths,
            base_ref: request.base,
            commands,
            uncommit_plan,
            source_head,
        },
    )
}

/// The verdict on a cleanup plan, given `HEAD` and the dirty submodules read
/// now: `HEAD` has not moved and every selected submodule is still dirty.
pub fn check_current(head: &ObjectId, eligible: &Vec<DirtySubmodule>, plan: &SubmoduleCleanupPlan) -> (r:
    Result<(), SubmoduleCleanupError>)
    ensures
        r is Ok <==> head@ == plan.source_head@ && forall|i: int|
            0 <= i < plan.paths@.len() ==> listed(entries_view(eligible@), #[trigger] plan.paths@[i]@),
        r matches Err(e) ==> e is StalePlan,
{
    if !head.same(&plan.source_head) {
        return Err(SubmoduleCleanupError::StalePlan);
    }
    match ensure_listed(&plan.paths, eligible) {
        Ok(()) => Ok(()),
        Err(_) => Err(SubmoduleCleanupError::StalePlan),
    }
}

/// Refuses a plan made before `HEAD` moved or before a selected submodule became clean.
/// From index `from` on, Git printed `HEAD` as the plan's source head, and
/// listed every submodule of the plan as dirty.
pub open spec fn cleanup_plan_held<R: GitRunner>(h: Host<R>, from: int, plan: SubmoduleCleanupPlan) -> bool {
    &&& exists|k: int|
        0 <= from <= k < h.trace().len() && #[trigger] h.trace()[k] == crate::switch::state::resolve_effect("HEAD"@)
            && (h.reply(k) matches Some(o) && crate::switch::state::id_read(o, plan.source_head@))
    &&& exists|k: int|
        0 <= from <= k < h.trace().len() && #[trigger] h.trace()[k] == (Effect::Run {
            args: seq!["submodule"@, "status"@],
            writes: false,
        }) && (h.reply(k) matches Some(printed) && forall|i: int|
            0 <= i < plan.paths@.len() ==> printed_dirty(printed, #[trigger] plan.paths@[i]@))
}

/// What was read stays read as the host grows, and from any earlier index.
pub proof fn lemma_cleanup_held_grows<R: GitRunner>(h: Host<R>, h2: Host<R>, from: int, later: int, plan: SubmoduleCleanupPlan)
    requires
        cleanup_plan_held(h, later, plan),
        grows(h, h2),
        0 <= from <= later,
    ensures
        cleanup_plan_held(h2, from, plan),
{
    let k = choose|k: int|
        0 <= later <= k < h.trace().len() && #[trigger] h.trace()[k] == crate::switch::state::resolve_effect("HEAD"@)
            && (h.reply(k) matches Some(o) && crate::switch::state::id_read(o, plan.source_head@));
    assert(h2.trace()[k] == h.trace()[k] && h2.reply(k) == h.reply(k));
    let k2 = choose|k: int|
        0 <= later <= k < h.trace().len() && #[trigger] h.trace()[k] == (Effect::Run {
            args: seq!["submodule"@, "status"@],
            writes: false,
        }) && (h.reply(k) matches Some(printed) && forall|i: int|
            0 <= i < plan.paths@.len() ==> printed_dirty(printed, #[trigger] plan.paths@[i]@));
    assert(h2.trace()[k2] == h.trace()[k2] && h2.reply(k2) == h.reply(k2));
}

pub(crate) fn verify_current<R: GitRunner>(runner: &mut Host<R>, plan: &SubmoduleCleanupPlan) -> (r: Result<
    (),
    SubmoduleCleanupError,
>)
    ensures
        r is Ok ==> cleanup_plan_held(*final(runner), old(runner).trace().len() as int, *plan),
        grows(*old(runner), *final(runner)),
        r matches Err(e) ==> e is StalePlan || e is Git || e is InvalidState,
        reads_only(old(runner).trace(), final(runner).trace()),
{
    let ghost start = runner.trace();
    let head = match read_id(runner, "HEAD") {
        Ok(id) => id,
        Err(e) => return Err(e),
    };
    if !head.same(&plan.source_head) {
        return Err(SubmoduleCleanupError::StalePlan);
    }
    let ghost t = runner.trace();
    let got = eligible_paths(runner, &plan.base_ref);
    proof {
        lemma_reads_chain(start, t, runner.trace());
    }
    let eligible = match got {
        Ok(v) => v,
        Err(e) => return Err(e),
    };
    let verdict = check_current(&head, &eligible, plan);
    proof {
        reveal_strlit("HEAD");
        if verdict is Ok {
            let k = start.len() as int;
            assert(runner.trace()[k] == crate::switch::state::resolve_effect("HEAD"@));
            let printed = runner.reply(t.len() as int)->Some_0;
            assert forall|i: int| 0 <= i < plan.paths@.len() implies printed_dirty(printed, #[trigger] plan.paths@[i]@) by {
                assert(listed(entries_view(eligible@), plan.paths@[i]@));
                let j = choose|j: int|
                    0 <= j < entries_view(eligible@).len() && (#[trigger] entries_view(eligible@)[j]).0 == plan.paths@[i]@;
                assert(eligible@[j].path@ == vstd::utf8::decode_utf8(dirty_names_spec(split_spec(printed, 10))[j]));
            }
            assert(runner.trace()[t.len() as int] == (Effect::Run {
                args: seq!["submodule"@, "status"@],
                writes: false,
            }));
        }
    }
    verdict
}

/// The dirty submodules, whose paths a cleanup may select.
fn eligible_paths<R: GitRunner>(runner: &mut Host<R>, base: &RefName) -> (r: Result<
    Vec<DirtySubmodule>,
    SubmoduleCleanupError,
>)
    ensures
        old(runner).trace().len() < final(runner).trace().len(),
        final(runner).trace()[old(runner).trace().len() as int] == (Effect::Run {
            args: seq!["submodule"@, "status"@],
            writes: false,
        }),
        r matches Ok(v) ==> (final(runner).reply(old(runner).trace().len() as int) matches Some(printed)
            && v@.len() == dirty_names_spec(split_spec(printed, 10)).len() && forall|i: int|
            0 <= i < v@.len() ==> (#[trigger] v@[i]).path@ == vstd::utf8::decode_utf8(
                dirty_names_spec(split_spec(printed, 10))[i],
            )),
        grows(*old(runner), *final(runner)),
        reads_only(old(runner).trace(), final(runner).trace()),
        r matches Err(e) ==> !(e is StalePlan),
        r matches Err(e) ==> e is InvalidState,
{
    match crate::inspection::dirty_submodules(runner, Some(base)) {
        Ok(v) => Ok(v),
        Err(e) => Err(SubmoduleCleanupError::InvalidState(e.message())),
    }
}

/// The dirty submodules read again, for whether the Editable range touches each.
/// From index `from` of `h` on, Git listed the dirty submodules, and was
/// asked for each whether a commit of the Editable range against `base`
/// touches it: `entries` holds each submodule's name as printed, with `true`
/// exactly where Git named such a commit.
pub open spec fn flags_read<R: GitRunner>(h: Host<R>, from: int, base: Seq<char>, entries: Seq<(Seq<char>, bool)>) -> bool {
    exists|k0: int|
        0 <= from <= k0 < h.trace().len() && #[trigger] h.trace()[k0] == (Effect::Run {
            args: seq!["submodule"@, "status"@],
            writes: false,
        }) && (h.reply(k0) matches Some(printed) && entries.len() == dirty_names_spec(split_spec(printed, 10)).len()
            && forall|i: int|
            0 <= i < entries.len() ==> (#[trigger] entries[i]).0 == vstd::utf8::decode_utf8(
                dirty_names_spec(split_spec(printed, 10))[i],
            ) && exists|k: int|
                k0 < k < h.trace().len() && h.trace()[k] == crate::inspection::range_touch_effect(base, entries[i].0)
                    && (entries[i].1 <==> (h.reply(k) matches Some(o) && crate::inspection::text_in(o))))
}

/// What Git answered stays answered as the host grows, and from any earlier index.
pub proof fn lemma_flags_read_grows<R: GitRunner>(
    h: Host<R>,
    h2: Host<R>,
    from: int,
    later: int,
    base: Seq<char>,
    entries: Seq<(Seq<char>, bool)>,
)
    requires
        flags_read(h, later, base, entries),
        grows(h, h2),
        0 <= from <= later,
    ensures
        flags_read(h2, from, base, entries),
{
    let k0 = choose|k0: int|
        0 <= later <= k0 < h.trace().len() && #[trigger] h.trace()[k0] == (Effect::Run {
            args: seq!["submodule"@, "status"@],
            writes: false,
        }) && (h.reply(k0) matches Some(printed) && entries.len() == dirty_names_spec(split_spec(printed, 10)).len()
            && forall|i: int|
            0 <= i < entries.len() ==> (#[trigger] entries[i]).0 == vstd::utf8::decode_utf8(
                dirty_names_spec(split_spec(printed, 10))[i],
            ) && exists|k: int|
                k0 < k < h.trace().len() && h.trace()[k] == crate::inspection::range_touch_effect(base, entries[i].0)
                    && (entries[i].1 <==> (h.reply(k) matches Some(o) && crate::inspection::text_in(o))));
    let printed = h.reply(k0)->Some_0;
    assert(h2.trace()[k0] == h2.trace().take(h.trace().len() as int)[k0]);
    assert(h2.reply(k0) == h.reply(k0));
    assert forall|i: int| 0 <= i < entries.len() implies (#[trigger] entries[i]).0 == vstd::utf8::decode_utf8(
        dirty_names_spec(split_spec(printed, 10))[i],
    ) && exists|k: int|
        k0 < k < h2.trace().len() && h2.trace()[k] == crate::inspection::range_touch_effect(base, entries[i].0)
            && (entries[i].1 <==> (h2.reply(k) matches Some(o) && crate::inspection::text_in(o))) by {
        let k = choose|k: int|
            k0 < k < h.trace().len() && h.trace()[k] == crate::inspection::range_touch_effect(base, entries[i].0)
                && (entries[i].1 <==> (h.reply(k) matches Some(o) && crate::inspection::text_in(o)));
        assert(h2.trace()[k] == h2.trace().take(h.trace().len() as int)[k]);
        assert(h2.reply(k) == h.reply(k));
    }
}

fn flags_for<R: GitRunner>(runner: &mut Host<R>, base: &RefName) -> (r: Result<
    Vec<DirtySubmodule>,
    SubmoduleCleanupError,
>)
    ensures
        grows(*old(runner), *final(runner)),
        r matches Err(e) ==> !(e is StalePlan),
        r matches Err(e) ==> e is InvalidState,
        r matches Ok(v) ==> flags_read(*final(runner), old(runner).trace().len() as int, base@, entries_view(v@)),
{
    match crate::inspection::dirty_submodules(runner, Some(base)) {
        Ok(v) => {
            proof {
                let k0 = old(runner).trace().len() as int;
                let printed = runner.reply(k0)->Some_0;
                let e = entries_view(v@);
                assert forall|i: int| 0 <= i < e.len() implies (#[trigger] e[i]).0 == vstd::utf8::decode_utf8(
                    dirty_names_spec(split_spec(printed, 10))[i],
                ) && exists|k: int|
                    k0 < k < runner.trace().len() && runner.trace()[k] == crate::inspection::range_touch_effect(base@, e[i].0)
                        && (e[i].1 <==> (runner.reply(k) matches Some(o) && crate::inspection::text_in(o))) by {
                    assert(e[i] == (v@[i].path@, v@[i].in_editable_range));
                }
            }
            Ok(v)
        },
        Err(e) => Err(SubmoduleCleanupError::InvalidState(e.message())),
    }
}

/// Whether some entry is for `path`.
fn is_listed(path: &RepoPath, entries: &Vec<DirtySubmodule>) -> (r: bool)
    ensures
        r == listed(entries_view(entries@), path@),
{
    let ghost e = entries_view(entries@);
    let mut i: usize = 0;
    while i < entries.len()
        invariant
            i <= entries@.len(),
            e == entries_view(entries@),
            forall|j: int| 0 <= j < i ==> (#[trigger] e[j]).0 != path@,
        decreases entries@.len() - i,
    {
        if entries[i].path.same(path) {
            assert(e[i as int].0 == path@);
            return true;
        }
        i = i + 1;
    }
    false
}

/// Every path must be a dirty submodule; the first that is not is named.
pub fn ensure_listed(paths: &Vec<RepoPath>, entries: &Vec<DirtySubmodule>) -> (r: Result<
    (),
    SubmoduleCleanupError,
>)
    ensures
        r is Ok <==> forall|i: int|
            0 <= i < paths@.len() ==> listed(entries_view(entries@), #[trigger] paths@[i]@),
        r matches Err(e) ==> e is InvalidState,
{
    let mut i: usize = 0;
    while i < paths.len()
        invariant
            i <= paths@.len(),
            forall|j: int| 0 <= j < i ==> listed(entries_view(entries@), #[trigger] paths@[j]@),
        decreases paths@.len() - i,
    {
        if !is_listed(&paths[i], entries) {
            return Err(
                SubmoduleCleanupError::InvalidState(
                    concat("submodule is not dirty: ", paths[i].as_str()),
                ),
            );
        }
        i = i + 1;
    }
    Ok(())
}

/// The flag of the last entry for `path`.
fn flag_of(path: &RepoPath, entries: &Vec<DirtySubmodule>) -> (r: bool)
    ensures
        r == editable_flag(entries_view(entries@), path@),
{
    let ghost e = entries_view(entries@);
    let mut i = entries.len();
    assert(e.take(i as int) == e);
    while i > 0
        invariant
            i <= entries@.len(),
            e == entries_view(entries@),
            editable_flag(e, path@) == editable_flag(e.take(i as int), path@),
        decreases i,
    {
        assert(e.take(i as int).drop_last() == e.take(i - 1));
        if entries[i - 1].path.same(path) {
            return entries[i - 1].in_editable_range;
        }
        i = i - 1;
    }
    false
}

/// The requested paths whose gitlink changes lie in the Editable range.
pub fn select_uncommit(paths: &Vec<RepoPath>, entries: &Vec<DirtySubmodule>) -> (r: Vec<RepoPath>)
    ensures
        r.deep_view() == uncommit_selection(paths.deep_view(), entries_view(entries@)),
{
    let mut r: Vec<RepoPath> = Vec::new();
    let mut i: usize = 0;
    while i < paths.len()
        invariant
            i <= paths@.len(),
            r.deep_view() == uncommit_selection(
                paths.deep_view().take(i as int),
                entries_view(entries@),
            ),
        decreases paths@.len() - i,
    {
        assert(paths.deep_view().take(i + 1).drop_last() == paths.deep_view().take(i as int));
        assert(paths.deep_view().take(i + 1).last() == paths@[i as int]@);
        if flag_of(&paths[i], entries) {
            let ghost before = r.deep_view();
            r.push(paths[i].clone());
            assert(r.deep_view() =~= before.push(paths@[i as int]@));
        }
        i = i + 1;
    }
    assert(paths.deep_view().take(paths@.len() as int) == paths.deep_view());
    r
}

/// The review commands of the reverted paths, four per path.
pub fn cleanup_commands(paths: &Vec<RepoPath>) -> (r: Vec<String>)
    ensures
        r.deep_view() == cleanup_commands_spec(paths.deep_view()),
{
    let mut commands: Vec<String> = Vec::new();
    let mut i: usize = 0;
    while i < paths.len()
        invariant
            i <= paths@.len(),
            commands.deep_view() == cleanup_commands_spec(paths.deep_view().take(i as int)),
        decreases paths@.len() - i,
    {
        assert(paths.deep_view().take(i + 1).drop_last() == paths.deep_view().take(i as int));
        let p = paths[i].as_str();
        let ghost before = commands.deep_view();
        let a = restore_command(p);
        let b = sync_command(p);
        let c = nested_checkout_command(p);
        let d = nested_clean_command(p);
        commands.push(a);
        commands.push(b);
        commands.push(c);
        commands.push(d);
        assert(commands.deep_view() =~= before + seq![a@, b@, c@, d@]);
        i = i + 1;
    }
    assert(paths.deep_view().take(paths@.len() as int) == paths.deep_view());
    commands
}

fn restore_command(path: &str) -> (r: String)
    ensures
        r@ == restore_command_spec(path@),
{
    concat(
        "git -c submodule.recurse=false restore --source=HEAD --staged --worktree -- :(top,literal)",
        path,
    )
}

fn sync_command(path: &str) -> (r: String)
    ensures
        r@ == sync_command_spec(path@),
{
    concat("git -c submodule.recurse=false submodule update --force -- ", path)
}

fn nested_checkout_command(path: &str) -> (r: String)
    ensures
        r@ == nested_checkout_command_spec(path@),
{
    concat3("git -C ", path, " checkout --force HEAD")
}

fn nested_clean_command(path: &str) -> (r: String)
    ensures
        r@ == nested_clean_command_spec(path@),
{
    concat3("git -C ", path, " clean -fd")
}

fn read_id<R: GitRunner>(runner: &mut Host<R>, name: &str) -> (r: Result<ObjectId, SubmoduleCleanupError>)
    ensures
        grows(*old(runner), *final(runner)),
        reads_only(old(runner).trace(), final(runner).trace()),
        r matches Err(e) ==> !(e is StalePlan),
        r matches Ok(id) ==> crate::rewrite::model::valid_object_id(id@),
        r matches Err(e) ==> e is Git || e is InvalidState,
        final(runner).trace() == old(runner).trace().push(crate::switch::state::resolve_effect(name@)),
        r matches Ok(id) ==> (final(runner).reply(old(runner).trace().len() as int) matches Some(out)
            && crate::switch::state::id_read(out, id@)),
{
    let spec = concat(name, "^{commit}");
    let args = command_args(&["rev-parse", "--verify", spec.as_str()]);
    assert(args.deep_view() =~= seq!["rev-parse"@, "--verify"@, name@ + "^{commit}"@]);
    let output = match runner.run(&GitCommand::read(args)) {
        Ok(o) => o,
        Err(e) => return Err(SubmoduleCleanupError::Git(e)),
    };
    let value = match text(output.stdout.as_slice()) {
        Ok(t) => t,
        Err(e) => return Err(e),
    };
    match ObjectId::new(trim(value.as_str())) {
        Ok(id) => Ok(id),
        Err(message) => Err(SubmoduleCleanupError::InvalidState(message)),
    }
}

fn text(bytes: &[u8]) -> (r: Result<String, SubmoduleCleanupError>)
    ensures
        r is Ok <==> vstd::utf8::valid_utf8(bytes@),
        r matches Ok(s) ==> s@ == vstd::utf8::decode_utf8(bytes@),
        r matches Err(e) ==> e is InvalidState,
{
    assert(bytes@.subrange(0, bytes@.len() as int) == bytes@);
    match crate::text::utf8_text(crate::text::bytes_of(bytes, 0, bytes.len())) {
        Some(s) => Ok(s),
        None => Err(SubmoduleCleanupError::InvalidState(String::from_str("Git output is not UTF-8"))),
    }
}

/// The last entry `entries` holds for `p` marks it in the Editable range.
proof fn lemma_editable_flag_last(entries: Seq<(Seq<char>, bool)>, p: Seq<char>)
    ensures
        editable_flag(entries, p) <==> exists|j: int|
            0 <= j < entries.len() && #[trigger] entries[j] == (p, true) && forall|k: int|
                j < k < entries.len() ==> (#[trigger] entries[k]).0 != p,
    decreases entries.len(),
{
    if entries.len() > 0 {
        let rest = entries.drop_last();
        lemma_editable_flag_last(rest, p);
        let n = entries.len() - 1;
        if entries.last().0 == p {
            if entries.last().1 {
                assert(entries[n] == (p, true));
            } else {
                if exists|j: int|
                    0 <= j < entries.len() && #[trigger] entries[j] == (p, true) && forall|k: int|
                        j < k < entries.len() ==> (#[trigger] entries[k]).0 != p {
                    let j = choose|j: int|
                        0 <= j < entries.len() && #[trigger] entries[j] == (p, true) && forall|k: int|
                            j < k < entries.len() ==> (#[trigger] entries[k]).0 != p;
                    if j < n {
                        assert(entries[n].0 != p);
                    }
                }
            }
        } else {
            if editable_flag(rest, p) {
                let j = choose|j: int|
                    0 <= j < rest.len() && #[trigger] rest[j] == (p, true) && forall|k: int|
                        j < k < rest.len() ==> (#[trigger] rest[k]).0 != p;
                assert(entries[j] == (p, true));
                assert forall|k: int| j < k < entries.len() implies (#[trigger] entries[k]).0 != p by {
                    if k < n {
                        assert(entries[k] == rest[k]);
                    }
                }
            }
            if exists|j: int|
                0 <= j < entries.len() && #[trigger] entries[j] == (p, true) && forall|k: int|
                    j < k < entries.len() ==> (#[trigger] entries[k]).0 != p {
                let j = choose|j: int|
                    0 <= j < entries.len() && #[trigger] entries[j] == (p, true) && forall|k: int|
                        j < k < entries.len() ==> (#[trigger] entries[k]).0 != p;
                assert(j < n);
                assert(rest[j] == (p, true));
                assert forall|k: int| j < k < rest.len() implies (#[trigger] rest[k]).0 != p by {
                    assert(rest[k] == entries[k]);
                }
            }
        }
    }
}

/// Selecting from two lists of paths one after the other selects from each:
/// whether a path is uncommitted never depends on the paths asked with it.
pub proof fn law_uncommit_selection_concat(
    first: Seq<Seq<char>>,
    second: Seq<Seq<char>>,
    entries: Seq<(Seq<char>, bool)>,
)
    ensures
        uncommit_selection(first + second, entries) == uncommit_selection(first, entries) + uncommit_selection(
            second,
            entries,
        ),
    decreases second.len(),
{
    if second.len() == 0 {
        assert(first + second =~= first);
        assert(uncommit_selection(first, entries) + uncommit_selection(second, entries) =~= uncommit_selection(
            first,
            entries,
        ));
    } else {
        law_uncommit_selection_concat(first, second.drop_last(), entries);
        assert((first + second).drop_last() =~= first + second.drop_last());
        assert((first + second).last() == second.last());
        if editable_flag(entries, second.last()) {
            assert(uncommit_selection(first, entries) + uncommit_selection(second.drop_last(), entries).push(
                second.last(),
            ) =~= (uncommit_selection(first, entries) + uncommit_selection(second.drop_last(), entries)).push(
                second.last(),
            ));
        }
    }
}

/// A requested path is uncommitted exactly when the last dirty entry listed
/// for it lies in the Editable range.
pub proof fn law_uncommit_selection_members(
    paths: Seq<Seq<char>>,
    entries: Seq<(Seq<char>, bool)>,
    p: Seq<char>,
)
    ensures
        uncommit_selection(paths, entries).contains(p) <==> paths.contains(p) && exists|j: int|
            0 <= j < entries.len() && #[trigger] entries[j] == (p, true) && forall|k: int|
                j < k < entries.len() ==> (#[trigger] entries[k]).0 != p,
    decreases paths.len(),
{
    lemma_editable_flag_last(entries, p);
    if paths.len() > 0 {
        let rest = paths.drop_last();
        law_uncommit_selection_members(rest, entries, p);
        let sel = uncommit_selection(paths, entries);
        let sel0 = uncommit_selection(rest, entries);
        if sel.contains(p) {
            let i = choose|i: int| 0 <= i < sel.len() && sel[i] == p;
            if i < sel0.len() {
                assert(sel0[i] == p);
                let j = choose|j: int| 0 <= j < rest.len() && rest[j] == p;
                assert(paths[j] == p);
            } else {
                assert(paths.last() == p);
                assert(paths[paths.len() - 1] == p);
            }
        }
        if paths.contains(p) && editable_flag(entries, p) {
            let j = choose|j: int| 0 <= j < paths.len() && paths[j] == p;
            if j < paths.len() - 1 {
                assert(rest[j] == p);
                let i = choose|i: int| 0 <= i < sel0.len() && sel0[i] == p;
                if editable_flag(entries, paths.last()) {
                    assert(sel[i] == p);
                }
            } else {
                assert(sel[sel.len() - 1] == p);
            }
        }
    }
}

} // verus!
