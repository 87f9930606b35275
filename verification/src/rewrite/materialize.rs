//! Applying a rewrite plan: rebuilding the range, moving the branch, and
//! recording the operation.
use vstd::prelude::*;

use crate::host::grows;

use crate::host::{lemma_reads_chain, lemma_reads_none, reads_only, Effect, Host};

use crate::git::{command_args, join_path, push_arg, GitCommand, GitRunner};
use crate::map::PathMap;
use crate::order::str_eq;
use crate::recording::oplog::{
    began_with, lemma_began_logged, lemma_finish_extends, lemma_finish_logged, lemma_logged_kept, logged,
    logged_finished, single_entry, timestamp, OperationRecord, OperationRecordView, Oplog,
};
use crate::text::{concat, decimal, split_spec, trim};

use super::errors::ApplyError;
use super::materialize_steps::{build_history, parse_id};
use super::model::{ApplyResult, ObjectId, RewritePlan};

verus! {

broadcast use crate::host::lemma_grows_chain, crate::host::lemma_grows_none, crate::host::lemma_grows_trace,
    crate::host::lemma_grows_reply;

pub(crate) fn apply<R: GitRunner>(runner: &mut Host<R>, plan: &RewritePlan) -> (r: Result<ApplyResult, ApplyError>)
    ensures
        r is Ok ==> rewrite_plan_held(*final(runner), old(runner).trace().len() as int, *plan),
        grows(*old(runner), *final(runner)),
        r matches Ok(result) ==> moved_branch(final(runner).trace(), *plan, result.new_head@),
        plan.commits@.len() == 0 ==> (r matches Err(ApplyError::InvalidPlan(m)) && m@
            == "plan contains no commits"@),
        r matches Ok(result) ==> result.old_head@ == plan.source_head@
            && result.dropped_commits.deep_view() == plan.dropped_commits.deep_view(),
        r matches Err(ApplyError::StalePlan) ==> reads_only(old(runner).trace(), final(runner).trace()),
        r matches Ok(result) ==> exists|id: Seq<char>, started: Seq<char>|
            logged(final(runner).trace(), #[trigger] rewrite_record_view(*plan, id, started))
                && logged_finished(
                final(runner).trace(),
                id,
                Map::<Seq<char>, Seq<char>>::empty().insert(plan.branch@, result.new_head@),
            ),
{
    match verify_plan(runner, plan) {
        Ok(()) => {},
        Err(e) => return Err(e),
    }
    let ghost verified = *runner;
    let git_dir = match runner.git_dir() {
        Ok(d) => d,
        Err(e) => return Err(ApplyError::Git(e)),
    };
    let oplog = match Oplog::open(runner, git_dir.as_str()) {
        Ok(o) => o,
        Err(e) => return Err(ApplyError::Recording(e.message())),
    };
    let ghost before_begin = *runner;
    let operation_id = match begin_record(runner, &oplog, plan) {
        Ok(id) => id,
        Err(e) => return Err(e),
    };
    let ghost begun = *runner;
    let ghost (started_at, pid_at) = choose|started: Seq<char>, pid: nat|
        operation_id@ == operation_id_spec(plan.operation.label_spec(), started, pid) && began_with(
            before_begin.trace(),
            begun.trace(),
            oplog.path@,
            started,
            pid,
            rewrite_record_view(*plan, operation_id@, started),
        );
    let ghost record_begun = rewrite_record_view(*plan, operation_id@, started_at);
    proof {
        lemma_began_logged(before_begin.trace(), begun.trace(), oplog.path@, started_at, pid_at, record_begun);
    }
    let index_dir = match runner.create_temp_dir() {
        Ok(d) => d,
        Err(message) => return Err(ApplyError::InvalidPlan(message)),
    };
    let index = join_path(index_dir.as_str(), "index");
    let written = write_history(runner, plan, index.as_str());
    let ghost t1 = runner.trace();
    runner.remove_temp_dir(index_dir.as_str());
    let new_head = match written {
        Ok(id) => id,
        Err(e) => return Err(e),
    };
    let ghost t2 = runner.trace();
    proof {
        assert(t2.take(t1.len() as int) =~= t1);
        lemma_moved_kept(t1, t2, *plan, new_head@);
    }
    let after = single_entry(plan.branch.as_str(), new_head.as_str());
    let got = oplog.finish(runner, operation_id.as_str(), after);
    proof {
        if got is Ok {
            lemma_finish_extends(t2, runner.trace(), oplog.path@, operation_id@, Map::<Seq<char>, Seq<char>>::empty().insert(plan.branch@, new_head@));
            lemma_moved_kept(t2, runner.trace(), *plan, new_head@);
            lemma_rewrite_held_grows(verified, *runner, old(runner).trace().len() as int, old(runner).trace().len() as int, *plan);
            let refs = Map::<Seq<char>, Seq<char>>::empty().insert(plan.branch@, new_head@);
            lemma_finish_logged(t2, runner.trace(), oplog.path@, operation_id@, refs);
            lemma_logged_kept(begun.trace(), runner.trace(), record_begun, operation_id@, refs);
        }
    }
    match got {
        Ok(()) => {},
        Err(e) => return Err(ApplyError::Recording(e.message())),
    }
    let dropped_commits = clone_ids(&plan.dropped_commits);
    Ok(ApplyResult { old_head: plan.source_head.clone(), new_head, dropped_commits })
}

/// Rebuilds the range, moves the branch, and resets the selected paths in the index.
fn write_history<R: GitRunner>(runner: &mut Host<R>, plan: &RewritePlan, index: &str) -> (r: Result<
    ObjectId,
    ApplyError,
>)
    ensures
        grows(*old(runner), *final(runner)),
        r matches Ok(h) ==> moved_branch(final(runner).trace(), *plan, h@),
        r matches Err(e) ==> !(e is StalePlan),
{
    let new_head = match build_history(runner, plan, index) {
        Ok(id) => id,
        Err(e) => return Err(e),
    };
    match update_branch(runner, plan, &new_head) {
        Ok(()) => {},
        Err(e) => return Err(e),
    }
    let ghost moved = runner.trace();
    assert(moved[moved.len() - 1] == branch_move(*plan, new_head@));
    if plan.selected_paths.len() > 0 {
        match reset_paths(runner, plan, &new_head) {
            Ok(()) => {},
            Err(e) => return Err(e),
        }
        proof {
            assert(runner.trace().take(moved.len() as int) =~= moved);
            lemma_moved_kept(moved, runner.trace(), *plan, new_head@);
        }
    }
    Ok(new_head)
}

pub fn clone_ids(ids: &Vec<ObjectId>) -> (r: Vec<ObjectId>)
    ensures
        r.deep_view() == ids.deep_view(),
{
    let mut r: Vec<ObjectId> = Vec::new();
    let mut i: usize = 0;
    while i < ids.len()
        invariant
            i <= ids@.len(),
            r.deep_view() == ids.deep_view().take(i as int),
        decreases ids@.len() - i,
    {
        let ghost before = r.deep_view();
        r.push(ids[i].clone());
        assert(r.deep_view() =~= before.push(ids@[i as int]@));
        assert(ids.deep_view().take(i + 1) =~= ids.deep_view().take(i as int).push(ids@[i as int]@));
        i = i + 1;
    }
    assert(ids.deep_view().take(ids@.len() as int) == ids.deep_view());
    r
}

/// The plan still describes the repository: same branch, same `HEAD`, same Base.
/// The verdict on a rewrite plan, given the branch `HEAD` is on (as Git
/// printed it), `HEAD` and the commit the Base ref resolves to: all three
/// are where the plan found them.
pub fn check_plan_state(branch: &str, head: &ObjectId, base: &ObjectId, plan: &RewritePlan) -> (r: Result<
    (),
    ApplyError,
>)
    ensures
        r is Ok <==> crate::text::trim_spec(branch@) == plan.branch@ && head@ == plan.source_head@
            && base@ == plan.base@,
        r matches Err(e) ==> e is StalePlan,
{
    if !str_eq(trim(branch).as_str(), plan.branch.as_str()) || !head.same(&plan.source_head)
        || !base.same(&plan.base) {
        return Err(ApplyError::StalePlan);
    }
    Ok(())
}

/// From index `from` on, Git printed the branch `HEAD` is on, `HEAD` and the
/// Base commit as the plan found them.
pub open spec fn rewrite_plan_held<R: GitRunner>(h: Host<R>, from: int, plan: RewritePlan) -> bool {
    &&& exists|k: int|
        0 <= from <= k < h.trace().len() && #[trigger] h.trace()[k] == (Effect::Run {
            args: seq!["symbolic-ref"@, "--quiet"@, "HEAD"@],
            writes: false,
        }) && (h.reply(k) matches Some(o) && vstd::utf8::valid_utf8(o) && crate::text::trim_spec(
            vstd::utf8::decode_utf8(o),
        ) == plan.branch@)
    &&& exists|k: int|
        0 <= from <= k < h.trace().len() && #[trigger] h.trace()[k] == (Effect::Run {
            args: seq!["rev-parse"@, "--verify"@, "HEAD^{commit}"@],
            writes: false,
        }) && (h.reply(k) matches Some(o) && id_line(o, plan.source_head@))
    &&& exists|k: int|
        0 <= from <= k < h.trace().len() && #[trigger] h.trace()[k] == (Effect::Run {
            args: seq!["rev-parse"@, "--verify"@, plan.base_ref@ + "^{commit}"@],
            writes: false,
        }) && (h.reply(k) matches Some(o) && id_line(o, plan.base@))
}

/// Refuses a plan with no commits, then reads the branch, `HEAD` and the Base
/// commit and holds them to the plan with `check_plan_state`.
fn verify_plan<R: GitRunner>(runner: &mut Host<R>, plan: &RewritePlan) -> (r: Result<(), ApplyError>)
    ensures
        r is Ok ==> rewrite_plan_held(*final(runner), old(runner).trace().len() as int, *plan),
        grows(*old(runner), *final(runner)),
        plan.commits@.len() == 0 ==> (r matches Err(ApplyError::InvalidPlan(m)) && m@
            == "plan contains no commits"@),
        reads_only(old(runner).trace(), final(runner).trace()),
{
    let ghost start = runner.trace();
    proof {
        lemma_reads_none(start);
    }
    if plan.commits.len() == 0 {
        return Err(ApplyError::InvalidPlan(String::from_str("plan contains no commits")));
    }
    let args = command_args(&["symbolic-ref", "--quiet", "HEAD"]);
    assert(args.deep_view() =~= seq!["symbolic-ref"@, "--quiet"@, "HEAD"@]);
    let got = read_text(runner, args);
    let branch = match got {
        Ok(b) => b,
        Err(e) => return Err(e),
    };
    let ghost t = runner.trace();
    let args = command_args(&["rev-parse", "--verify", "HEAD^{commit}"]);
    assert(args.deep_view() =~= seq!["rev-parse"@, "--verify"@, "HEAD^{commit}"@]);
    let got = read_id(runner, args);
    proof {
        lemma_reads_chain(start, t, runner.trace());
    }
    let head = match got {
        Ok(h) => h,
        Err(e) => return Err(e),
    };
    let mut values = command_args(&["rev-parse", "--verify"]);
    crate::git::push_arg(&mut values, concat(plan.base_ref.as_str(), "^{commit}").as_str());
    assert(values.deep_view() =~= seq!["rev-parse"@, "--verify"@, plan.base_ref@ + "^{commit}"@]);
    let ghost t = runner.trace();
    let got = read_id(runner, values);
    proof {
        lemma_reads_chain(start, t, runner.trace());
    }
    let base = match got {
        Ok(b) => b,
        Err(e) => return Err(e),
    };
    let verdict = check_plan_state(branch.as_str(), &head, &base, plan);
    proof {
        if verdict is Ok {
            let k0 = start.len() as int;
            assert(runner.trace()[k0] == (Effect::Run {
                args: seq!["symbolic-ref"@, "--quiet"@, "HEAD"@],
                writes: false,
            }));
            assert(runner.trace()[k0 + 1] == (Effect::Run {
                args: seq!["rev-parse"@, "--verify"@, "HEAD^{commit}"@],
                writes: false,
            }));
            assert(runner.trace()[k0 + 2] == (Effect::Run {
                args: seq!["rev-parse"@, "--verify"@, plan.base_ref@ + "^{commit}"@],
                writes: false,
            }));
        }
    }
    verdict
}

/// What was read stays read as the host grows, and from any earlier index.
pub proof fn lemma_rewrite_held_grows<R: GitRunner>(h: Host<R>, h2: Host<R>, from: int, later: int, plan: RewritePlan)
    requires
        rewrite_plan_held(h, later, plan),
        grows(h, h2),
        0 <= from <= later,
    ensures
        rewrite_plan_held(h2, from, plan),
{
    let k1 = choose|k: int|
        0 <= later <= k < h.trace().len() && #[trigger] h.trace()[k] == (Effect::Run {
            args: seq!["symbolic-ref"@, "--quiet"@, "HEAD"@],
            writes: false,
        }) && (h.reply(k) matches Some(o) && vstd::utf8::valid_utf8(o) && crate::text::trim_spec(
            vstd::utf8::decode_utf8(o),
        ) == plan.branch@);
    assert(h2.trace()[k1] == h.trace()[k1] && h2.reply(k1) == h.reply(k1));
    let k2 = choose|k: int|
        0 <= later <= k < h.trace().len() && #[trigger] h.trace()[k] == (Effect::Run {
            args: seq!["rev-parse"@, "--verify"@, "HEAD^{commit}"@],
            writes: false,
        }) && (h.reply(k) matches Some(o) && id_line(o, plan.source_head@));
    assert(h2.trace()[k2] == h.trace()[k2] && h2.reply(k2) == h.reply(k2));
    let k3 = choose|k: int|
        0 <= later <= k < h.trace().len() && #[trigger] h.trace()[k] == (Effect::Run {
            args: seq!["rev-parse"@, "--verify"@, plan.base_ref@ + "^{commit}"@],
            writes: false,
        }) && (h.reply(k) matches Some(o) && id_line(o, plan.base@));
    assert(h2.trace()[k3] == h.trace()[k3] && h2.reply(k3) == h.reply(k3));
}

/// `update-ref -m "git-helper <operation>" <branch> <new> <old>`: moves the
/// branch only if it still points where the plan found it.
/// The command that moves the plan's branch to `new_head`, only while it
/// still points at the plan's source head.
pub open spec fn branch_move(plan: RewritePlan, new_head: Seq<char>) -> Effect {
    Effect::Run {
        args: seq![
            "update-ref"@,
            "-m"@,
            "git-helper "@ + (if plan.operation == super::model::RewriteOperation::Uncommit {
                "uncommit"@
            } else {
                "edit-message"@
            }),
            plan.branch@,
            new_head,
            plan.source_head@,
        ],
        writes: true,
    }
}

/// Somewhere in `trace`, the plan's branch was moved to `new_head`.
pub open spec fn moved_branch(trace: Seq<Effect>, plan: RewritePlan, new_head: Seq<char>) -> bool {
    exists|k: int| 0 <= k < trace.len() && trace[k] == branch_move(plan, new_head)
}

/// A later trace that extends `before` keeps its moves.
pub proof fn lemma_moved_kept(before: Seq<Effect>, after: Seq<Effect>, plan: RewritePlan, new_head: Seq<char>)
    requires
        moved_branch(before, plan, new_head),
        before.len() <= after.len(),
        after.take(before.len() as int) == before,
    ensures
        moved_branch(after, plan, new_head),
{
    let k = choose|k: int| 0 <= k < before.len() && before[k] == branch_move(plan, new_head);
    assert(after[k] == after.take(before.len() as int)[k]);
}

pub fn update_branch_args(plan: &RewritePlan, new_head: &ObjectId) -> (r: Vec<String>)
    ensures
        r.deep_view() == seq![
            "update-ref"@,
            "-m"@,
            "git-helper "@ + (if plan.operation == super::model::RewriteOperation::Uncommit {
                "uncommit"@
            } else {
                "edit-message"@
            }),
            plan.branch@,
            new_head@,
            plan.source_head@,
        ],
{
    let reflog_message = concat("git-helper ", plan.operation.label());
    let r = command_args(
        &[
            "update-ref",
            "-m",
            reflog_message.as_str(),
            plan.branch.as_str(),
            new_head.as_str(),
            plan.source_head.as_str(),
        ],
    );
    r
}

fn update_branch<R: GitRunner>(runner: &mut Host<R>, plan: &RewritePlan, new_head: &ObjectId) -> (r: Result<
    (),
    ApplyError,
>)
    ensures
        grows(*old(runner), *final(runner)),
        r matches Err(e) ==> !(e is StalePlan),
        final(runner).trace() == old(runner).trace().push(branch_move(*plan, new_head@)),
{
    match runner.run_unlocked(&GitCommand::write(update_branch_args(plan, new_head))) {
        Ok(_) => Ok(()),
        Err(e) => Err(ApplyError::Git(e)),
    }
}

/// `reset --mixed <new> -- <paths>`: the index follows the new `HEAD` for the
/// selected paths, so their changes show as uncommitted.
pub fn reset_paths_args(plan: &RewritePlan, new_head: &ObjectId) -> (r: Vec<String>)
    ensures
        r.deep_view() == seq!["reset"@, "--mixed"@, new_head@, "--"@]
            + plan.selected_paths.deep_view(),
{
    let mut args = command_args(&["reset", "--mixed", new_head.as_str(), "--"]);
    let ghost head = args.deep_view();
    let mut i: usize = 0;
    while i < plan.selected_paths.len()
        invariant
            i <= plan.selected_paths@.len(),
            args.deep_view() == head + plan.selected_paths.deep_view().take(i as int),
        decreases plan.selected_paths@.len() - i,
    {
        push_arg(&mut args, plan.selected_paths[i].as_str());
        assert(args.deep_view() =~= head + plan.selected_paths.deep_view().take(i + 1));
        i = i + 1;
    }
    assert(plan.selected_paths.deep_view().take(plan.selected_paths@.len() as int)
        == plan.selected_paths.deep_view());
    args
}

fn reset_paths<R: GitRunner>(runner: &mut Host<R>, plan: &RewritePlan, new_head: &ObjectId) -> (r: Result<
    (),
    ApplyError,
>)
    ensures
        grows(*old(runner), *final(runner)),
        final(runner).trace() == old(runner).trace().push(
            Effect::Run {
                args: seq!["reset"@, "--mixed"@, new_head@, "--"@] + plan.selected_paths.deep_view(),
                writes: true,
            },
        ),
        r matches Err(e) ==> !(e is StalePlan),
{
    match runner.run_unlocked(&GitCommand::write(reset_paths_args(plan, new_head))) {
        Ok(_) => Ok(()),
        Err(e) => Err(ApplyError::Git(e)),
    }
}

/// `<label>-<started>-<process id>`.
pub open spec fn operation_id_spec(label: Seq<char>, started: Seq<char>, pid: nat) -> Seq<char> {
    label + seq!['-'] + started + seq!['-'] + crate::text::decimal_spec(pid)
}

/// `id` names an operation of kind `label`: `<label>-<started>-<process id>`
/// for some start time and process.
pub open spec fn names_operation(id: Seq<char>, label: Seq<char>) -> bool {
    exists|started: Seq<char>, pid: nat| id == #[trigger] operation_id_spec(label, started, pid)
}

/// `<label>-<started>-<process id>`.
pub fn operation_id(label: &str, started: &str, pid: u32) -> (r: String)
    ensures
        r@ == label@ + seq!['-'] + started@ + seq!['-'] + crate::text::decimal_spec(pid as nat),
        r@ == operation_id_spec(label@, started@, pid as nat),
        names_operation(r@, label@),
{
    let mut id = String::from_str(label);
    id.append("-");
    id.append(started);
    id.append("-");
    id.append(decimal(pid as u64).as_str());
    proof {
        reveal_strlit("-");
    }
    assert(id@ == operation_id_spec(label@, started@, pid as nat));
    id
}

/// Undoing a rewrite moves its branch back: the refs a rewrite records before
/// it runs give a recovery that runs `git update-ref <branch> <old head>`.
pub proof fn law_rewrite_recovery_restores_branch(
    plan: RewritePlan,
    listing: Seq<(Seq<char>, Seq<char>)>,
)
    requires
        crate::order::strictly_sorted(crate::map::keys_of(listing)),
        crate::map::map_of(listing) == Map::<Seq<char>, Seq<char>>::empty().insert(
            plan.branch@,
            plan.source_head@,
        ),
        crate::text::starts_with_spec(plan.branch@, "refs/"@),
        plan.source_head@.len() > 0,
    ensures
        crate::recording::recovery::restore_commands(listing).contains(
            "git update-ref "@ + plan.branch@ + seq![' '] + plan.source_head@,
        ),
{
    crate::recording::recovery::law_recovery_restores_each_ref(listing, plan.branch@);
}

/// The log record of a rewrite: the branch and where it pointed, reversible.
pub fn rewrite_record(plan: &RewritePlan, id: String, started: String) -> (r: OperationRecord)
    ensures
        r.id@ == id@,
        r.operation@ == plan.operation.label_spec(),
        r.started@ == started@,
        r.finished is None,
        r.refs_before.map() == Map::<Seq<char>, Seq<char>>::empty().insert(
            plan.branch@,
            plan.source_head@,
        ),
        r.refs_after.map() == Map::<Seq<char>, Seq<char>>::empty(),
        r.snapshots.map() == Map::<Seq<char>, Seq<char>>::empty(),
        r.details.map() == Map::<Seq<char>, Seq<char>>::empty(),
        r.phase is None,
        r.reversible,
        r.commands.deep_view() == seq![
            "git update-ref "@ + plan.branch@ + " <new> "@ + plan.source_head@,
        ],
        r@ == rewrite_record_view(*plan, id@, started@),
{
    let mut command = String::from_str("git update-ref ");
    command.append(plan.branch.as_str());
    command.append(" <new> ");
    command.append(plan.source_head.as_str());
    let mut commands: Vec<String> = Vec::new();
    commands.push(command);
    assert(commands.deep_view() =~= seq![
        "git update-ref "@ + plan.branch@ + " <new> "@ + plan.source_head@,
    ]);
    let r = OperationRecord {
        id,
        operation: String::from_str(plan.operation.label()),
        started,
        finished: None,
        refs_before: single_entry(plan.branch.as_str(), plan.source_head.as_str()),
        refs_after: PathMap::new(),
        snapshots: PathMap::new(),
        details: PathMap::new(),
        phase: None,
        commands,
        reversible: true,
    };
    assert(r@ =~= rewrite_record_view(*plan, r.id@, r.started@));
    r
}

/// The record a rewrite logs when it begins.
pub open spec fn rewrite_record_view(plan: RewritePlan, id: Seq<char>, started: Seq<char>) -> OperationRecordView {
    OperationRecordView {
        id,
        operation: plan.operation.label_spec(),
        started,
        finished: None,
        refs_before: Map::<Seq<char>, Seq<char>>::empty().insert(plan.branch@, plan.source_head@),
        refs_after: Map::empty(),
        snapshots: Map::empty(),
        details: Map::empty(),
        phase: None,
        commands: seq!["git update-ref "@ + plan.branch@ + " <new> "@ + plan.source_head@],
        reversible: true,
    }
}

fn begin_record<R: GitRunner>(runner: &mut Host<R>, oplog: &Oplog, plan: &RewritePlan) -> (r: Result<
    String,
    ApplyError,
>)
    ensures
        grows(*old(runner), *final(runner)),
        r matches Err(e) ==> !(e is StalePlan),
        r matches Ok(id) ==> names_operation(id@, plan.operation.label_spec()),
        r matches Ok(id) ==> exists|started: Seq<char>, pid: nat|
            id@ == operation_id_spec(plan.operation.label_spec(), started, pid) && began_with(
                old(runner).trace(),
                final(runner).trace(),
                oplog.path@,
                started,
                pid,
                rewrite_record_view(*plan, id@, started),
            ),
{
    let ghost before = runner.trace();
    let started = timestamp(runner);
    let pid = runner.process_id();
    let id = operation_id(plan.operation.label(), started.as_str(), pid);
    let ghost started_text = started@;
    let record = rewrite_record(plan, id.clone(), started);
    assert(runner.trace() == before.push(Effect::Clock { time: started_text }).push(
        Effect::ProcessId { id: pid as nat },
    ));
    match oplog.begin(runner, record) {
        Ok(()) => Ok(id),
        Err(e) => Err(ApplyError::Recording(e.message())),
    }
}

fn read_id<R: GitRunner>(runner: &mut Host<R>, values: Vec<String>) -> (r: Result<ObjectId, ApplyError>)
    ensures
        grows(*old(runner), *final(runner)),
        reads_only(old(runner).trace(), final(runner).trace()),
        r matches Err(e) ==> !(e is StalePlan),
        r matches Ok(id) ==> crate::rewrite::model::valid_object_id(id@),
        final(runner).trace() == old(runner).trace().push(Effect::Run { args: values.deep_view(), writes: false }),
        r matches Ok(id) ==> (final(runner).reply(old(runner).trace().len() as int) matches Some(out) && id_line(out, id@)),
{
    let output = match runner.run_unlocked(&GitCommand::read(values)) {
        Ok(o) => o,
        Err(e) => return Err(ApplyError::Git(e)),
    };
    parse_id(output.stdout.as_slice())
}

/// `id` is the object id on the first line Git printed, blanks trimmed.
pub open spec fn id_line(printed: Seq<u8>, id: Seq<char>) -> bool {
    let line = super::materialize_steps::trim_blanks_spec(split_spec(printed, 10)[0]);
    vstd::utf8::valid_utf8(line) && id == vstd::utf8::decode_utf8(line)
}

fn read_text<R: GitRunner>(runner: &mut Host<R>, values: Vec<String>) -> (r: Result<String, ApplyError>)
    ensures
        grows(*old(runner), *final(runner)),
        reads_only(old(runner).trace(), final(runner).trace()),
        r matches Err(e) ==> !(e is StalePlan),
        final(runner).trace() == old(runner).trace().push(Effect::Run { args: values.deep_view(), writes: false }),
        r matches Ok(t) ==> (final(runner).reply(old(runner).trace().len() as int) matches Some(out) && vstd::utf8::valid_utf8(out) && t@
            == vstd::utf8::decode_utf8(out)),
{
    let output = match runner.run_unlocked(&GitCommand::read(values)) {
        Ok(o) => o,
        Err(e) => return Err(ApplyError::Git(e)),
    };
    match crate::text::utf8_text(output.stdout) {
        Some(s) => Ok(s),
        None => Err(ApplyError::InvalidPlan(String::from_str("Git output is not UTF-8"))),
    }
}

} // verus!
