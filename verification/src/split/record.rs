//! The operation-log record of a split.
use vstd::prelude::*;

use crate::host::grows;

use crate::host::{Effect, Host};

use crate::git::GitRunner;
use crate::map::{keys_of, map_of, PathMap};
use crate::order::strictly_sorted;
use crate::recording::recovery::{restore_commands, restore_one};
use crate::text::starts_with_spec;
use crate::recording::oplog::{began_with, timestamp, OperationRecord, OperationRecordView, Oplog};
use crate::rewrite::materialize::{names_operation, operation_id, operation_id_spec};
use crate::rewrite::RepoPath;
use crate::text::{join, join_spec};

use super::errors::SplitError;
use super::model::SplitBranchPlan;

verus! {

broadcast use crate::host::lemma_grows_chain, crate::host::lemma_grows_none, crate::host::lemma_grows_trace,
    crate::host::lemma_grows_reply;

/// Writes the record of a split about to run and returns its id.
/// The record a split logs when it begins.
pub open spec fn split_record_view(plan: SplitBranchPlan, id: Seq<char>, started: Seq<char>) -> OperationRecordView {
    OperationRecordView {
        id,
        operation: "split-branch"@,
        started,
        finished: None,
        refs_before: refs_before_spec(&plan),
        refs_after: Map::empty(),
        snapshots: Map::empty(),
        details: details_spec(&plan),
        phase: None,
        commands: plan.commands.deep_view(),
        reversible: true,
    }
}

pub(crate) fn begin<R: GitRunner>(runner: &mut Host<R>, oplog: &Oplog, plan: &SplitBranchPlan) -> (r: Result<
    String,
    SplitError,
>)
    ensures
        grows(*old(runner), *final(runner)),
        r matches Ok(id) ==> exists|started: Seq<char>, pid: nat|
            id@ == operation_id_spec("split-branch"@, started, pid) && began_with(
                old(runner).trace(),
                final(runner).trace(),
                oplog.path@,
                started,
                pid,
                split_record_view(*plan, id@, started),
            ),
        r matches Err(e) ==> !(e is ExistingBranch),
        r matches Err(e) ==> !(e is StalePlan),
        r matches Err(e) ==> e is Recording,
        r matches Ok(id) ==> names_operation(id@, "split-branch"@),
{
    let ghost before = runner.trace();
    let started = timestamp(runner);
    let pid = runner.process_id();
    let id = operation_id("split-branch", started.as_str(), pid);
    let ghost started_text = started@;
    let record = split_record(plan, id.clone(), started);
    assert(record@ =~= split_record_view(*plan, id@, started_text));
    assert(runner.trace() == before.push(Effect::Clock { time: started_text }).push(
        Effect::ProcessId { id: pid as nat },
    ));
    match oplog.begin(runner, record) {
        Ok(()) => Ok(id),
        Err(e) => Err(SplitError::Recording(e.message())),
    }
}

/// The record of a split: reversible, with the refs it will move and what it runs.
pub fn split_record(plan: &SplitBranchPlan, id: String, started: String) -> (r: OperationRecord)
    ensures
        r.id@ == id@,
        r.operation@ == "split-branch"@,
        r.started@ == started@,
        r.finished is None,
        r.refs_before.map() == refs_before_spec(plan),
        r.refs_after.map() == Map::<Seq<char>, Seq<char>>::empty(),
        r.snapshots.map() == Map::<Seq<char>, Seq<char>>::empty(),
        r.details.map() == details_spec(plan),
        r.phase is None,
        r.commands.deep_view() == plan.commands.deep_view(),
        r.reversible,
{
    OperationRecord {
        id,
        operation: String::from_str("split-branch"),
        started,
        finished: None,
        refs_before: refs_before(plan),
        refs_after: PathMap::new(),
        snapshots: PathMap::new(),
        details: details(plan),
        phase: None,
        commands: crate::text::clone_strings(&plan.commands),
        reversible: true,
    }
}

pub open spec fn refs_before_spec(plan: &SplitBranchPlan) -> Map<Seq<char>, Seq<char>> {
    Map::<Seq<char>, Seq<char>>::empty().insert("HEAD"@, plan.source_head@).insert(
        plan.new_branch_ref@,
        Seq::empty(),
    )
}

/// Undoing a split deletes the branch it created: the refs a split records
/// before it runs give a recovery that runs `git update-ref -d` on the new branch.
pub proof fn law_split_recovery_deletes_new_branch(
    plan: SplitBranchPlan,
    listing: Seq<(Seq<char>, Seq<char>)>,
)
    requires
        strictly_sorted(keys_of(listing)),
        map_of(listing) == refs_before_spec(&plan),
        starts_with_spec(plan.new_branch_ref@, "refs/"@),
    ensures
        restore_commands(listing).contains(restore_one(plan.new_branch_ref@, Seq::empty())),
        restore_one(plan.new_branch_ref@, Seq::empty()) == "git update-ref -d "@ + plan.new_branch_ref@,
{
    crate::recording::recovery::law_recovery_restores_each_ref(listing, plan.new_branch_ref@);
}

/// The new branch is recorded with an empty previous value: it did not exist,
/// so recovery deletes it rather than restoring a former target.
pub fn refs_before(plan: &SplitBranchPlan) -> (r: PathMap<String>)
    ensures
        r.map() == refs_before_spec(plan),
{
    let mut m: PathMap<String> = PathMap::new();
    m.insert(String::from_str("HEAD"), String::from_str(plan.source_head.as_str()));
    m.insert(plan.new_branch_ref.clone(), String::new());
    m
}

pub open spec fn details_spec(plan: &SplitBranchPlan) -> Map<Seq<char>, Seq<char>> {
    Map::<Seq<char>, Seq<char>>::empty().insert("source-branch"@, plan.source_branch@).insert(
        "merge-base"@,
        plan.merge_base@,
    ).insert("paths"@, join_spec(plan.changed_paths.deep_view(), ", "@))
}

/// The source branch, the merge base and the carried paths.
pub fn details(plan: &SplitBranchPlan) -> (r: PathMap<String>)
    ensures
        r.map() == details_spec(plan),
{
    let mut m: PathMap<String> = PathMap::new();
    m.insert(String::from_str("source-branch"), plan.source_branch.clone());
    m.insert(String::from_str("merge-base"), String::from_str(plan.merge_base.as_str()));
    let names = path_strings(&plan.changed_paths);
    m.insert(String::from_str("paths"), join(&names, ", "));
    m
}

/// The paths as owned strings.
pub fn path_strings(paths: &Vec<RepoPath>) -> (r: Vec<String>)
    ensures
        r.deep_view() == paths.deep_view(),
{
    let mut r: Vec<String> = Vec::new();
    let mut i: usize = 0;
    while i < paths.len()
        invariant
            i <= paths@.len(),
            r.deep_view() == paths.deep_view().take(i as int),
        decreases paths@.len() - i,
    {
        let ghost before = r.deep_view();
        r.push(String::from_str(paths[i].as_str()));
        assert(r.deep_view() =~= before.push(paths@[i as int]@));
        assert(paths.deep_view().take(i + 1) =~= paths.deep_view().take(i as int).push(
            paths@[i as int]@,
        ));
        i = i + 1;
    }
    assert(paths.deep_view().take(paths@.len() as int) == paths.deep_view());
    r
}

} // verus!
