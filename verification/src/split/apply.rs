//! Carrying out a split plan: the patch of the carried paths is applied on the
//! merge base in a temporary worktree, committed, and named by the new branch.
use vstd::prelude::*;

use crate::host::grows;

use crate::host::{reads_only, Effect, Host};

use crate::git::{command_args, extend_args, push_arg, GitCommand, GitRunner};
use crate::recording::oplog::{
    began_with, lemma_began_logged, lemma_finish_extends, lemma_finish_logged, lemma_logged_kept, logged,
    logged_finished, single_entry, Oplog,
};
use crate::rewrite::materialize::operation_id_spec;
use crate::rewrite::{ObjectId, RepoPath};

use super::errors::SplitError;
use super::model::{SplitBranchPlan, SplitBranchResult};
use super::state::{literal, parse_id};
use super::{plan, record, worktree};

verus! {

broadcast use crate::host::lemma_grows_chain, crate::host::lemma_grows_none, crate::host::lemma_grows_trace,
    crate::host::lemma_grows_reply;

/// Creates the branch the plan describes. The source branch is never touched.
pub(crate) fn split<R: GitRunner>(runner: &mut Host<R>, split_plan: &SplitBranchPlan) -> (r: Result<
    SplitBranchResult,
    SplitError,
>)
    ensures
        r is Ok ==> plan::split_plan_held(*final(runner), old(runner).trace().len() as int, *split_plan),
        grows(*old(runner), *final(runner)),
        r matches Ok(result) ==> exists|k: int|
            0 <= k < final(runner).trace().len() && final(runner).trace()[k] == branch_create(
                *split_plan,
                result.commit@,
            ),
        r matches Ok(result) ==> {
            &&& result.branch@ == split_plan.new_branch@
            &&& result.reference@ == split_plan.new_branch_ref@
            &&& result.merge_base@ == split_plan.merge_base@
            &&& result.paths.deep_view() == split_plan.changed_paths.deep_view()
        },
        r matches Err(e) && (e is StalePlan || e is ExistingBranch) ==> reads_only(
            old(runner).trace(),
            final(runner).trace(),
        ),
        r matches Ok(result) ==> exists|id: Seq<char>, started: Seq<char>|
            logged(final(runner).trace(), #[trigger] record::split_record_view(*split_plan, id, started))
                && logged_finished(
                final(runner).trace(),
                id,
                Map::<Seq<char>, Seq<char>>::empty().insert(split_plan.new_branch_ref@, result.commit@),
            ),
{
    match plan::verify_current(runner, split_plan) {
        Ok(()) => {},
        Err(e) => return Err(e),
    }
    let ghost verified = *runner;
    let git_dir = match runner.git_dir() {
        Ok(d) => d,
        Err(e) => return Err(SplitError::Git(e)),
    };
    let oplog = match Oplog::open(runner, git_dir.as_str()) {
        Ok(o) => o,
        Err(e) => return Err(SplitError::Recording(e.message())),
    };
    let ghost before_begin = *runner;
    let operation_id = match record::begin(runner, &oplog, split_plan) {
        Ok(id) => id,
        Err(e) => return Err(e),
    };
    let ghost begun = *runner;
    let ghost (started_at, pid_at) = choose|started: Seq<char>, pid: nat|
        operation_id@ == operation_id_spec("split-branch"@, started, pid) && began_with(
            before_begin.trace(),
            begun.trace(),
            oplog.path@,
            started,
            pid,
            record::split_record_view(*split_plan, operation_id@, started),
        );
    let ghost record_begun = record::split_record_view(*split_plan, operation_id@, started_at);
    proof {
        lemma_began_logged(before_begin.trace(), begun.trace(), oplog.path@, started_at, pid_at, record_begun);
    }
    let tree = match build_tree(runner, split_plan) {
        Ok(t) => t,
        Err(e) => return Err(e),
    };
    let commit = match commit_tree(runner, split_plan, &tree) {
        Ok(c) => c,
        Err(e) => return Err(e),
    };
    match create_branch(runner, split_plan, &commit) {
        Ok(()) => {},
        Err(e) => return Err(e),
    }
    let ghost created = runner.trace();
    let after = single_entry(split_plan.new_branch_ref.as_str(), commit.as_str());
    let got = oplog.finish(runner, operation_id.as_str(), after);
    proof {
        if got is Ok {
            lemma_finish_extends(
                created,
                runner.trace(),
                oplog.path@,
                operation_id@,
                Map::<Seq<char>, Seq<char>>::empty().insert(split_plan.new_branch_ref@, commit@),
            );
            let k = created.len() - 1;
            assert(runner.trace()[k] == runner.trace().take(created.len() as int)[k]);
            let refs = Map::<Seq<char>, Seq<char>>::empty().insert(split_plan.new_branch_ref@, commit@);
            lemma_finish_logged(created, runner.trace(), oplog.path@, operation_id@, refs);
            lemma_logged_kept(begun.trace(), runner.trace(), record_begun, operation_id@, refs);
        }
    }
    match got {
        Ok(()) => {},
        Err(e) => return Err(SplitError::Recording(e.message())),
    }
    proof {
        plan::lemma_split_held_grows(verified, *runner, old(runner).trace().len() as int, old(runner).trace().len() as int, *split_plan);
    }
    Ok(
        SplitBranchResult {
            branch: split_plan.new_branch.clone(),
            reference: split_plan.new_branch_ref.clone(),
            commit,
            merge_base: split_plan.merge_base.clone(),
            paths: crate::rewrite::model::clone_paths(&split_plan.changed_paths),
        },
    )
}

/// The tree of the merge base with the carried paths' patch applied.
fn build_tree<R: GitRunner>(runner: &mut Host<R>, split_plan: &SplitBranchPlan) -> (r: Result<
    ObjectId,
    SplitError,
>)
    ensures
        grows(*old(runner), *final(runner)),
        r matches Err(e) ==> !(e is ExistingBranch),
        r matches Err(e) ==> !(e is StalePlan),
        r matches Ok(id) ==> crate::rewrite::model::valid_object_id(id@),
{
    let patch = match read_patch(runner, split_plan) {
        Ok(p) => p,
        Err(e) => return Err(e),
    };
    with_temporary(runner, &split_plan.merge_base, patch)
}

/// Applies `patch` inside a detached worktree checked out at `at` and writes
/// its tree, so the user's own checkout never churns. Once added, the
/// worktree is removed on every exit path.
fn with_temporary<R: GitRunner>(runner: &mut Host<R>, at: &ObjectId, patch: Vec<u8>) -> (r: Result<
    ObjectId,
    SplitError,
>)
    ensures
        r is Ok ==> exists|k1: int, k2: int, path: Seq<char>|
            #![trigger final(runner).trace()[k1], final(runner).trace()[k2], worktree::remove_effect(path)]
            old(runner).trace().len() <= k1 < k2 < final(runner).trace().len() && final(runner).trace()[k1]
                == worktree::add_effect(path, at@) && final(runner).trace()[k2] == worktree::remove_effect(path),
        grows(*old(runner), *final(runner)),
        r matches Err(e) ==> !(e is ExistingBranch),
        r matches Err(e) ==> !(e is StalePlan),
        r matches Ok(id) ==> crate::rewrite::model::valid_object_id(id@),
{
    let path = match worktree::reserve(runner) {
        Ok(p) => p,
        Err(e) => return Err(e),
    };
    let ghost k1 = runner.trace().len() as int;
    match worktree::add(runner, path.as_str(), at) {
        Ok(()) => {},
        Err(e) => return Err(e),
    }
    let ghost h1 = *runner;
    let result = match apply_patch(runner, path.as_str(), patch) {
        Ok(()) => write_tree(runner, path.as_str()),
        Err(e) => Err(e),
    };
    let ghost k2 = runner.trace().len() as int;
    worktree::remove(runner, path.as_str());
    proof {
        assert(runner.trace()[k1] == h1.trace()[k1]);
        assert(runner.trace()[k2] == worktree::remove_effect(path@));
    }
    result
}

pub open spec fn literal_specs(paths: Seq<Seq<char>>) -> Seq<Seq<char>> {
    Seq::new(paths.len(), |i: int| ":(literal)"@ + paths[i])
}

/// `diff --binary ... <merge-base> <head> -- <pathspecs>`.
pub fn patch_args(split_plan: &SplitBranchPlan) -> (r: Vec<String>)
    ensures
        r.deep_view() == seq![
            "diff"@,
            "--binary"@,
            "--no-relative"@,
            "--no-renames"@,
            "--no-ext-diff"@,
            "--no-color"@,
            split_plan.merge_base@,
            split_plan.source_head@,
            "--"@,
        ] + literal_specs(split_plan.changed_paths.deep_view()),
{
    let mut values = command_args(
        &["diff", "--binary", "--no-relative", "--no-renames", "--no-ext-diff", "--no-color"],
    );
    push_arg(&mut values, split_plan.merge_base.as_str());
    push_arg(&mut values, split_plan.source_head.as_str());
    push_arg(&mut values, "--");
    let specs = pathspecs(&split_plan.changed_paths);
    extend_args(&mut values, &specs);
    assert(values.deep_view() =~= seq![
        "diff"@,
        "--binary"@,
        "--no-relative"@,
        "--no-renames"@,
        "--no-ext-diff"@,
        "--no-color"@,
        split_plan.merge_base@,
        split_plan.source_head@,
        "--"@,
    ] + literal_specs(split_plan.changed_paths.deep_view()));
    values
}

/// The binary patch of the carried paths; an empty one means nothing to carry.
fn read_patch<R: GitRunner>(runner: &mut Host<R>, split_plan: &SplitBranchPlan) -> (r: Result<
    Vec<u8>,
    SplitError,
>)
    ensures
        grows(*old(runner), *final(runner)),
        r matches Err(e) ==> !(e is ExistingBranch),
        r matches Err(e) ==> !(e is StalePlan),
        r matches Ok(p) ==> p@.len() > 0,
{
    let output = match runner.run(&GitCommand::read(patch_args(split_plan))) {
        Ok(o) => o,
        Err(e) => return Err(SplitError::Git(e)),
    };
    if output.stdout.len() == 0 {
        return Err(SplitError::NoChanges);
    }
    Ok(output.stdout)
}

/// `-C <path> -c submodule.recurse=false apply --index --binary --whitespace=nowarn -`.
pub fn apply_args(path: &str) -> (r: Vec<String>)
    ensures
        r.deep_view() == seq![
            "-C"@,
            path@,
            "-c"@,
            "submodule.recurse=false"@,
            "apply"@,
            "--index"@,
            "--binary"@,
            "--whitespace=nowarn"@,
            "-"@,
        ],
{
    let mut values = command_args(&["-C"]);
    push_arg(&mut values, path);
    let rest = command_args(
        &["-c", "submodule.recurse=false", "apply", "--index", "--binary", "--whitespace=nowarn", "-"],
    );
    extend_args(&mut values, &rest);
    assert(values.deep_view() =~= seq![
        "-C"@,
        path@,
        "-c"@,
        "submodule.recurse=false"@,
        "apply"@,
        "--index"@,
        "--binary"@,
        "--whitespace=nowarn"@,
        "-"@,
    ]);
    values
}

fn apply_patch<R: GitRunner>(runner: &mut Host<R>, path: &str, patch: Vec<u8>) -> (r: Result<(), SplitError>)
    ensures
        grows(*old(runner), *final(runner)),
        r matches Err(e) ==> !(e is ExistingBranch),
        r matches Err(e) ==> !(e is StalePlan),
        r matches Err(e) ==> e is Git,
{
    match runner.run_unlocked(&GitCommand::write(apply_args(path)).with_stdin(patch)) {
        Ok(_) => Ok(()),
        Err(e) => Err(SplitError::Git(e)),
    }
}

fn write_tree<R: GitRunner>(runner: &mut Host<R>, path: &str) -> (r: Result<ObjectId, SplitError>)
    ensures
        grows(*old(runner), *final(runner)),
        r matches Err(e) ==> !(e is ExistingBranch),
        r matches Err(e) ==> !(e is StalePlan),
        r matches Ok(id) ==> crate::rewrite::model::valid_object_id(id@),
{
    let mut values = command_args(&["-C"]);
    push_arg(&mut values, path);
    push_arg(&mut values, "write-tree");
    let output = match runner.run_unlocked(&GitCommand::write(values)) {
        Ok(o) => o,
        Err(e) => return Err(SplitError::Git(e)),
    };
    parse_id(output.stdout.as_slice())
}

/// `commit-tree <tree> -p <merge-base>`, the message on standard input.
pub fn commit_args(tree: &ObjectId, parent: &ObjectId) -> (r: Vec<String>)
    ensures
        r.deep_view() == seq!["commit-tree"@, tree@, "-p"@, parent@],
{
    let mut values = command_args(&["commit-tree"]);
    push_arg(&mut values, tree.as_str());
    push_arg(&mut values, "-p");
    push_arg(&mut values, parent.as_str());
    assert(values.deep_view() =~= seq!["commit-tree"@, tree@, "-p"@, parent@]);
    values
}

fn commit_tree<R: GitRunner>(runner: &mut Host<R>, split_plan: &SplitBranchPlan, tree: &ObjectId) -> (r: Result<
    ObjectId,
    SplitError,
>)
    ensures
        grows(*old(runner), *final(runner)),
        r matches Err(e) ==> !(e is ExistingBranch),
        r matches Err(e) ==> !(e is StalePlan),
        r matches Ok(id) ==> crate::rewrite::model::valid_object_id(id@),
{
    let message = crate::text::bytes_of(split_plan.message.as_slice(), 0, split_plan.message.len());
    let command = GitCommand::write(commit_args(tree, &split_plan.merge_base)).with_stdin(message);
    let output = match runner.run_unlocked(&command) {
        Ok(o) => o,
        Err(e) => return Err(SplitError::Git(e)),
    };
    parse_id(output.stdout.as_slice())
}

/// `update-ref -m "git-helper split-branch" <ref> <commit> ""`.
pub fn create_branch_args(reference: &str, commit: &ObjectId) -> (r: Vec<String>)
    ensures
        r.deep_view() == seq![
            "update-ref"@,
            "-m"@,
            "git-helper split-branch"@,
            reference@,
            commit@,
            Seq::<char>::empty(),
        ],
{
    let mut values = command_args(&["update-ref", "-m", "git-helper split-branch"]);
    push_arg(&mut values, reference);
    push_arg(&mut values, commit.as_str());
    let ghost before = values.deep_view();
    values.push(String::new());
    assert(values.deep_view() =~= before.push(Seq::<char>::empty()));
    assert(values.deep_view() =~= seq![
        "update-ref"@,
        "-m"@,
        "git-helper split-branch"@,
        reference@,
        commit@,
        Seq::<char>::empty(),
    ]);
    values
}

/// The command that creates the plan's branch at `commit`, refused by Git
/// if the branch exists.
pub open spec fn branch_create(plan: SplitBranchPlan, commit: Seq<char>) -> Effect {
    Effect::Run {
        args: seq![
            "update-ref"@,
            "-m"@,
            "git-helper split-branch"@,
            plan.new_branch_ref@,
            commit,
            Seq::<char>::empty(),
        ],
        writes: true,
    }
}

/// The empty old value makes Git refuse the write unless the branch is still
/// absent, so a racing branch creation fails instead of being overwritten.
fn create_branch<R: GitRunner>(runner: &mut Host<R>, split_plan: &SplitBranchPlan, commit: &ObjectId) -> (r: Result<
    (),
    SplitError,
>)
    ensures
        grows(*old(runner), *final(runner)),
        final(runner).trace() == old(runner).trace().push(branch_create(*split_plan, commit@)),
        r matches Err(e) ==> !(e is ExistingBranch),
        r matches Err(e) ==> !(e is StalePlan),
        r matches Err(e) ==> e is Git,
{
    let values = create_branch_args(split_plan.new_branch_ref.as_str(), commit);
    match runner.run_unlocked(&GitCommand::write(values)) {
        Ok(_) => Ok(()),
        Err(e) => Err(SplitError::Git(e)),
    }
}

/// `:(literal)<path>` for each path.
pub fn pathspecs(paths: &Vec<RepoPath>) -> (r: Vec<String>)
    ensures
        r.deep_view() == literal_specs(paths.deep_view()),
{
    let mut r: Vec<String> = Vec::new();
    let mut i: usize = 0;
    while i < paths.len()
        invariant
            i <= paths@.len(),
            r.deep_view() == literal_specs(paths.deep_view().take(i as int)),
        decreases paths@.len() - i,
    {
        let ghost before = r.deep_view();
        let item = literal(paths[i].as_str());
        r.push(item);
        assert(r.deep_view() =~= before.push(item@));
        assert(r.deep_view() =~= literal_specs(paths.deep_view().take(i + 1)));
        i = i + 1;
    }
    assert(paths.deep_view().take(paths@.len() as int) == paths.deep_view());
    r
}

} // verus!
