//! What applying Saved work would do, worked out with `git merge-tree` and
//! without touching the checkout.
use vstd::prelude::*;

use crate::host::grows;

use crate::host::{lemma_reads_chain, reads_only, Host};

use crate::git::{command_args, join_path, push_arg, GitCommand, GitRunner};
use crate::rewrite::ObjectId;
use crate::split::state::plainly_invalid_branch;
use crate::text::{concat, split_once, split_once_spec, trim, trim_spec};

use super::errors::SwitchError;
use super::model::SavedWorkApplyPreview;
use super::{plan, state};

verus! {

broadcast use crate::host::lemma_grows_chain, crate::host::lemma_grows_none, crate::host::lemma_grows_trace,
    crate::host::lemma_grows_reply;

/// The exit status with which `git merge-tree` reports conflicts.
pub const MERGE_CONFLICT_EXIT: i32 = 1;

pub(crate) fn preview<R: GitRunner>(runner: &mut Host<R>, branch: &str) -> (r: Result<SavedWorkApplyPreview, SwitchError>)
    ensures
        r matches Err(SwitchError::MissingSavedWork(_)) ==> reads_only(old(runner).trace(), final(runner).trace()),
        grows(*old(runner), *final(runner)),
        r matches Err(e) ==> !(e is StalePlan),
        r matches Ok(p) ==> p.branch@ == branch@ && !plainly_invalid_branch(branch@),
{
    let ghost t0 = runner.trace();
    match state::ensure_no_operation(runner) {
        Ok(()) => {},
        Err(e) => return Err(e),
    }
    let ghost t1 = runner.trace();
    match state::validate_branch_name(runner, branch) {
        Ok(()) => {},
        Err(e) => return Err(e),
    }
    let ghost t2 = runner.trace();
    let got = plan::read_saved_work(runner, branch);
    proof {
        lemma_reads_chain(t0, t1, t2);
        lemma_reads_chain(t0, t2, runner.trace());
    }
    let saved = match got {
        Ok(Some(s)) => s,
        Ok(None) => return Err(SwitchError::MissingSavedWork(String::from_str(branch))),
        Err(e) => return Err(e),
    };
    let current = match state::read_branch(runner) {
        Ok(b) => b,
        Err(e) => return Err(e),
    };
    let on_current = crate::order::str_eq(current.as_str(), branch);
    let stash = saved.snapshot.as_str();
    let base = match tree_of(runner, concat(stash, "^1").as_str()) {
        Ok(t) => t,
        Err(e) => return Err(e),
    };
    let stash_tree = match tree_of(runner, stash) {
        Ok(t) => t,
        Err(e) => return Err(e),
    };
    let ours = if on_current {
        worktree_tree(runner)
    } else {
        tree_of(runner, state::branch_ref(branch).as_str())
    };
    let ours = match ours {
        Ok(t) => t,
        Err(e) => return Err(e),
    };
    let (after, worktree_conflicts) = match merge_apply(
        runner,
        base.as_str(),
        ours.as_str(),
        stash_tree.as_str(),
    ) {
        Ok(p) => p,
        Err(e) => return Err(e),
    };
    let index_conflicts = match index_conflicts(runner, stash, base.as_str(), on_current, branch) {
        Ok(b) => b,
        Err(e) => return Err(e),
    };
    let before_tree = match ObjectId::new(ours) {
        Ok(id) => id,
        Err(m) => return Err(SwitchError::InvalidState(m)),
    };
    let after_tree = match ObjectId::new(after) {
        Ok(id) => id,
        Err(m) => return Err(SwitchError::InvalidState(m)),
    };
    Ok(
        SavedWorkApplyPreview {
            branch: String::from_str(branch),
            on_current_branch: on_current,
            before_tree,
            after_tree,
            worktree_conflicts,
            index_conflicts,
        },
    )
}

/// Whether the Saved work's index would conflict; a snapshot without a staged
/// part has none.
fn index_conflicts<R: GitRunner>(
    runner: &mut Host<R>,
    stash: &str,
    base: &str,
    on_current: bool,
    branch: &str,
) -> (r: Result<bool, SwitchError>)
    ensures
        r matches Err(e) ==> !(e is MissingSavedWork),
        grows(*old(runner), *final(runner)),
        r matches Err(e) ==> !(e is StalePlan),
        r matches Err(e) ==> e is Git || e is InvalidState,
{
    let index_parent = concat(stash, "^2");
    match state::optional_id(runner, index_parent.as_str()) {
        Ok(Some(_)) => {},
        Ok(None) => return Ok(false),
        Err(e) => return Err(e),
    }
    let theirs = match tree_of(runner, index_parent.as_str()) {
        Ok(t) => t,
        Err(e) => return Err(e),
    };
    let ours = if on_current {
        index_tree(runner)
    } else {
        tree_of(runner, state::branch_ref(branch).as_str())
    };
    let ours = match ours {
        Ok(t) => t,
        Err(e) => return Err(e),
    };
    match merge_apply(runner, base, ours.as_str(), theirs.as_str()) {
        Ok((_, conflicts)) => Ok(conflicts),
        Err(e) => Err(e),
    }
}

/// The merged tree and whether it has conflicts; exit status 1 is Git's way
/// of saying there were conflicts, not a failure.
fn merge_apply<R: GitRunner>(runner: &mut Host<R>, base: &str, ours: &str, theirs: &str) -> (r: Result<
    (String, bool),
    SwitchError,
>)
    ensures
        r matches Err(e) ==> !(e is MissingSavedWork),
        grows(*old(runner), *final(runner)),
        r matches Err(e) ==> !(e is StalePlan),
        r matches Err(e) ==> e is Git || e is InvalidState,
{
    let mut values = command_args(&["merge-tree", "--write-tree"]);
    push_arg(&mut values, concat("--merge-base=", base).as_str());
    push_arg(&mut values, "--messages");
    push_arg(&mut values, ours);
    push_arg(&mut values, theirs);
    let mut allowed: Vec<i32> = Vec::new();
    allowed.push(MERGE_CONFLICT_EXIT);
    let output = match runner.run_unlocked_allowing_exit(&GitCommand::read(values), &allowed) {
        Ok(o) => o,
        Err(e) => return Err(SwitchError::Git(e)),
    };
    let conflicts = match output.exit_code {
        Some(code) => code == MERGE_CONFLICT_EXIT,
        None => false,
    };
    match first_line(output.stdout.as_slice()) {
        Ok(merged) => Ok((merged, conflicts)),
        Err(e) => Err(e),
    }
}

/// A command that runs against the preview's own index file.
fn with_index(values: Vec<String>, index: &str) -> (r: GitCommand)
    ensures
        r.args@ == values@,
        r.writes,
        r.environment@.len() == 1,
        r.environment@[0].0@ == "GIT_INDEX_FILE"@,
        r.environment@[0].1@ == index@,
{
    GitCommand::write(values).with_environment(String::from_str("GIT_INDEX_FILE"), String::from_str(index))
}

/// The tree of the worktree's tracked files, written through a temporary index
/// that is removed afterwards, whatever happened.
fn worktree_tree<R: GitRunner>(runner: &mut Host<R>) -> (r: Result<String, SwitchError>)
    ensures
        r matches Err(e) ==> !(e is MissingSavedWork),
        grows(*old(runner), *final(runner)),
        r matches Err(e) ==> !(e is StalePlan),
        r matches Err(e) ==> e is Git || e is InvalidState,
        r matches Ok(t) ==> t@.len() > 0,
{
    let index = match preview_index_path(runner) {
        Ok(p) => p,
        Err(e) => return Err(e),
    };
    let result = write_worktree_tree(runner, index.as_str());
    runner.remove_file(index.as_str());
    result
}

fn write_worktree_tree<R: GitRunner>(runner: &mut Host<R>, index: &str) -> (r: Result<String, SwitchError>)
    ensures
        r matches Err(e) ==> !(e is MissingSavedWork),
        grows(*old(runner), *final(runner)),
        r matches Err(e) ==> !(e is StalePlan),
        r matches Err(e) ==> e is Git || e is InvalidState,
        r matches Ok(t) ==> t@.len() > 0,
{
    match runner.run_unlocked(&with_index(command_args(&["read-tree", "HEAD"]), index)) {
        Ok(_) => {},
        Err(e) => return Err(SwitchError::Git(e)),
    }
    match runner.run_unlocked(&with_index(command_args(&["add", "-u"]), index)) {
        Ok(_) => {},
        Err(e) => return Err(SwitchError::Git(e)),
    }
    let output = match runner.run_unlocked(&with_index(command_args(&["write-tree"]), index)) {
        Ok(o) => o,
        Err(e) => return Err(SwitchError::Git(e)),
    };
    first_line(output.stdout.as_slice())
}

fn index_tree<R: GitRunner>(runner: &mut Host<R>) -> (r: Result<String, SwitchError>)
    ensures
        r matches Err(e) ==> !(e is MissingSavedWork),
        grows(*old(runner), *final(runner)),
        r matches Err(e) ==> !(e is StalePlan),
        r matches Err(e) ==> e is Git || e is InvalidState,
        r matches Ok(t) ==> t@.len() > 0,
{
    let output = match runner.run_unlocked(&GitCommand::write(command_args(&["write-tree"]))) {
        Ok(o) => o,
        Err(e) => return Err(SwitchError::Git(e)),
    };
    first_line(output.stdout.as_slice())
}

/// The tree of `spec`: `rev-parse <spec>^{tree}`.
fn tree_of<R: GitRunner>(runner: &mut Host<R>, spec: &str) -> (r: Result<String, SwitchError>)
    ensures
        r matches Err(e) ==> !(e is MissingSavedWork),
        grows(*old(runner), *final(runner)),
        r matches Err(e) ==> !(e is StalePlan),
        r matches Err(e) ==> e is Git || e is InvalidState,
        r matches Ok(t) ==> t@.len() > 0,
{
    let mut values = command_args(&["rev-parse"]);
    push_arg(&mut values, concat(spec, "^{tree}").as_str());
    let output = match runner.run_unlocked(&GitCommand::read(values)) {
        Ok(o) => o,
        Err(e) => return Err(SwitchError::Git(e)),
    };
    first_line(output.stdout.as_slice())
}

/// `<git-dir>/githelper/preview-index-<process id>`, its folder created.
fn preview_index_path<R: GitRunner>(runner: &mut Host<R>) -> (r: Result<String, SwitchError>)
    ensures
        r matches Err(e) ==> !(e is MissingSavedWork),
        grows(*old(runner), *final(runner)),
        r matches Err(e) ==> !(e is StalePlan),
        r matches Err(e) ==> e is Git || e is InvalidState,
{
    let git_dir = match runner.git_dir() {
        Ok(d) => d,
        Err(e) => return Err(SwitchError::Git(e)),
    };
    let dir = join_path(git_dir.as_str(), "githelper");
    match runner.create_dir_all(dir.as_str()) {
        Ok(()) => {},
        Err(e) => return Err(SwitchError::InvalidState(e)),
    }
    let name = crate::text::decimal(runner.process_id() as u64);
    Ok(join_path(dir.as_str(), concat("preview-index-", name.as_str()).as_str()))
}

/// The first line of `t`, trimmed.
pub open spec fn first_line_spec(t: Seq<char>) -> Seq<char> {
    match split_once_spec(t, '\n') {
        Some((line, _)) => trim_spec(line),
        None => trim_spec(t),
    }
}

/// The first line Git printed, trimmed; refused when it is empty.
pub fn first_line(bytes: &[u8]) -> (r: Result<String, SwitchError>)
    ensures
        r is Ok <==> vstd::utf8::valid_utf8(bytes@) && first_line_spec(
            vstd::utf8::decode_utf8(bytes@),
        ).len() > 0,
        r matches Ok(s) ==> s@ == first_line_spec(vstd::utf8::decode_utf8(bytes@)),
        r matches Err(e) ==> e is InvalidState,
{
    let text = match state::text(bytes) {
        Ok(t) => t,
        Err(e) => return Err(e),
    };
    let line = match split_once(text.as_str(), '\n') {
        Some((first, _)) => trim(first.as_str()),
        None => trim(text.as_str()),
    };
    if line.as_str().is_empty() {
        return Err(SwitchError::InvalidState(String::from_str("Git output was empty")));
    }
    Ok(line)
}

} // verus!
