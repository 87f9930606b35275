//! The detached worktree a split builds its tree in, so the user's own
//! checkout never churns.
use vstd::prelude::*;

use crate::host::grows;

use crate::host::{Effect, Host};

use crate::git::{command_args, join_path, push_arg, GitCommand, GitRunner};
use crate::recording::oplog::timestamp;
use crate::rewrite::materialize::{names_operation, operation_id};
use crate::rewrite::ObjectId;

use super::errors::SplitError;

verus! {

broadcast use crate::host::lemma_grows_chain, crate::host::lemma_grows_none, crate::host::lemma_grows_trace,
    crate::host::lemma_grows_reply;

/// A fresh path under `<git-dir>/githelper/worktrees`, its folder created.
pub(crate) fn reserve<R: GitRunner>(runner: &mut Host<R>) -> (r: Result<String, SplitError>)
    ensures
        grows(*old(runner), *final(runner)),
        r matches Err(e) ==> !(e is ExistingBranch),
        r matches Err(e) ==> !(e is StalePlan),
        r matches Ok(path) ==> exists|git_dir: Seq<char>, name: Seq<char>|
            path@ == git_dir + "/githelper/worktrees/"@ + name && names_operation(name, "split"@),
{
    let git_dir = match runner.git_dir() {
        Ok(d) => d,
        Err(e) => return Err(SplitError::Git(e)),
    };
    let tool = join_path(git_dir.as_str(), "githelper");
    let folder = join_path(tool.as_str(), "worktrees");
    match runner.create_dir_all(folder.as_str()) {
        Ok(()) => {},
        Err(e) => return Err(SplitError::Io(e)),
    }
    let started = timestamp(runner);
    let name = operation_id("split", started.as_str(), runner.process_id());
    let path = join_path(folder.as_str(), name.as_str());
    proof {
        reveal_strlit("/githelper/worktrees/");
        reveal_strlit("githelper");
        reveal_strlit("worktrees");
        assert(path@ == git_dir@ + "/githelper/worktrees/"@ + name@);
    }
    Ok(path)
}

/// `-c submodule.recurse=false worktree add --detach <path> <at>`.
pub fn add_args(path: &str, at: &ObjectId) -> (r: Vec<String>)
    ensures
        r.deep_view() == seq![
            "-c"@,
            "submodule.recurse=false"@,
            "worktree"@,
            "add"@,
            "--detach"@,
            path@,
            at@,
        ],
{
    let mut values = command_args(&["-c", "submodule.recurse=false", "worktree", "add", "--detach"]);
    push_arg(&mut values, path);
    push_arg(&mut values, at.as_str());
    assert(values.deep_view() =~= seq![
        "-c"@,
        "submodule.recurse=false"@,
        "worktree"@,
        "add"@,
        "--detach"@,
        path@,
        at@,
    ]);
    values
}

/// Checks out `at` detached at `path`.
pub(crate) fn add<R: GitRunner>(runner: &mut Host<R>, path: &str, at: &ObjectId) -> (r: Result<(), SplitError>)
    ensures
        final(runner).trace() == old(runner).trace().push(add_effect(path@, at@)),
        grows(*old(runner), *final(runner)),
        r matches Err(e) ==> !(e is ExistingBranch),
        r matches Err(e) ==> !(e is StalePlan),
        r matches Err(e) ==> e is Git,
{
    match runner.run_unlocked(&GitCommand::write(add_args(path, at))) {
        Ok(_) => Ok(()),
        Err(e) => Err(SplitError::Git(e)),
    }
}

/// Removes the worktree at `path`, deleting the folder by hand if Git cannot,
/// then prunes Git's bookkeeping. Failures are ignored: this runs on every exit path.
/// `worktree add --detach` of `path` at `at`.
pub open spec fn add_effect(path: Seq<char>, at: Seq<char>) -> Effect {
    Effect::Run {
        args: seq!["-c"@, "submodule.recurse=false"@, "worktree"@, "add"@, "--detach"@, path, at],
        writes: true,
    }
}

/// `worktree remove --force` of `path`.
pub open spec fn remove_effect(path: Seq<char>) -> Effect {
    Effect::Run { args: seq!["worktree"@, "remove"@, "--force"@, path], writes: true }
}

pub(crate) fn remove<R: GitRunner>(runner: &mut Host<R>, path: &str)
    ensures
        grows(*old(runner), *final(runner)),
        old(runner).trace().len() < final(runner).trace().len(),
        final(runner).trace()[old(runner).trace().len() as int] == remove_effect(path@),
{
    let mut values = command_args(&["worktree", "remove", "--force"]);
    push_arg(&mut values, path);
    assert(values.deep_view() =~= seq!["worktree"@, "remove"@, "--force"@, path@]);
    let removed = runner.run_unlocked(&GitCommand::write(values)).is_ok();
    if !removed {
        let _ = runner.remove_dir_all(path);
    }
    let _ = runner.run_unlocked(&GitCommand::write(command_args(&["worktree", "prune"])));
}

} // verus!
