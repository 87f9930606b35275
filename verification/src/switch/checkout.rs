//! Moving the checkout: onto the target branch, or detached onto a commit.
use vstd::prelude::*;

use crate::host::grows;

use crate::host::{Effect, Host};

use crate::git::{command_args, push_arg, GitCommand, GitRunner};
use crate::text::{concat, concat3, split_once, split_once_spec, strip_prefix, starts_with_spec};

use super::errors::SwitchError;
use super::model::QuickSwitchPlan;
use super::present;

verus! {

broadcast use crate::host::lemma_grows_chain, crate::host::lemma_grows_none, crate::host::lemma_grows_trace,
    crate::host::lemma_grows_reply;

/// A remote-tracking ref without its `refs/remotes/` prefix.
pub open spec fn short_remote_spec(remote: Seq<char>) -> Seq<char> {
    if starts_with_spec(remote, "refs/remotes/"@) {
        remote.skip("refs/remotes/"@.len() as int)
    } else {
        remote
    }
}

pub fn short_remote(remote: &str) -> (r: String)
    ensures
        r@ == short_remote_spec(remote@),
{
    proof {
        reveal_strlit("refs/remotes/");
    }
    match strip_prefix(remote, "refs/remotes/") {
        Some(rest) => {
            assert(remote@.skip("refs/remotes/"@.len() as int) =~= rest@);
            rest
        },
        None => String::from_str(remote),
    }
}

/// The commands that set `local`'s upstream from `<remote>/<branch>`; none
/// when the name has no `/`.
pub open spec fn upstream_effects(local: Seq<char>, remote_short: Seq<char>) -> Seq<Effect> {
    match split_once_spec(remote_short, '/') {
        Some((remote, branch)) => seq![
            Effect::Run {
                args: seq!["config"@, "--local"@, "branch."@ + local + ".remote"@, remote],
                writes: true,
            },
            Effect::Run {
                args: seq!["config"@, "--local"@, "branch."@ + local + ".merge"@, "refs/heads/"@ + branch],
                writes: true,
            },
        ],
        None => Seq::empty(),
    }
}

/// The commands of a switch to the plan's target: `switch -c` from the remote
/// and the upstream for a branch to be created, else a plain `switch`; then
/// the Present marker is cleared.
pub open spec fn switch_effects(plan: QuickSwitchPlan) -> Seq<Effect> {
    match plan.create_from_remote {
        Some(remote) => seq![
            Effect::Run {
                args: seq!["switch"@, "--no-recurse-submodules"@, "-c"@, plan.target_branch@, remote@],
                writes: true,
            },
        ] + upstream_effects(plan.target_branch@, short_remote_spec(remote@)) + seq![
            present::clear_effect(),
        ],
        None => seq![
            Effect::Run {
                args: seq![
                    "switch"@,
                    "--no-recurse-submodules"@,
                    "--no-guess"@,
                    "--"@,
                    plan.target_branch@,
                ],
                writes: true,
            },
            present::clear_effect(),
        ],
    }
}

/// Switches to the target branch; a branch created from a remote gets that
/// remote as its upstream. The Present marker is cleared once on a branch.
pub(crate) fn switch_branch<R: GitRunner>(runner: &mut Host<R>, switch_plan: &QuickSwitchPlan) -> (r: Result<
    (),
    SwitchError,
>)
    ensures
        r matches Err(e) ==> !(e is MissingSavedWork),
        grows(*old(runner), *final(runner)),
        r matches Err(e) ==> !(e is StalePlan),
        r matches Err(e) ==> e is Git || e is InvalidState,
        r is Ok ==> final(runner).trace() == old(runner).trace() + switch_effects(*switch_plan),
        r is Err ==> exists|k: int|
            0 <= k < switch_effects(*switch_plan).len() && final(runner).trace() == old(
                runner,
            ).trace() + switch_effects(*switch_plan).take(k),
{
    let ghost start = runner.trace();
    let ghost all = switch_effects(*switch_plan);
    match &switch_plan.create_from_remote {
        Some(remote) => {
            let short = short_remote(remote.as_str());
            let mut values = command_args(&["switch", "--no-recurse-submodules", "-c"]);
            push_arg(&mut values, switch_plan.target_branch.as_str());
            push_arg(&mut values, remote.as_str());
            assert(values.deep_view() =~= seq![
                "switch"@,
                "--no-recurse-submodules"@,
                "-c"@,
                switch_plan.target_branch@,
                remote@,
            ]);
            let ghost up = upstream_effects(switch_plan.target_branch@, short@);
            match runner.run_unlocked(&GitCommand::write(values)) {
                Ok(_) => {},
                Err(e) => {
                    assert(runner.trace() =~= start + all.take(1));
                    return Err(SwitchError::Git(e));
                },
            }
            assert(runner.trace() =~= start + all.take(1));
            let ghost mid = runner.trace();
            match set_upstream(runner, switch_plan.target_branch.as_str(), short.as_str()) {
                Ok(()) => {
                    let r = present::delete(runner);
                    assert(runner.trace() =~= start + all);
                    r
                },
                Err(e) => {
                    proof {
                        let k = choose|k: int| 0 <= k <= up.len() && runner.trace() == mid + up.take(k);
                        assert(runner.trace() =~= start + all.take(1 + k));
                    }
                    Err(e)
                },
            }
        },
        None => {
            let mut values = command_args(&["switch", "--no-recurse-submodules", "--no-guess", "--"]);
            push_arg(&mut values, switch_plan.target_branch.as_str());
            assert(values.deep_view() =~= seq![
                "switch"@,
                "--no-recurse-submodules"@,
                "--no-guess"@,
                "--"@,
                switch_plan.target_branch@,
            ]);
            match runner.run_unlocked(&GitCommand::write(values)) {
                Ok(_) => {},
                Err(e) => {
                    assert(runner.trace() =~= start + all.take(1));
                    return Err(SwitchError::Git(e));
                },
            }
            let r = present::delete(runner);
            assert(runner.trace() =~= start + all);
            r
        },
    }
}

/// Detaches the checkout onto `commit`.
pub(crate) fn switch_detach<R: GitRunner>(runner: &mut Host<R>, commit: &str) -> (r: Result<(), SwitchError>)
    ensures
        r matches Err(e) ==> !(e is MissingSavedWork),
        grows(*old(runner), *final(runner)),
        r matches Err(e) ==> !(e is StalePlan),
        r matches Err(e) ==> e is Git,
{
    let mut values = command_args(&["switch", "--no-recurse-submodules", "--detach"]);
    push_arg(&mut values, commit);
    match runner.run_unlocked(&GitCommand::write(values)) {
        Ok(_) => Ok(()),
        Err(e) => Err(SwitchError::Git(e)),
    }
}

/// Points `local` at `<remote>/<branch>`: `branch.<local>.remote` and `branch.<local>.merge`.
pub(crate) fn set_upstream<R: GitRunner>(runner: &mut Host<R>, local: &str, remote_short: &str) -> (r: Result<
    (),
    SwitchError,
>)
    ensures
        r matches Err(e) ==> !(e is MissingSavedWork),
        grows(*old(runner), *final(runner)),
        r matches Err(e) ==> !(e is StalePlan),
        split_once_spec(remote_short@, '/') is None ==> (r matches Err(SwitchError::InvalidState(m))
            && m@ == "invalid remote-tracking name: "@ + remote_short@),
        r matches Err(e) ==> e is Git || e is InvalidState,
        r is Ok ==> final(runner).trace() == old(runner).trace() + upstream_effects(local@, remote_short@),
        r is Err ==> exists|k: int|
            0 <= k <= upstream_effects(local@, remote_short@).len() && final(runner).trace() == old(
                runner,
            ).trace() + upstream_effects(local@, remote_short@).take(k),
{
    let ghost start = runner.trace();
    let ghost all = upstream_effects(local@, remote_short@);
    proof {
        reveal_strlit("/");
    }
    let (remote, branch) = match split_once(remote_short, '/') {
        Some(p) => p,
        None => {
            assert(runner.trace() =~= start + all.take(0));
            return Err(SwitchError::InvalidState(concat("invalid remote-tracking name: ", remote_short)));
        },
    };
    let mut first = command_args(&["config", "--local"]);
    push_arg(&mut first, concat3("branch.", local, ".remote").as_str());
    push_arg(&mut first, remote.as_str());
    assert(first.deep_view() =~= seq!["config"@, "--local"@, "branch."@ + local@ + ".remote"@, remote@]);
    match runner.run_unlocked(&GitCommand::write(first)) {
        Ok(_) => {},
        Err(e) => {
            assert(runner.trace() =~= start + all.take(1));
            return Err(SwitchError::Git(e));
        },
    }
    assert(runner.trace() =~= start + all.take(1));
    let mut second = command_args(&["config", "--local"]);
    push_arg(&mut second, concat3("branch.", local, ".merge").as_str());
    push_arg(&mut second, concat("refs/heads/", branch.as_str()).as_str());
    assert(second.deep_view() =~= seq![
        "config"@,
        "--local"@,
        "branch."@ + local@ + ".merge"@,
        "refs/heads/"@ + branch@,
    ]);
    let r = runner.run_unlocked(&GitCommand::write(second));
    assert(runner.trace() =~= start + all);
    match r {
        Ok(_) => Ok(()),
        Err(e) => {
            assert(all.take(2) =~= all);
            Err(SwitchError::Git(e))
        },
    }
}

} // verus!
