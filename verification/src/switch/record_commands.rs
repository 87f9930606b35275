//! The commands a switch shows for review and logs, derived from its plan.
use vstd::prelude::*;

use crate::text::{concat, concat3, split_once, split_once_spec};

use super::checkout::{short_remote, short_remote_spec};
use super::history_model::HistorySwitchPlan;
use super::model::QuickSwitchPlan;

verus! {

/// Parking tracked changes: pushed as the carry, or kept as Saved work.
pub open spec fn tracked_spec(has_tracked_changes: bool, carry_changes: bool, reference: Seq<char>) -> Seq<
    Seq<char>,
> {
    if has_tracked_changes && carry_changes {
        seq!["git stash push -m \"git-helper carry\""@]
    } else if !has_tracked_changes {
        Seq::empty()
    } else {
        seq![
            "git stash create"@,
            "git update-ref "@ + reference + " <snapshot>"@,
            "git reset --hard HEAD"@,
        ]
    }
}

/// Parking the untracked files the target also has.
pub open spec fn park_spec(conflicts: Seq<Seq<char>>) -> Seq<Seq<char>> {
    if conflicts.len() == 0 {
        Seq::empty()
    } else {
        Seq::new(conflicts.len(), |i: int| "git add -- :(top,literal)"@ + conflicts[i]) + seq![
            "git stash create"@,
            "git update-ref refs/githelper/untracked-merge/<operation-id> <snapshot>"@,
            "git restore --worktree --source=HEAD -- <paths>"@,
        ]
    }
}

/// The remote name and branch a pull names.
pub open spec fn pull_parts_spec(remote: Seq<char>) -> (Seq<char>, Seq<char>) {
    let short = short_remote_spec(remote);
    match split_once_spec(short, '/') {
        Some(p) => p,
        None => ("origin"@, short),
    }
}

/// The switch itself, and the pull after it when there is one.
pub open spec fn switch_and_pull_spec(
    target_branch: Seq<char>,
    create_from_remote: Option<Seq<char>>,
    pull_remote_ref: Option<Seq<char>>,
) -> Seq<Seq<char>> {
    let switch_line = match create_from_remote {
        Some(remote) => "git switch --track -c "@ + target_branch + " "@ + short_remote_spec(remote),
        None => "git switch --no-guess -- "@ + target_branch,
    };
    match pull_remote_ref {
        Some(remote) => {
            let (name, branch) = pull_parts_spec(remote);
            seq![switch_line, "git pull --ff-only "@ + name + " "@ + branch]
        },
        None => seq![switch_line],
    }
}

/// Popping the carry on the far side.
pub open spec fn carry_pop_spec(has_tracked_changes: bool, carry_changes: bool) -> Seq<Seq<char>> {
    if has_tracked_changes && carry_changes {
        seq!["git stash pop --index"@, "git stash pop  # fallback"@]
    } else {
        Seq::empty()
    }
}

/// Bringing the parked untracked files back.
pub open spec fn reapply_spec(conflicts: Seq<Seq<char>>) -> Seq<Seq<char>> {
    if conflicts.len() == 0 {
        Seq::empty()
    } else {
        seq![
            "git stash apply --index refs/githelper/untracked-merge/<operation-id>"@,
            "git stash apply refs/githelper/untracked-merge/<operation-id>  # fallback"@,
        ]
    }
}

pub open spec fn opt_seq(o: Option<String>) -> Option<Seq<char>> {
    match o {
        Some(s) => Some(s@),
        None => None,
    }
}

/// The commands of a quick switch, in the order it runs them.
pub open spec fn switch_commands_spec(plan: QuickSwitchPlan) -> Seq<Seq<char>> {
    tracked_spec(plan.has_tracked_changes, plan.carry_changes, plan.saved_work_reference@)
        + park_spec(plan.untracked_conflicts.deep_view()) + switch_and_pull_spec(
        plan.target_branch@,
        opt_seq(plan.create_from_remote),
        opt_seq(plan.pull_remote_ref),
    ) + carry_pop_spec(plan.has_tracked_changes, plan.carry_changes) + reapply_spec(
        plan.untracked_conflicts.deep_view(),
    )
}

/// The commands of a history switch, in the order it runs them.
pub open spec fn history_commands_spec(plan: HistorySwitchPlan) -> Seq<Seq<char>> {
    tracked_spec(plan.has_tracked_changes, plan.carry_changes, plan.saved_work_reference@)
        + park_spec(plan.untracked_conflicts.deep_view()) + seq![
        "git symbolic-ref refs/githelper/present refs/heads/"@ + plan.source_branch@,
        "git switch --no-recurse-submodules --detach "@ + plan.target_commit@,
    ] + carry_pop_spec(plan.has_tracked_changes, plan.carry_changes) + reapply_spec(
        plan.untracked_conflicts.deep_view(),
    )
}

pub fn switch_commands(plan: &QuickSwitchPlan) -> (r: Vec<String>)
    ensures
        r.deep_view() == switch_commands_spec(*plan),
{
    let mut commands: Vec<String> = Vec::new();
    push_tracked_prep(&mut commands, plan);
    push_untracked_park(&mut commands, &plan.untracked_conflicts);
    push_switch_and_pull(&mut commands, plan);
    push_carry_pop(&mut commands, plan.has_tracked_changes, plan.carry_changes);
    push_untracked_reapply(&mut commands, &plan.untracked_conflicts);
    assert(commands.deep_view() =~= switch_commands_spec(*plan));
    commands
}

pub fn history_commands(plan: &HistorySwitchPlan) -> (r: Vec<String>)
    ensures
        r.deep_view() == history_commands_spec(*plan),
{
    let mut commands: Vec<String> = Vec::new();
    push_history_tracked(&mut commands, plan);
    push_untracked_park(&mut commands, &plan.untracked_conflicts);
    let ghost before = commands.deep_view();
    let first = concat("git symbolic-ref refs/githelper/present refs/heads/", plan.source_branch.as_str());
    let second = concat("git switch --no-recurse-submodules --detach ", plan.target_commit.as_str());
    commands.push(first);
    commands.push(second);
    assert(commands.deep_view() =~= before + seq![first@, second@]);
    push_carry_pop(&mut commands, plan.has_tracked_changes, plan.carry_changes);
    push_untracked_reapply(&mut commands, &plan.untracked_conflicts);
    assert(commands.deep_view() =~= history_commands_spec(*plan));
    commands
}

fn push_line(commands: &mut Vec<String>, line: String)
    ensures
        final(commands).deep_view() == old(commands).deep_view().push(line@),
{
    let ghost before = commands.deep_view();
    commands.push(line);
    assert(commands.deep_view() =~= before.push(line@));
}

fn push_tracked_prep(commands: &mut Vec<String>, plan: &QuickSwitchPlan)
    ensures
        final(commands).deep_view() == old(commands).deep_view() + tracked_spec(
            plan.has_tracked_changes,
            plan.carry_changes,
            plan.saved_work_reference@,
        ),
{
    push_tracked(
        commands,
        plan.has_tracked_changes,
        plan.carry_changes,
        plan.saved_work_reference.as_str(),
    );
}

fn push_history_tracked(commands: &mut Vec<String>, plan: &HistorySwitchPlan)
    ensures
        final(commands).deep_view() == old(commands).deep_view() + tracked_spec(
            plan.has_tracked_changes,
            plan.carry_changes,
            plan.saved_work_reference@,
        ),
{
    push_tracked(
        commands,
        plan.has_tracked_changes,
        plan.carry_changes,
        plan.saved_work_reference.as_str(),
    );
}

fn push_tracked(commands: &mut Vec<String>, has_tracked_changes: bool, carry_changes: bool, reference: &str)
    ensures
        final(commands).deep_view() == old(commands).deep_view() + tracked_spec(
            has_tracked_changes,
            carry_changes,
            reference@,
        ),
{
    let ghost before = commands.deep_view();
    if has_tracked_changes && carry_changes {
        push_line(commands, String::from_str("git stash push -m \"git-helper carry\""));
        assert(commands.deep_view() =~= before + tracked_spec(
            has_tracked_changes,
            carry_changes,
            reference@,
        ));
        return;
    }
    if !has_tracked_changes {
        assert(commands.deep_view() =~= before + tracked_spec(
            has_tracked_changes,
            carry_changes,
            reference@,
        ));
        return;
    }
    push_line(commands, String::from_str("git stash create"));
    push_line(commands, concat3("git update-ref ", reference, " <snapshot>"));
    push_line(commands, String::from_str("git reset --hard HEAD"));
    assert(commands.deep_view() =~= before + tracked_spec(
        has_tracked_changes,
        carry_changes,
        reference@,
    ));
}

fn push_untracked_park(commands: &mut Vec<String>, conflicts: &Vec<String>)
    ensures
        final(commands).deep_view() == old(commands).deep_view() + park_spec(conflicts.deep_view()),
{
    let ghost start = commands.deep_view();
    if conflicts.len() == 0 {
        assert(commands.deep_view() =~= start + park_spec(conflicts.deep_view()));
        return;
    }
    let ghost lines = Seq::new(
        conflicts@.len(),
        |i: int| "git add -- :(top,literal)"@ + conflicts.deep_view()[i],
    );
    let mut i: usize = 0;
    while i < conflicts.len()
        invariant
            i <= conflicts@.len(),
            lines == Seq::new(
                conflicts@.len(),
                |i: int| "git add -- :(top,literal)"@ + conflicts.deep_view()[i],
            ),
            commands.deep_view() == start + lines.take(i as int),
        decreases conflicts@.len() - i,
    {
        let line = concat("git add -- :(top,literal)", conflicts[i].as_str());
        push_line(commands, line);
        assert(lines.take(i + 1) =~= lines.take(i as int).push(line@));
        i = i + 1;
    }
    assert(lines.take(conflicts@.len() as int) == lines);
    push_line(commands, String::from_str("git stash create"));
    push_line(
        commands,
        String::from_str("git update-ref refs/githelper/untracked-merge/<operation-id> <snapshot>"),
    );
    push_line(commands, String::from_str("git restore --worktree --source=HEAD -- <paths>"));
    assert(commands.deep_view() =~= start + park_spec(conflicts.deep_view()));
}

/// The remote name and branch a pull names.
pub fn pull_parts(remote: &str) -> (r: (String, String))
    ensures
        pull_parts_spec(remote@) == (r.0@, r.1@),
{
    let short = short_remote(remote);
    match split_once(short.as_str(), '/') {
        Some(p) => p,
        None => (String::from_str("origin"), short),
    }
}

fn push_switch_and_pull(commands: &mut Vec<String>, plan: &QuickSwitchPlan)
    ensures
        final(commands).deep_view() == old(commands).deep_view() + switch_and_pull_spec(
            plan.target_branch@,
            opt_seq(plan.create_from_remote),
            opt_seq(plan.pull_remote_ref),
        ),
{
    let ghost start = commands.deep_view();
    let line = match &plan.create_from_remote {
        Some(remote) => {
            let mut l = concat3("git switch --track -c ", plan.target_branch.as_str(), " ");
            l.append(short_remote(remote.as_str()).as_str());
            l
        },
        None => concat("git switch --no-guess -- ", plan.target_branch.as_str()),
    };
    push_line(commands, line);
    match &plan.pull_remote_ref {
        Some(remote) => {
            let (name, branch) = pull_parts(remote.as_str());
            let mut l = concat3("git pull --ff-only ", name.as_str(), " ");
            l.append(branch.as_str());
            push_line(commands, l);
        },
        None => {},
    }
    assert(commands.deep_view() =~= start + switch_and_pull_spec(
        plan.target_branch@,
        opt_seq(plan.create_from_remote),
        opt_seq(plan.pull_remote_ref),
    ));
}

fn push_carry_pop(commands: &mut Vec<String>, has_tracked_changes: bool, carry_changes: bool)
    ensures
        final(commands).deep_view() == old(commands).deep_view() + carry_pop_spec(
            has_tracked_changes,
            carry_changes,
        ),
{
    let ghost start = commands.deep_view();
    if has_tracked_changes && carry_changes {
        push_line(commands, String::from_str("git stash pop --index"));
        push_line(commands, String::from_str("git stash pop  # fallback"));
    }
    assert(commands.deep_view() =~= start + carry_pop_spec(has_tracked_changes, carry_changes));
}

fn push_untracked_reapply(commands: &mut Vec<String>, conflicts: &Vec<String>)
    ensures
        final(commands).deep_view() == old(commands).deep_view() + reapply_spec(
            conflicts.deep_view(),
        ),
{
    let ghost start = commands.deep_view();
    if conflicts.len() > 0 {
        push_line(
            commands,
            String::from_str("git stash apply --index refs/githelper/untracked-merge/<operation-id>"),
        );
        push_line(
            commands,
            String::from_str(
                "git stash apply refs/githelper/untracked-merge/<operation-id>  # fallback",
            ),
        );
    }
    assert(commands.deep_view() =~= start + reapply_spec(conflicts.deep_view()));
}

} // verus!

verus! {

/// The pull a review shows names the remote and branch that the switch pulls.
pub proof fn law_review_pull_matches_run(remote_ref: Seq<char>)
    requires
        crate::switch::pull::remote_parts_spec(remote_ref) is Some,
    ensures
        crate::switch::pull::remote_parts_spec(remote_ref) == Some(pull_parts_spec(remote_ref)),
{
}

} // verus!
