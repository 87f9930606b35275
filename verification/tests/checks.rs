use githelper::git::GitError;
use githelper::inspection::{has_text, parse_dirty_names, parse_name_status, InspectionError};
use githelper::map::PathMap;
use githelper::recording::oplog::OperationRecord;
use githelper::recording::recovery::entries_of;
use githelper::revert::model::{RevertPlan, RevertTarget};
use githelper::revert::plan::check_current as check_revert;
use githelper::revert::RevertError;
use githelper::rewrite::{ObjectId, RefName, RepoPath};
use githelper::split::model::SplitBranchPlan;
use githelper::split::plan::{check_current as check_split, CurrentSplitState};
use githelper::split::SplitError;
use githelper::inspection::ChangedPath;
use githelper::switch::history_model::HistorySwitchPlan;
use githelper::switch::history_plan::{check_history, CurrentHistoryState};
use githelper::switch::model::QuickSwitchPlan;
use githelper::switch::plan::{check_current as check_switch, CurrentSwitchState};
use githelper::switch::SwitchError;

fn id(c: char) -> ObjectId {
    ObjectId::new(std::iter::repeat(c).take(40).collect()).unwrap()
}

fn path(s: &str) -> RepoPath {
    RepoPath::new(s.to_string()).unwrap()
}

fn switch_plan(carry: bool) -> QuickSwitchPlan {
    QuickSwitchPlan {
        source_branch: "main".to_string(),
        source_head: id('a'),
        target_branch: "topic".to_string(),
        target_head: id('b'),
        saved_work_reference: "refs/githelper/wip/main".to_string(),
        has_tracked_changes: true,
        carry_changes: carry,
        pull_after_switch: false,
        create_from_remote: None,
        pull_remote_ref: None,
        target_saved_work: None,
        untracked_conflicts: vec!["x".to_string()],
    }
}

fn switch_state() -> CurrentSwitchState {
    CurrentSwitchState {
        branch: "main".to_string(),
        head: id('a'),
        target: Some(id('b')),
        saved_work_exists: false,
        has_tracked_changes: true,
        untracked_conflicts: vec!["x".to_string()],
    }
}

#[test]
fn a_switch_plan_holds_on_the_state_it_was_made_on() {
    assert!(check_switch(&switch_state(), &switch_plan(false)).is_ok());
}

#[test]
fn a_moved_head_makes_a_switch_plan_stale() {
    let mut state = switch_state();
    state.head = id('c');
    assert!(matches!(check_switch(&state, &switch_plan(false)), Err(SwitchError::StalePlan)));
    let mut state = switch_state();
    state.target = None;
    assert!(matches!(check_switch(&state, &switch_plan(false)), Err(SwitchError::StalePlan)));
    let mut state = switch_state();
    state.untracked_conflicts = Vec::new();
    assert!(matches!(check_switch(&state, &switch_plan(false)), Err(SwitchError::StalePlan)));
}

#[test]
fn saved_work_blocks_a_switch_unless_changes_are_carried() {
    let mut state = switch_state();
    state.saved_work_exists = true;
    match check_switch(&state, &switch_plan(false)) {
        Err(SwitchError::ExistingSavedWork(b)) => assert_eq!(b, "main"),
        _ => panic!("expected ExistingSavedWork"),
    }
    assert!(check_switch(&state, &switch_plan(true)).is_ok());
}

#[test]
fn a_history_plan_is_checked_against_what_was_read() {
    let plan = HistorySwitchPlan {
        source_branch: "main".to_string(),
        source_head: id('a'),
        target_commit: id('b'),
        saved_work_reference: "refs/githelper/wip/main".to_string(),
        has_tracked_changes: false,
        carry_changes: false,
        untracked_conflicts: Vec::new(),
    };
    let state = CurrentHistoryState {
        branch: "main".to_string(),
        head: id('a'),
        has_tracked_changes: false,
        saved_work_exists: false,
        untracked_conflicts: Vec::new(),
    };
    assert!(check_history(&state, &plan).is_ok());
    let dirty = CurrentHistoryState { has_tracked_changes: true, ..state };
    assert!(matches!(check_history(&dirty, &plan), Err(SwitchError::StalePlan)));
}

fn split_plan() -> SplitBranchPlan {
    SplitBranchPlan {
        source_branch: "feature".to_string(),
        source_head: id('a'),
        base_ref: RefName::new("refs/remotes/origin/main".to_string()).unwrap(),
        base: id('b'),
        merge_base: id('c'),
        new_branch: "split-1".to_string(),
        new_branch_ref: "refs/heads/split-1".to_string(),
        selected_paths: vec![path("x")],
        changed_paths: vec![path("x")],
        companion_paths: Vec::new(),
        message: b"m\n".to_vec(),
        message_is_derived: false,
        commands: Vec::new(),
    }
}

#[test]
fn a_split_plan_refuses_a_branch_that_now_exists() {
    let state = CurrentSplitState {
        branch: "feature".to_string(),
        head: id('a'),
        base: id('b'),
        branch_exists: false,
    };
    assert!(check_split(&state, &split_plan()).is_ok());
    let taken = CurrentSplitState { branch_exists: true, ..state };
    match check_split(&taken, &split_plan()) {
        Err(SplitError::ExistingBranch(b)) => assert_eq!(b, "split-1"),
        _ => panic!("expected ExistingBranch"),
    }
    let moved = CurrentSplitState { base: id('d'), ..taken };
    assert!(matches!(check_split(&moved, &split_plan()), Err(SplitError::StalePlan)));
}

#[test]
fn a_revert_plan_needs_each_path_still_revertible() {
    let plan = RevertPlan {
        paths: vec![path("a.txt")],
        target: RevertTarget::Head,
        source: "HEAD".to_string(),
        base_ref: RefName::new("refs/remotes/origin/main".to_string()).unwrap(),
        commands: Vec::new(),
        source_head: id('a'),
    };
    let entries = vec![ChangedPath { path: path("a.txt"), previous_path: None, status: "M".to_string() }];
    assert!(check_revert(&id('a'), &entries, &plan).is_ok());
    assert!(matches!(check_revert(&id('b'), &entries, &plan), Err(RevertError::StalePlan)));
    assert!(matches!(check_revert(&id('a'), &Vec::new(), &plan), Err(RevertError::StalePlan)));
}

#[test]
fn name_status_pairs_a_status_with_a_path() {
    let v = parse_name_status(b"M\0a.txt\0D\0dir/b c\0").unwrap();
    assert_eq!(v.len(), 2);
    assert_eq!((v[0].status.as_str(), v[0].path.as_str()), ("M", "a.txt"));
    assert_eq!((v[1].status.as_str(), v[1].path.as_str()), ("D", "dir/b c"));
    assert!(parse_name_status(b"").unwrap().is_empty());
    match parse_name_status(b"M\0a.txt\0A\0") {
        Err(InspectionError::Parse(m)) => assert_eq!(m, "truncated diff"),
        _ => panic!("expected Parse"),
    }
}

#[test]
fn submodule_status_lists_the_changed_and_conflicted_ones() {
    let listing = b" 1111111 sub/clean (v1)\n+2222222 sub/moved (v2)\nU3333333 sub/conflict\n-4444444 sub/new\n";
    let names = parse_dirty_names(listing).unwrap();
    let names: Vec<&str> = names.iter().map(|p| p.as_str()).collect();
    assert_eq!(names, vec!["sub/moved", "sub/conflict"]);
    assert!(matches!(parse_dirty_names(b"+2222222\n"), Err(InspectionError::Parse(_))));
}

#[test]
fn blank_output_has_no_text() {
    assert!(!has_text(b" \n\t"));
    assert!(has_text(b"\nsub/a\n"));
}

#[test]
fn each_record_becomes_one_entry_in_order() {
    let record = |name: &str, reversible: bool| {
        let mut refs = PathMap::new();
        refs.insert("refs/heads/main".to_string(), id('a').as_str().to_string());
        OperationRecord {
            id: name.to_string(),
            operation: "quick-switch".to_string(),
            started: "1".to_string(),
            finished: None,
            refs_before: refs,
            refs_after: PathMap::new(),
            snapshots: PathMap::new(),
            details: PathMap::new(),
            phase: None,
            commands: Vec::new(),
            reversible,
        }
    };
    let entries = entries_of(vec![record("first", true), record("second", false)]);
    assert_eq!(entries.len(), 2);
    assert_eq!(entries[0].id, "first");
    assert_eq!(
        entries[0].recovery_command,
        Some(format!("git update-ref refs/heads/main {}", id('a').as_str()))
    );
    assert_eq!(entries[1].id, "second");
    assert_eq!(entries[1].recovery_command, None);
}

#[test]
fn git_errors_read_as_sentences() {
    let e = GitError::Command { args: vec!["status".to_string()], exit_code: Some(1), stderr: "bad".to_string() };
    assert_eq!(e.message(), "git status failed: bad");
    assert_eq!(GitError::Lock("busy".to_string()).message(), "the repository is locked: busy");
}
