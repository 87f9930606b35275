use githelper::map::PathMap;
use githelper::recording::oplog::{active_record, finish_records, set_phase_records, OperationRecord};
use githelper::recording::recovery::{restore_refs, RecoveryEntry};
use githelper::rewrite::{ObjectId, RefName, RepoPath};
use githelper::split::model::SplitBranchPlan;
use githelper::split::paths::{combine, companions, covers, matched, normalize, parse_paths, partner};
use githelper::split::plan::derive_message;
use githelper::split::record::{details, refs_before};
use githelper::split::review::{commands as split_commands, pathspecs, quote};
use githelper::split::state::{branch_ref, literal};
use githelper::split::SplitError;
use githelper::submodule_cleanup::plan::{cleanup_commands, ensure_listed, select_uncommit};
use githelper::inspection::DirtySubmodule;
use githelper::switch::history_model::{HistorySwitchPlan, HistorySwitchRequest};
use githelper::switch::history_plan::{ancestor_answer, refuse_current_head, target_choice};
use githelper::switch::model::{QuickSwitchPhase, QuickSwitchPlan, SavedWork};
use githelper::switch::plan::{decide_untracked, parse_saved_work, parse_saved_work_listing};
use githelper::switch::preflight::{classify_conflicts, parse_target_paths, parse_untracked, prefix_overlap};
use githelper::switch::present::branch_of_target;
use githelper::switch::pull::remote_parts;
use githelper::switch::record_commands::{history_commands, pull_parts, switch_commands};
use githelper::switch::state::{carry_ref, pick_remote, remote_tracking_ref, untracked_merge_ref, wip_ref};
use githelper::switch::stash::{snapshot_id, stash_args};
use githelper::switch::preview::first_line;
use githelper::switch::carry::left_behind_message;
use githelper::switch::untracked::reapply_warning;
use githelper::switch::restore_apply::saved_conflict_warning;
use githelper::switch::SwitchError;
use githelper::git::GitError;
use githelper::text::{decimal, join, split_once, trim};

fn id(c: char) -> ObjectId {
    ObjectId::new(std::iter::repeat(c).take(40).collect()).unwrap()
}

fn path(s: &str) -> RepoPath {
    RepoPath::new(s.to_string()).unwrap()
}

fn paths(v: &[&str]) -> Vec<RepoPath> {
    v.iter().map(|s| path(s)).collect()
}

fn names(v: &[RepoPath]) -> Vec<&str> {
    v.iter().map(|p| p.as_str()).collect()
}

fn strings(v: &[&str]) -> Vec<String> {
    v.iter().map(|s| s.to_string()).collect()
}

#[test]
fn text_helpers_follow_std() {
    assert_eq!(trim("  a b \n"), "a b");
    assert_eq!(decimal(0), "0");
    assert_eq!(decimal(1234567), "1234567");
    assert_eq!(join(&strings(&["a", "b", "c"]), ", "), "a, b, c");
    assert_eq!(join(&Vec::new(), ", "), "");
    assert_eq!(split_once("origin/feature/x", '/'), Some(("origin".to_string(), "feature/x".to_string())));
    assert_eq!(split_once("origin", '/'), None);
}

#[test]
fn object_ids_are_hex() {
    assert!(ObjectId::new("abc1234".to_string()).is_ok());
    assert_eq!(
        ObjectId::new("xyz1234".to_string()).unwrap_err(),
        "invalid object id: xyz1234"
    );
    assert!(ObjectId::new("abc12".to_string()).is_err());
    assert_eq!(id('a').as_str().len(), 40);
}

#[test]
fn path_map_reads_back_what_was_written() {
    let mut m: PathMap<String> = PathMap::new();
    m.insert("b".to_string(), "2".to_string());
    m.insert("a".to_string(), "1".to_string());
    m.insert("b".to_string(), "3".to_string());
    assert_eq!(m.len(), 2);
    assert_eq!(m.key_at(0), "a");
    assert_eq!(m.get("b"), Some(&"3".to_string()));
    m.remove("a");
    assert_eq!(m.get("a"), None);
    assert_eq!(m.len(), 1);
}

#[test]
fn split_selection_covers_directories_and_meta_partners() {
    assert!(covers(&path("Assets"), &path("Assets/x.png")));
    assert!(covers(&path("Assets/x.png"), &path("Assets/x.png")));
    assert!(!covers(&path("Asset"), &path("Assets/x.png")));
    assert_eq!(partner(&path("Assets/x.png")), "Assets/x.png.meta");
    assert_eq!(partner(&path("Assets/x.png.meta")), "Assets/x.png");
    assert_eq!(partner(&path(".meta")), ".meta.meta");

    let selected = paths(&["Assets/x.png"]);
    let changed = paths(&["Assets/x.png", "Assets/x.png.meta", "other.txt"]);
    let hit = matched(&selected, &changed);
    assert_eq!(names(&hit), vec!["Assets/x.png"]);
    let extra = companions(&hit, &changed);
    assert_eq!(names(&extra), vec!["Assets/x.png.meta"]);
    let carried = combine(hit, &extra);
    assert_eq!(names(&carried), vec!["Assets/x.png", "Assets/x.png.meta"]);
}

#[test]
fn split_normalize_sorts_trims_and_refuses() {
    let v = normalize(paths(&["b/", "a", "b"])).unwrap();
    assert_eq!(names(&v), vec!["a", "b"]);
    assert!(matches!(normalize(Vec::new()), Err(SplitError::EmptySelection)));
    assert!(matches!(normalize(paths(&["/"])), Err(SplitError::InvalidState(_))));
}

#[test]
fn split_parse_paths_skips_empty_records() {
    let v = parse_paths(b"a\0\0b/c\0").unwrap();
    assert_eq!(names(&v), vec!["a", "b/c"]);
    assert!(parse_paths(b"-bad\0").is_err());
}

#[test]
fn split_review_quotes_each_pathspec() {
    assert_eq!(quote("it's"), "'it'\\''s'");
    assert_eq!(pathspecs(&paths(&["a b", "c"])), "':(literal)a b' ':(literal)c'");
    assert_eq!(literal("x"), ":(literal)x");
    assert_eq!(branch_ref("topic"), "refs/heads/topic");
}

fn split_plan() -> SplitBranchPlan {
    SplitBranchPlan {
        source_branch: "feature".to_string(),
        source_head: id('a'),
        base_ref: RefName::new("refs/remotes/origin/main".to_string()).unwrap(),
        base: id('b'),
        merge_base: id('c'),
        new_branch: "split-1".to_string(),
        new_branch_ref: "refs/heads/split-1".to_string(),
        selected_paths: paths(&["x"]),
        changed_paths: paths(&["x", "x.meta"]),
        companion_paths: paths(&["x.meta"]),
        message: b"m\n".to_vec(),
        message_is_derived: false,
        commands: Vec::new(),
    }
}

#[test]
fn split_commands_are_derived_from_the_plan() {
    let plan = split_plan();
    let c = split_commands(&plan);
    let a = "a".repeat(40);
    let cc = "c".repeat(40);
    assert_eq!(c.len(), 6);
    assert_eq!(c[0], format!("git -c submodule.recurse=false worktree add --detach <worktree> {cc}"));
    assert_eq!(
        c[1],
        format!("git diff --binary --no-relative --no-renames {cc} {a} -- ':(literal)x' ':(literal)x.meta' | git -C <worktree> apply --index --binary")
    );
    assert_eq!(c[2], "git -C <worktree> write-tree");
    assert_eq!(c[3], format!("git commit-tree <tree> -p {cc}"));
    assert_eq!(c[4], "git update-ref refs/heads/split-1 <commit> ''");
    assert_eq!(c[5], "git worktree remove --force <worktree>");
}

#[test]
fn split_record_marks_the_new_branch_absent() {
    let plan = split_plan();
    let before = refs_before(&plan);
    assert_eq!(before.get("HEAD"), Some(&"a".repeat(40)));
    assert_eq!(before.get("refs/heads/split-1"), Some(&String::new()));
    // recovery of a split deletes the branch it created
    assert_eq!(restore_refs(&before), "git update-ref -d refs/heads/split-1");
    let d = details(&plan);
    assert_eq!(d.get("paths"), Some(&"x, x.meta".to_string()));
    assert_eq!(d.get("source-branch"), Some(&"feature".to_string()));
}

#[test]
fn split_message_counts_files() {
    assert_eq!(derive_message("feature", 1), b"Split 1 file from feature\n".to_vec());
    assert_eq!(derive_message("feature", 3), b"Split 3 files from feature\n".to_vec());
}

fn record(id: &str, operation: &str) -> OperationRecord {
    OperationRecord {
        id: id.to_string(),
        operation: operation.to_string(),
        started: "1".to_string(),
        finished: None,
        refs_before: PathMap::new(),
        refs_after: PathMap::new(),
        snapshots: PathMap::new(),
        details: PathMap::new(),
        phase: None,
        commands: Vec::new(),
        reversible: true,
    }
}

#[test]
fn finishing_a_record_touches_only_that_record() {
    let mut records = vec![record("x", "quick-switch"), record("y", "quick-switch")];
    let mut after: PathMap<String> = PathMap::new();
    after.insert("HEAD".to_string(), "abc".to_string());
    assert!(finish_records(&mut records, "y", "2".to_string(), after));
    assert_eq!(records[1].finished, Some("2".to_string()));
    assert_eq!(records[1].refs_after.get("HEAD"), Some(&"abc".to_string()));
    assert_eq!(records[0].finished, None);
    assert!(!finish_records(&mut records, "z", "3".to_string(), PathMap::new()));
    assert!(set_phase_records(&mut records, "x", "pull-ff-failed", PathMap::new()));
    assert_eq!(records[0].phase, Some("pull-ff-failed".to_string()));
    let active = active_record(records, "quick-switch").unwrap();
    assert_eq!(active.id, "x");
}

#[test]
fn a_finished_record_is_no_longer_active() {
    let mut records = vec![record("x", "quick-switch"), record("y", "quick-switch")];
    assert!(finish_records(&mut records, "y", "2".to_string(), PathMap::new()));
    assert!(finish_records(&mut records, "x", "3".to_string(), PathMap::new()));
    assert!(active_record(records, "quick-switch").is_none());
}

#[test]
fn recovery_restores_refs_and_deletes_new_ones() {
    let mut r = record("x", "rewrite");
    r.refs_before.insert("refs/heads/main".to_string(), "abc".to_string());
    r.refs_before.insert("refs/heads/new".to_string(), String::new());
    r.refs_before.insert("HEAD".to_string(), "abc".to_string());
    let entry = RecoveryEntry::from(r);
    assert_eq!(
        entry.recovery_command,
        Some("git update-ref refs/heads/main abc && git update-ref -d refs/heads/new".to_string())
    );
    let mut irreversible = record("y", "revert");
    irreversible.reversible = false;
    irreversible.refs_before.insert("refs/heads/main".to_string(), "abc".to_string());
    assert_eq!(RecoveryEntry::from(irreversible).recovery_command, None);
}

fn dirty(p: &str, flag: bool) -> DirtySubmodule {
    DirtySubmodule { path: path(p), in_editable_range: flag }
}

#[test]
fn submodule_cleanup_selects_and_reviews() {
    let entries = vec![dirty("lib/a", true), dirty("lib/b", false), dirty("lib/a", false)];
    // the last entry for a path decides, as a map built from the entries keeps it
    assert_eq!(names(&select_uncommit(&paths(&["lib/a", "lib/b"]), &entries)), Vec::<&str>::new());
    let entries = vec![dirty("lib/a", true), dirty("lib/b", false)];
    assert_eq!(names(&select_uncommit(&paths(&["lib/a", "lib/b"]), &entries)), vec!["lib/a"]);
    assert!(ensure_listed(&paths(&["lib/a"]), &entries).is_ok());
    match ensure_listed(&paths(&["lib/c"]), &entries) {
        Err(githelper::submodule_cleanup::SubmoduleCleanupError::InvalidState(m)) => {
            assert_eq!(m, "submodule is not dirty: lib/c")
        }
        other => panic!("unexpected {:?}", other.is_ok()),
    }
    let c = cleanup_commands(&paths(&["lib/a"]));
    assert_eq!(
        c,
        strings(&[
            "git -c submodule.recurse=false restore --source=HEAD --staged --worktree -- :(top,literal)lib/a",
            "git -c submodule.recurse=false submodule update --force -- lib/a",
            "git -C lib/a checkout --force HEAD",
            "git -C lib/a clean -fd",
        ])
    );
}

#[test]
fn switch_ref_names() {
    assert_eq!(wip_ref("main"), "refs/githelper/wip/main");
    assert_eq!(carry_ref("op"), "refs/githelper/carry/op");
    assert_eq!(untracked_merge_ref("op"), "refs/githelper/untracked-merge/op");
    assert_eq!(remote_tracking_ref("origin/x").unwrap(), "refs/remotes/origin/x");
    assert_eq!(remote_tracking_ref("refs/remotes/origin/x").unwrap(), "refs/remotes/origin/x");
    match remote_tracking_ref("origin") {
        Err(SwitchError::InvalidState(m)) => assert_eq!(m, "invalid remote-tracking name: origin"),
        _ => panic!("expected an error"),
    }
    assert!(remote_tracking_ref("-x/y").is_err());
    assert!(remote_tracking_ref("").is_err());
}

#[test]
fn switch_picks_a_same_named_remote() {
    let listing = b"refs/remotes/origin/HEAD\nrefs/remotes/up/topic\nrefs/remotes/fork/topic\n";
    assert_eq!(pick_remote(listing, "topic").unwrap(), Some("refs/remotes/up/topic".to_string()));
    assert_eq!(pick_remote(listing, "other").unwrap(), None);
    assert!(pick_remote(b"\xff\n", "x").is_err());
}

#[test]
fn switch_untracked_classification() {
    let status = b"1 .M N... 100644 100644 100644 a b file\0? new.txt\0? dir/x\0";
    let untracked = parse_untracked(status).unwrap();
    assert_eq!(untracked, strings(&["new.txt", "dir/x"]));
    let targets = parse_target_paths(b"new.txt\0dir\0keep\0").unwrap();
    assert_eq!(targets, strings(&["new.txt", "dir", "keep"]));
    let (mergeable, hard) = classify_conflicts(&untracked, &targets);
    assert_eq!(mergeable, strings(&["new.txt"]));
    assert_eq!(hard, strings(&["dir/x"]));
    assert!(prefix_overlap("a/b", "a"));
    assert!(prefix_overlap("a", "a/b"));
    assert!(!prefix_overlap("a", "a"));
    assert!(!prefix_overlap("ab", "a"));
}

#[test]
fn switch_untracked_verdicts() {
    match decide_untracked(strings(&["m"]), &strings(&["h1", "h2"]), true) {
        Err(SwitchError::UntrackedConflict(m)) => assert_eq!(m, "h1, h2"),
        _ => panic!("expected a conflict"),
    }
    match decide_untracked(strings(&["m"]), &Vec::new(), false) {
        Err(SwitchError::UntrackedOverlap(v)) => assert_eq!(v, strings(&["m"])),
        _ => panic!("expected an overlap"),
    }
    assert_eq!(decide_untracked(strings(&["m"]), &Vec::new(), true).unwrap(), strings(&["m"]));
    assert!(decide_untracked(Vec::new(), &Vec::new(), false).unwrap().is_empty());
}

#[test]
fn saved_work_listing_round_trips_the_ref_name() {
    let a = "a".repeat(40);
    let line = format!("{}\0{}", wip_ref("feature/x"), a);
    let saved = parse_saved_work(line.as_bytes()).unwrap();
    assert_eq!(saved.branch, "feature/x");
    assert_eq!(saved.reference, "refs/githelper/wip/feature/x");
    assert_eq!(saved.snapshot.as_str(), a);
    assert!(parse_saved_work(b"refs/heads/x\0abcdef1").is_err());
    assert!(parse_saved_work(b"only-one-field").is_err());
    let listing = format!("{line}\n\n{line}\n");
    assert_eq!(parse_saved_work_listing(listing.as_bytes()).unwrap().len(), 2);
}

#[test]
fn switch_small_parsers() {
    assert_eq!(branch_of_target("refs/heads/main\n"), Some("main".to_string()));
    assert_eq!(branch_of_target("refs/heads/"), None);
    assert_eq!(branch_of_target("HEAD"), None);
    assert_eq!(
        stash_args(&["apply", "--index"]),
        strings(&["-c", "submodule.recurse=false", "stash", "apply", "--index"])
    );
    assert_eq!(snapshot_id(b"abcdef1\n").unwrap().as_str(), "abcdef1");
    match snapshot_id(b"\n") {
        Err(SwitchError::InvalidState(m)) => {
            assert_eq!(m, "Git did not create Saved work for tracked changes")
        }
        _ => panic!("expected an error"),
    }
    assert_eq!(first_line(b" tree1 \nrest").unwrap(), "tree1");
    assert!(first_line(b"\nrest").is_err());
    assert_eq!(remote_parts("refs/remotes/origin/a/b").unwrap(), ("origin".to_string(), "a/b".to_string()));
    match remote_parts("origin/a") {
        Err(SwitchError::InvalidState(m)) => assert_eq!(m, "not a remote-tracking ref: origin/a"),
        _ => panic!("expected an error"),
    }
    assert!(remote_parts("refs/remotes/origin/").is_err());
    // the review names what the pull runs
    assert_eq!(pull_parts("refs/remotes/origin/a/b"), ("origin".to_string(), "a/b".to_string()));
    assert_eq!(pull_parts("refs/remotes/solo"), ("origin".to_string(), "solo".to_string()));
}

#[test]
fn quick_switch_phase_round_trip() {
    let phase = QuickSwitchPhase::PullFastForwardFailed;
    assert_eq!(phase.as_str(), "pull-ff-failed");
    assert_eq!(QuickSwitchPhase::parse(phase.as_str()), Some(phase));
    assert_eq!(QuickSwitchPhase::parse("other"), None);
}

fn switch_plan(has: bool, carry: bool) -> QuickSwitchPlan {
    QuickSwitchPlan {
        source_branch: "main".to_string(),
        source_head: id('a'),
        target_branch: "topic".to_string(),
        target_head: id('b'),
        saved_work_reference: "refs/githelper/wip/main".to_string(),
        has_tracked_changes: has,
        carry_changes: carry,
        pull_after_switch: true,
        create_from_remote: None,
        pull_remote_ref: Some("refs/remotes/origin/topic".to_string()),
        target_saved_work: None,
        untracked_conflicts: strings(&["x"]),
    }
}

#[test]
fn quick_switch_review_commands() {
    let c = switch_commands(&switch_plan(true, false));
    assert_eq!(
        c,
        strings(&[
            "git stash create",
            "git update-ref refs/githelper/wip/main <snapshot>",
            "git reset --hard HEAD",
            "git add -- :(top,literal)x",
            "git stash create",
            "git update-ref refs/githelper/untracked-merge/<operation-id> <snapshot>",
            "git restore --worktree --source=HEAD -- <paths>",
            "git switch --no-guess -- topic",
            "git pull --ff-only origin topic",
            "git stash apply --index refs/githelper/untracked-merge/<operation-id>",
            "git stash apply refs/githelper/untracked-merge/<operation-id>  # fallback",
        ])
    );
    let mut plan = switch_plan(true, true);
    plan.untracked_conflicts = Vec::new();
    plan.create_from_remote = Some("refs/remotes/origin/topic".to_string());
    plan.pull_remote_ref = None;
    assert_eq!(
        switch_commands(&plan),
        strings(&[
            "git stash push -m \"git-helper carry\"",
            "git switch --track -c topic origin/topic",
            "git stash pop --index",
            "git stash pop  # fallback",
        ])
    );
}

#[test]
fn history_switch_review_commands() {
    let plan = HistorySwitchPlan {
        source_branch: "main".to_string(),
        source_head: id('a'),
        target_commit: id('b'),
        saved_work_reference: "refs/githelper/wip/main".to_string(),
        has_tracked_changes: false,
        carry_changes: false,
        untracked_conflicts: Vec::new(),
    };
    assert_eq!(
        history_commands(&plan),
        vec![
            "git symbolic-ref refs/githelper/present refs/heads/main".to_string(),
            format!("git switch --no-recurse-submodules --detach {}", "b".repeat(40)),
        ]
    );
}

#[test]
fn history_switch_target_choice() {
    let request = |commit: Option<&str>, until: Option<&str>| HistorySwitchRequest {
        commit: commit.map(str::to_string),
        until: until.map(str::to_string),
        carry_changes: false,
        merge_untracked: false,
    };
    assert_eq!(target_choice(&request(Some("abc"), None)).unwrap(), (true, "abc"));
    assert_eq!(target_choice(&request(None, Some("yesterday"))).unwrap(), (false, "yesterday"));
    for bad in [request(None, None), request(Some(" "), None), request(Some("a"), Some("b"))] {
        match target_choice(&bad) {
            Err(SwitchError::InvalidState(m)) => assert_eq!(m, "choose a commit or a date and time"),
            _ => panic!("expected an error"),
        }
    }
    match refuse_current_head(id('a'), &id('a')) {
        Err(SwitchError::InvalidState(m)) => assert_eq!(m, "already at this commit"),
        _ => panic!("expected an error"),
    }
    assert_eq!(refuse_current_head(id('b'), &id('a')).unwrap(), id('b'));
}

#[test]
fn merge_base_exit_one_means_not_an_ancestor() {
    assert!(ancestor_answer(Ok(())).unwrap());
    let no = GitError::Command { args: Vec::new(), exit_code: Some(1), stderr: String::new() };
    assert!(!ancestor_answer(Err(no)).unwrap());
    let broken = GitError::Command { args: Vec::new(), exit_code: Some(128), stderr: String::new() };
    assert!(ancestor_answer(Err(broken)).is_err());
    assert!(ancestor_answer(Err(GitError::Io("x".to_string()))).is_err());
}

#[test]
fn switch_warnings() {
    let saved = SavedWork {
        branch: "main".to_string(),
        reference: "refs/githelper/wip/main".to_string(),
        snapshot: id('a'),
    };
    assert_eq!(
        left_behind_message("w".to_string(), &Some(saved)),
        "Carried changes could not be applied cleanly. They are kept as Saved work for main at refs/githelper/wip/main, so nothing was lost."
    );
    assert_eq!(left_behind_message("w".to_string(), &None), "w");
    assert_eq!(reapply_warning(false, None), None);
    assert_eq!(reapply_warning(true, Some("own".to_string())), Some("own".to_string()));
    assert_eq!(
        reapply_warning(true, None),
        Some("Untracked files were merged with the target branch and may leave conflict markers. Resolve them before continuing.".to_string())
    );
    assert!(saved_conflict_warning("refs/p").contains("parked at refs/p; reapply"));
}
