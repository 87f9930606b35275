use std::cell::RefCell;
use std::rc::Rc;
use std::collections::HashMap;

use githelper::git::{GitCommand, GitError, GitOutput, GitRunner, RepositoryConfig};
use githelper::map::PathMap;
use githelper::recording::oplog::{OperationRecord, RecordingError};
use githelper::repository::GitRepository;
use githelper::revert::{RevertError, RevertRequest, RevertTarget};
use githelper::rewrite::{RefName, RepoPath};
use githelper::split::{SplitBranchRequest, SplitError};
use githelper::switch::model::PullResolution;
use githelper::switch::SwitchError;

/// A repository whose Git answers from a script: each command line maps to
/// what it prints, or to the exit status it fails with.
#[derive(Clone)]
struct Mock {
    script: Rc<RefCell<HashMap<String, Result<Vec<u8>, i32>>>>,
    calls: Rc<RefCell<Vec<String>>>,
    stdin: Rc<RefCell<Vec<Vec<u8>>>>,
    records: Rc<RefCell<Option<Vec<OperationRecord>>>>,
    lock_fails: bool,
}

fn copy_record(r: &OperationRecord) -> OperationRecord {
    OperationRecord {
        id: r.id.clone(),
        operation: r.operation.clone(),
        started: r.started.clone(),
        finished: r.finished.clone(),
        refs_before: r.refs_before.duplicate_map(),
        refs_after: r.refs_after.duplicate_map(),
        snapshots: r.snapshots.duplicate_map(),
        details: r.details.duplicate_map(),
        phase: r.phase.clone(),
        commands: r.commands.clone(),
        reversible: r.reversible,
    }
}

impl Mock {
    fn new() -> Self {
        Mock {
            script: Rc::new(RefCell::new(HashMap::new())),
            calls: Rc::new(RefCell::new(Vec::new())),
            stdin: Rc::new(RefCell::new(Vec::new())),
            records: Rc::new(RefCell::new(None)),
            lock_fails: false,
        }
    }

    fn on(&self, line: &str, out: &str) {
        self.script.borrow_mut().insert(line.to_string(), Ok(out.as_bytes().to_vec()));
    }

    fn fails(&self, line: &str, code: i32) {
        self.script.borrow_mut().insert(line.to_string(), Err(code));
    }

    fn answer(&self, command: &GitCommand) -> Result<GitOutput, GitError> {
        let line = command.args.join(" ");
        self.calls.borrow_mut().push(line.clone());
        if let Some(input) = &command.stdin {
            self.stdin.borrow_mut().push(input.clone());
        }
        match self.script.borrow().get(&line) {
            Some(Ok(out)) => Ok(GitOutput { stdout: out.clone(), exit_code: Some(0) }),
            Some(Err(code)) => Err(GitError::Command {
                args: command.args.clone(),
                exit_code: Some(*code),
                stderr: String::new(),
            }),
            None => Err(GitError::Command {
                args: command.args.clone(),
                exit_code: Some(128),
                stderr: format!("unscripted: {line}"),
            }),
        }
    }
}

impl GitRunner for Mock {
    fn open(_config: RepositoryConfig) -> Result<Self, GitError> {
        Ok(Mock::new())
    }
    fn run(&self, command: &GitCommand) -> Result<GitOutput, GitError> {
        self.answer(command)
    }
    fn run_unlocked(&self, command: &GitCommand) -> Result<GitOutput, GitError> {
        self.answer(command)
    }
    fn run_unlocked_allowing_exit(
        &self,
        command: &GitCommand,
        _allowed: &Vec<i32>,
    ) -> Result<GitOutput, GitError> {
        self.answer(command)
    }
    fn git_dir(&self) -> Result<String, GitError> {
        Ok("/repo/.git".to_string())
    }
    fn repo_path(&self) -> String {
        "/repo".to_string()
    }
    fn worktree_root(&self) -> Result<String, GitError> {
        Ok("/repo".to_string())
    }
    fn lock(&self) -> Result<(), GitError> {
        if self.lock_fails {
            Err(GitError::Lock("busy".to_string()))
        } else {
            Ok(())
        }
    }
    fn unlock(&self) {}
    fn path_exists(&self, path: &str) -> bool {
        path.ends_with("oplog.json") && self.records.borrow().is_some()
    }
    fn create_dir_all(&self, _path: &str) -> Result<(), String> {
        Ok(())
    }
    fn remove_dir_all(&self, _path: &str) -> Result<(), String> {
        Ok(())
    }
    fn remove_file(&self, _path: &str) {}
    fn load_records(&self, _path: &str) -> Result<Vec<OperationRecord>, RecordingError> {
        Ok(self.records.borrow().as_ref().map(|v| v.iter().map(copy_record).collect()).unwrap_or_default())
    }
    fn store_records(&self, _path: &str, records: &Vec<OperationRecord>) -> Result<(), RecordingError> {
        *self.records.borrow_mut() = Some(records.iter().map(copy_record).collect());
        Ok(())
    }
    fn timestamp(&self) -> String {
        "100".to_string()
    }
    fn process_id(&self) -> u32 {
        7
    }
    fn create_temp_dir(&self) -> Result<String, String> {
        Ok("/tmp/x".to_string())
    }
    fn remove_temp_dir(&self, _path: &str) {}
}

/// The repository, and a handle on its scripted Git to look at afterwards.
fn repo(mock: Mock) -> (GitRepository<Mock>, Mock) {
    let handle = mock.clone();
    (GitRepository::new(mock), handle)
}

fn hex(c: char) -> String {
    std::iter::repeat(c).take(40).collect()
}

fn split_script(mock: &Mock) {
    let (a, b, c) = (hex('a'), hex('b'), hex('c'));
    mock.on("symbolic-ref --quiet --short HEAD", "feature\n");
    mock.on("rev-parse --verify HEAD^{commit}", &format!("{a}\n"));
    mock.on("rev-parse --verify refs/remotes/origin/main^{commit}", &format!("{b}\n"));
    mock.on(&format!("merge-base {b} {a}"), &format!("{c}\n"));
    mock.on("check-ref-format --branch split-1", "");
    mock.fails("show-ref --verify --quiet refs/heads/split-1", 1);
    mock.on(
        &format!("diff --name-only -z --no-relative --no-renames --no-ext-diff {c} {a}"),
        "Assets/x.png\0Assets/x.png.meta\0other.txt\0",
    );
}

fn split_request() -> SplitBranchRequest {
    SplitBranchRequest {
        base: RefName::new("refs/remotes/origin/main".to_string()).unwrap(),
        new_branch: "split-1".to_string(),
        paths: vec![RepoPath::new("Assets/x.png".to_string()).unwrap()],
        message: None,
    }
}

#[test]
fn split_plan_carries_meta_partners() {
    let mock = Mock::new();
    split_script(&mock);
    let (mut repository, _git) = repo(mock);
    let plan = repository.plan_split_branch(split_request()).unwrap();
    assert_eq!(plan.source_branch, "feature");
    assert_eq!(plan.new_branch_ref, "refs/heads/split-1");
    let changed: Vec<&str> = plan.changed_paths.iter().map(|p| p.as_str()).collect();
    assert_eq!(changed, vec!["Assets/x.png", "Assets/x.png.meta"]);
    let companions: Vec<&str> = plan.companion_paths.iter().map(|p| p.as_str()).collect();
    assert_eq!(companions, vec!["Assets/x.png.meta"]);
    assert_eq!(plan.message, b"Split 2 files from feature\n".to_vec());
    assert!(plan.message_is_derived);
    assert_eq!(plan.commands.len(), 6);
}

#[test]
fn split_plan_refuses_an_existing_branch() {
    let mock = Mock::new();
    split_script(&mock);
    mock.on("show-ref --verify --quiet refs/heads/split-1", "");
    let (mut repository, _git) = repo(mock);
    match repository.plan_split_branch(split_request()) {
        Err(SplitError::ExistingBranch(name)) => assert_eq!(name, "split-1"),
        _ => panic!("expected ExistingBranch"),
    }
}

#[test]
fn split_plan_refuses_a_bad_branch_name() {
    let mock = Mock::new();
    split_script(&mock);
    let (mut repository, _git) = repo(mock);
    let mut request = split_request();
    request.new_branch = "-x".to_string();
    match repository.plan_split_branch(request) {
        Err(SplitError::InvalidState(m)) => assert_eq!(m, "invalid branch name: -x"),
        _ => panic!("expected InvalidState"),
    }
}

#[test]
fn split_plan_without_changes_is_refused() {
    let mock = Mock::new();
    split_script(&mock);
    let (mut repository, _git) = repo(mock);
    let mut request = split_request();
    request.paths = vec![RepoPath::new("elsewhere".to_string()).unwrap()];
    assert!(matches!(repository.plan_split_branch(request), Err(SplitError::NoChanges)));
}

#[test]
fn split_apply_creates_the_branch_and_logs_it() {
    let mock = Mock::new();
    split_script(&mock);
    let (a, c) = (hex('a'), hex('c'));
    let (tree, commit) = (hex('d'), hex('e'));
    let worktree = "/repo/.git/githelper/worktrees/split-100-7";
    mock.on(
        &format!("diff --binary --no-relative --no-renames --no-ext-diff --no-color {c} {a} -- :(literal)Assets/x.png :(literal)Assets/x.png.meta"),
        "PATCH",
    );
    mock.on(&format!("-c submodule.recurse=false worktree add --detach {worktree} {c}"), "");
    mock.on(
        &format!("-C {worktree} -c submodule.recurse=false apply --index --binary --whitespace=nowarn -"),
        "",
    );
    mock.on(&format!("-C {worktree} write-tree"), &format!("{tree}\n"));
    mock.on(&format!("worktree remove --force {worktree}"), "");
    mock.on("worktree prune", "");
    mock.on(&format!("commit-tree {tree} -p {c}"), &format!("{commit}\n"));
    mock.on(&format!("update-ref -m git-helper split-branch refs/heads/split-1 {commit} "), "");
    let (mut repository, _git) = repo(mock);
    let plan = repository.plan_split_branch(split_request()).unwrap();
    let result = repository.apply_split_branch(&plan).unwrap();
    assert_eq!(result.branch, "split-1");
    assert_eq!(result.commit.as_str(), commit);
    assert_eq!(result.paths.len(), 2);
    let stdin = _git.stdin.borrow();
    assert_eq!(stdin[0], b"PATCH".to_vec());
    assert_eq!(stdin[1], b"Split 2 files from feature\n".to_vec());
    let records = _git.records.borrow();
    let record = &records.as_ref().unwrap()[0];
    assert_eq!(record.id, "split-branch-100-7");
    assert_eq!(record.finished, Some("100".to_string()));
    assert_eq!(record.refs_after.get("refs/heads/split-1"), Some(&commit));
    assert_eq!(record.refs_before.get("refs/heads/split-1"), Some(&String::new()));
    let calls = _git.calls.borrow();
    assert!(calls.iter().any(|c| c == &format!("worktree remove --force {worktree}")));
}

#[test]
fn revert_needs_a_path() {
    let (mut repository, _git) = repo(Mock::new());
    let request = RevertRequest {
        base: RefName::new("refs/remotes/origin/main".to_string()).unwrap(),
        paths: Vec::new(),
        target: RevertTarget::Head,
    };
    match repository.plan_revert(request) {
        Err(RevertError::InvalidState(m)) => assert_eq!(m, "select at least one path to revert"),
        _ => panic!("expected InvalidState"),
    }
}

#[test]
fn a_held_lock_stops_a_write() {
    let mut mock = Mock::new();
    mock.lock_fails = true;
    let (mut repository, _git) = repo(mock);
    match repository.resolve_quick_switch_pull(PullResolution::Cancel) {
        Err(SwitchError::Git(GitError::Lock(m))) => assert_eq!(m, "busy"),
        _ => panic!("expected the lock error"),
    }
    assert!(_git.calls.borrow().is_empty());
}

#[test]
fn no_paused_switch_means_no_status() {
    let (mut repository, _git) = repo(Mock::new());
    assert!(repository.quick_switch_status().unwrap().is_none());
    match repository.resolve_quick_switch_pull(PullResolution::Cancel) {
        Err(SwitchError::InvalidState(m)) => assert_eq!(m, "no interrupted quick switch pull exists"),
        _ => panic!("expected InvalidState"),
    }
}

#[test]
fn a_paused_switch_is_reported_and_resolved() {
    let mock = Mock::new();
    let mut record = OperationRecord {
        id: "quick-switch-1-2".to_string(),
        operation: "quick-switch".to_string(),
        started: "1".to_string(),
        finished: None,
        refs_before: PathMap::new(),
        refs_after: PathMap::new(),
        snapshots: PathMap::new(),
        details: PathMap::new(),
        phase: Some("pull-ff-failed".to_string()),
        commands: Vec::new(),
        reversible: true,
    };
    record.details.insert("source_branch".to_string(), "main".to_string());
    record.details.insert("target_branch".to_string(), "topic".to_string());
    record.details.insert("remote_ref".to_string(), "refs/remotes/origin/topic".to_string());
    *mock.records.borrow_mut() = Some(vec![record]);
    mock.on("symbolic-ref --quiet --short HEAD", "topic\n");
    mock.on("rev-parse --verify HEAD^{commit}", &format!("{}\n", hex('f')));
    let (mut repository, _git) = repo(mock);
    let status = repository.quick_switch_status().unwrap().unwrap();
    assert_eq!(status.target_branch, "topic");
    assert_eq!(status.remote_ref, "refs/remotes/origin/topic");
    assert_eq!(status.carry_reference, None);
    let result = repository.resolve_quick_switch_pull(PullResolution::Cancel).unwrap();
    assert!(!result.pulled);
    assert_eq!(result.source_branch, "main");
    assert_eq!(result.pull_warning, None);
    let records = _git.records.borrow();
    assert_eq!(records.as_ref().unwrap()[0].finished, Some("100".to_string()));
    drop(records);
    assert!(repository.quick_switch_status().unwrap().is_none());
}

#[test]
fn changed_paths_come_from_the_diff_against_base() {
    let mock = Mock::new();
    mock.on("diff --name-status -z --no-renames refs/remotes/origin/main...HEAD", "M\0a.txt\0A\0b/c.txt\0");
    let (mut repository, _git) = repo(mock);
    let base = RefName::new("refs/remotes/origin/main".to_string()).unwrap();
    let paths = repository.list_changed_paths(base).unwrap();
    let seen: Vec<(&str, &str)> = paths.iter().map(|p| (p.status.as_str(), p.path.as_str())).collect();
    assert_eq!(seen, vec![("M", "a.txt"), ("A", "b/c.txt")]);
}

#[test]
fn dirty_submodules_are_flagged_by_the_editable_range() {
    let mock = Mock::new();
    mock.on("submodule status", " 1111111 libs/clean (v1)\n+2222222 libs/moved (v2)\n");
    mock.on("diff --name-only refs/remotes/origin/main...HEAD -- libs/moved", "libs/moved\n");
    let (mut repository, _git) = repo(mock);
    let base = RefName::new("refs/remotes/origin/main".to_string()).unwrap();
    let dirty = repository.list_dirty_submodules(Some(base)).unwrap();
    assert_eq!(dirty.len(), 1);
    assert_eq!(dirty[0].path.as_str(), "libs/moved");
    assert!(dirty[0].in_editable_range);
    let unflagged = repository.list_dirty_submodules(None).unwrap();
    assert!(!unflagged[0].in_editable_range);
}
