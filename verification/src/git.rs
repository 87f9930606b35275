//! The Git commands the library issues and the host that runs them.
//!
//! What Git prints, what the file system holds and what time it is come from a
//! `GitRunner`. The library reaches it only through a `Host`, which lists each
//! request; contracts state the requests a function makes and what it decides
//! from the answers, and nothing is assumed of the answers themselves.
use vstd::prelude::*;

use crate::recording::{OperationRecord, RecordingError};
use crate::rewrite::RefName;
use crate::text::{concat, join, join_spec};

verus! {

/// Where the repository to work on lives.
pub struct RepositoryConfig {
    pub path: String,
}

/// One invocation of `git`: its arguments, whether it writes, what it reads on
/// standard input and the environment variables it is given.
pub struct GitCommand {
    pub args: Vec<String>,
    pub writes: bool,
    pub stdin: Option<Vec<u8>>,
    pub environment: Vec<(String, String)>,
}

/// What a finished `git` printed on standard output, and how it exited.
#[derive(Debug)]
pub struct GitOutput {
    pub stdout: Vec<u8>,
    pub exit_code: Option<i32>,
}

#[derive(Debug)]
pub enum GitError {
    /// Git ran and exited with a failure status.
    Command { args: Vec<String>, exit_code: Option<i32>, stderr: String },
    /// Git could not be started or its output not read.
    Io(String),
    /// The repository's write lock could not be taken.
    Lock(String),
}

impl GitError {
    /// The error as a sentence.
    pub fn message(&self) -> (r: String)
        ensures
            self matches GitError::Command { args, stderr, .. } ==> r@ == "git "@ + join_spec(
                args.deep_view(),
                " "@,
            ) + " failed: "@ + stderr@,
            self matches GitError::Io(m) ==> r@ == "git could not be run: "@ + m@,
            self matches GitError::Lock(m) ==> r@ == "the repository is locked: "@ + m@,
    {
        match self {
            GitError::Command { args, stderr, .. } => {
                let mut text = concat("git ", join(args, " ").as_str());
                text.append(" failed: ");
                text.append(stderr.as_str());
                text
            },
            GitError::Io(m) => concat("git could not be run: ", m.as_str()),
            GitError::Lock(m) => concat("the repository is locked: ", m.as_str()),
        }
    }
}

/// The arguments of a command as text.
pub open spec fn args_of(command: &GitCommand) -> Seq<Seq<char>> {
    command.args.deep_view()
}

/// The environment of a command as text.
pub open spec fn env_of(command: &GitCommand) -> Seq<(Seq<char>, Seq<char>)> {
    Seq::new(
        command.environment@.len(),
        |i: int| (command.environment@[i].0@, command.environment@[i].1@),
    )
}

impl GitCommand {
    /// A command that only reads the repository.
    pub fn read(args: Vec<String>) -> (r: Self)
        ensures
            r.args@ == args@,
            args_of(&r) == args.deep_view(),
            !r.writes,
            r.stdin is None,
            r.environment@.len() == 0,
    {
        GitCommand { args, writes: false, stdin: None, environment: Vec::new() }
    }

    /// A command that may change the repository.
    pub fn write(args: Vec<String>) -> (r: Self)
        ensures
            r.args@ == args@,
            args_of(&r) == args.deep_view(),
            r.writes,
            r.stdin is None,
            r.environment@.len() == 0,
    {
        GitCommand { args, writes: true, stdin: None, environment: Vec::new() }
    }

    pub fn with_environment(self, key: String, value: String) -> (r: Self)
        ensures
            r.args == self.args,
            r.writes == self.writes,
            r.stdin == self.stdin,
            r.environment@ == self.environment@.push((key, value)),
    {
        let mut command = self;
        command.environment.push((key, value));
        command
    }

    pub fn with_stdin(self, input: Vec<u8>) -> (r: Self)
        ensures
            r.args == self.args,
            r.writes == self.writes,
            r.stdin == Some(input),
            r.environment == self.environment,
    {
        let mut command = self;
        command.stdin = Some(input);
        command
    }
}

/// The arguments `values` as owned strings.
pub fn command_args(values: &[&str]) -> (r: Vec<String>)
    ensures
        r.deep_view() == Seq::new(values@.len(), |i: int| values@[i]@),
{
    let mut r: Vec<String> = Vec::new();
    let mut i: usize = 0;
    while i < values.len()
        invariant
            i <= values@.len(),
            r.deep_view() == Seq::new(i as nat, |j: int| values@[j]@),
        decreases values@.len() - i,
    {
        let ghost before = r.deep_view();
        r.push(String::from_str(values[i]));
        assert(r.deep_view() =~= before.push(values@[i as int]@));
        assert(Seq::new((i + 1) as nat, |j: int| values@[j]@) =~= Seq::new(
            i as nat,
            |j: int| values@[j]@,
        ).push(values@[i as int]@));
        i = i + 1;
    }
    r
}

/// Appends `value` to `args`.
pub fn push_arg(args: &mut Vec<String>, value: &str)
    ensures
        final(args).deep_view() == old(args).deep_view().push(value@),
{
    let ghost before = args.deep_view();
    args.push(String::from_str(value));
    assert(args.deep_view() =~= before.push(value@));
}

/// The host of the library: it runs `git`, touches the file system and reads
/// the clock. Nothing is assumed of what it returns.
pub trait GitRunner: Sized {
    fn open(config: RepositoryConfig) -> Result<Self, GitError>;

    /// Runs a command, holding the repository's write lock for a writing one.
    fn run(&self, command: &GitCommand) -> Result<GitOutput, GitError>;

    /// Runs a command inside a transaction that already holds the lock.
    fn run_unlocked(&self, command: &GitCommand) -> Result<GitOutput, GitError>;

    /// Like `run_unlocked`, but an exit status in `allowed` still counts as success.
    fn run_unlocked_allowing_exit(&self, command: &GitCommand, allowed: &Vec<i32>) -> Result<
        GitOutput,
        GitError,
    >;

    fn git_dir(&self) -> Result<String, GitError>;

    fn repo_path(&self) -> String;

    fn worktree_root(&self) -> Result<String, GitError>;

    /// Takes the repository's write lock for a transaction of several commands.
    fn lock(&self) -> Result<(), GitError>;

    fn unlock(&self);

    fn path_exists(&self, path: &str) -> bool;

    fn create_dir_all(&self, path: &str) -> Result<(), String>;

    fn remove_dir_all(&self, path: &str) -> Result<(), String>;

    fn remove_file(&self, path: &str);

    /// Reads and decodes the operation log at `path`.
    fn load_records(&self, path: &str) -> Result<Vec<OperationRecord>, RecordingError>;

    /// Encodes and writes the operation log at `path`.
    fn store_records(&self, path: &str, records: &Vec<OperationRecord>) -> Result<
        (),
        RecordingError,
    >;

    /// The current time in nanoseconds since the Unix epoch, as decimal text.
    fn timestamp(&self) -> String;

    fn process_id(&self) -> u32;

    /// Creates an empty private directory and returns its path.
    fn create_temp_dir(&self) -> Result<String, String>;

    fn remove_temp_dir(&self, path: &str);
}

/// `dir` joined with the relative `name`.
pub fn join_path(dir: &str, name: &str) -> (r: String)
    ensures
        r@ == dir@ + seq!['/'] + name@,
{
    let mut r = String::from_str(dir);
    r.append("/");
    r.append(name);
    proof {
        reveal_strlit("/");
    }
    r
}

} // verus!

verus! {

/// Appends copies of `more` to `args`.
pub fn extend_args(args: &mut Vec<String>, more: &Vec<String>)
    ensures
        final(args).deep_view() == old(args).deep_view() + more.deep_view(),
{
    let ghost start = args.deep_view();
    let mut i: usize = 0;
    while i < more.len()
        invariant
            i <= more@.len(),
            args.deep_view() == start + more.deep_view().take(i as int),
        decreases more@.len() - i,
    {
        let ghost before = args.deep_view();
        args.push(more[i].clone());
        assert(args.deep_view() =~= before.push(more@[i as int]@));
        assert(more.deep_view().take(i + 1) =~= more.deep_view().take(i as int).push(
            more@[i as int]@,
        ));
        assert(args.deep_view() =~= start + more.deep_view().take(i + 1));
        i = i + 1;
    }
    assert(more.deep_view().take(more@.len() as int) == more.deep_view());
}

} // verus!
