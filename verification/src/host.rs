//! The runner as the library sees it: every request passes through a `Host`,
//! which keeps, as ghost state, the list of what was asked of the runner. The
//! runner itself is private to this file, so no function of the library can
//! reach it without its request being listed; contracts speak of that list.
use vstd::prelude::*;

use crate::git::{args_of, GitCommand, GitError, GitOutput, GitRunner};
use crate::recording::oplog::{records_view, OperationRecordView};
use crate::recording::{OperationRecord, RecordingError};

verus! {

/// One request made of the runner.
pub enum Effect {
    /// A `git` command: its arguments, and whether it may change the repository.
    Run { args: Seq<Seq<char>>, writes: bool },
    /// Whether `path` exists, with the answer.
    Exists { path: Seq<char>, found: bool },
    /// The operation log at `path` was read: the records, when that succeeded.
    Load { path: Seq<char>, loaded: Option<Seq<OperationRecordView>> },
    /// The operation log at `path` was written with `records`.
    Store { path: Seq<char>, records: Seq<OperationRecordView> },
    /// A directory was created (`creates`) or a file or directory removed.
    FileSystem { path: Seq<char>, creates: bool },
    /// The clock was read: the time as text.
    Clock { time: Seq<char> },
    /// The process id was read.
    ProcessId { id: nat },
    /// Where the repository is, or the write lock.
    Setting,
}

/// The effect of running `command`.
pub open spec fn run_effect(command: &GitCommand) -> Effect {
    Effect::Run { args: args_of(command), writes: command.writes }
}

/// The runner, and what was asked of it so far.
pub struct Host<R: GitRunner> {
    runner: R,
    trace: Ghost<Seq<Effect>>,
    replies: Ghost<Map<int, Seq<u8>>>,
}

/// What a command printed, when it succeeded.
pub open spec fn answer_of(r: Result<GitOutput, GitError>) -> Option<Seq<u8>> {
    match r {
        Ok(o) => Some(o.stdout@),
        Err(_) => None,
    }
}

/// `later` is `earlier` with more requests: the trace only grew, and every
/// answer already given stays as it was.
pub open spec fn grows<R: GitRunner>(earlier: Host<R>, later: Host<R>) -> bool {
    &&& earlier.trace().len() <= later.trace().len()
    &&& later.trace().take(earlier.trace().len() as int) == earlier.trace()
    &&& forall|k: int| 0 <= k < earlier.trace().len() ==> #[trigger] later.reply(k) == earlier.reply(k)
}

/// Growing twice is growing.
pub broadcast proof fn lemma_grows_chain<R: GitRunner>(a: Host<R>, b: Host<R>, c: Host<R>)
    requires
        grows(a, b),
        grows(b, c),
    ensures
        #![trigger grows(a, b), grows(b, c)]
        grows(a, c),
{
    assert(c.trace().take(a.trace().len() as int) =~= a.trace()) by {
        assert forall|i: int| 0 <= i < a.trace().len() implies c.trace().take(a.trace().len() as int)[i]
            == a.trace()[i] by {
            assert(c.trace()[i] == c.trace().take(b.trace().len() as int)[i]);
            assert(b.trace()[i] == b.trace().take(a.trace().len() as int)[i]);
        }
    }
    assert forall|k: int| 0 <= k < a.trace().len() implies #[trigger] c.reply(k) == a.reply(k) by {
        assert(c.reply(k) == b.reply(k));
    }
}

/// Nothing asked is growing.
pub broadcast proof fn lemma_grows_none<R: GitRunner>(a: Host<R>)
    ensures
        #[trigger] grows(a, a),
{
    assert(a.trace().take(a.trace().len() as int) =~= a.trace());
}

impl<R: GitRunner> Host<R> {
    /// What was asked of the runner through this host, oldest first.
    pub closed spec fn trace(&self) -> Seq<Effect> {
        self.trace@
    }

    /// What the runner printed for the request at `k`, when that was a
    /// command and it succeeded.
    pub closed spec fn reply(&self, k: int) -> Option<Seq<u8>> {
        if self.replies@.dom().contains(k) {
            Some(self.replies@[k])
        } else {
            None
        }
    }

    pub fn new(runner: R) -> (r: Self)
        ensures
            r.trace() == Seq::<Effect>::empty(),
    {
        Host { runner, trace: Ghost(Seq::empty()), replies: Ghost(Map::empty()) }
    }

    fn note(&mut self, effect: Ghost<Effect>)
        ensures
            final(self).trace() == old(self).trace().push(effect@),
            final(self).replies@ == old(self).replies@.remove(old(self).trace().len() as int),
            grows(*old(self), *final(self)),
            final(self).reply(old(self).trace().len() as int) is None,
    {
        let ghost k = self.trace@.len() as int;
        let ghost before = *self;
        self.trace = Ghost(self.trace@.push(effect@));
        self.replies = Ghost(self.replies@.remove(k));
        assert(self.trace@.take(k) =~= before.trace@);
        assert forall|j: int| 0 <= j < k implies #[trigger] self.reply(j) == before.reply(j) by {}
    }

    fn note_reply(&mut self, k: Ghost<int>, r: &Result<GitOutput, GitError>)
        ensures
            final(self).trace() == old(self).trace(),
            final(self).replies@ == match answer_of(*r) {
                Some(out) => old(self).replies@.insert(k@, out),
                None => old(self).replies@.remove(k@),
            },
            final(self).reply(k@) == answer_of(*r),
            forall|j: int| j != k@ ==> #[trigger] final(self).reply(j) == old(self).reply(j),
    {
        let ghost out = answer_of(*r);
        self.replies = Ghost(
            match out {
                Some(o) => self.replies@.insert(k@, o),
                None => self.replies@.remove(k@),
            },
        );
    }

    pub fn run(&mut self, command: &GitCommand) -> (r: Result<GitOutput, GitError>)
        ensures
            final(self).trace() == old(self).trace().push(run_effect(command)),
            !command.writes ==> reads_only(old(self).trace(), final(self).trace()),
            final(self).reply(old(self).trace().len() as int) == answer_of(r),
            grows(*old(self), *final(self)),
    {
        let r = self.runner.run(command);
        let ghost k = self.trace@.len() as int;
        self.note(Ghost(run_effect(command)));
        self.note_reply(Ghost(k), &r);
        proof {
            if !command.writes {
                lemma_reads_one(old(self).trace(), run_effect(command));
            }
        }
        r
    }

    pub fn run_unlocked(&mut self, command: &GitCommand) -> (r: Result<GitOutput, GitError>)
        ensures
            final(self).trace() == old(self).trace().push(run_effect(command)),
            !command.writes ==> reads_only(old(self).trace(), final(self).trace()),
            final(self).reply(old(self).trace().len() as int) == answer_of(r),
            grows(*old(self), *final(self)),
    {
        let r = self.runner.run_unlocked(command);
        let ghost k = self.trace@.len() as int;
        self.note(Ghost(run_effect(command)));
        self.note_reply(Ghost(k), &r);
        proof {
            if !command.writes {
                lemma_reads_one(old(self).trace(), run_effect(command));
            }
        }
        r
    }

    pub fn run_unlocked_allowing_exit(&mut self, command: &GitCommand, allowed: &Vec<i32>) -> (r:
        Result<GitOutput, GitError>)
        ensures
            final(self).trace() == old(self).trace().push(run_effect(command)),
            !command.writes ==> reads_only(old(self).trace(), final(self).trace()),
            final(self).reply(old(self).trace().len() as int) == answer_of(r),
            grows(*old(self), *final(self)),
    {
        let r = self.runner.run_unlocked_allowing_exit(command, allowed);
        let ghost k = self.trace@.len() as int;
        self.note(Ghost(run_effect(command)));
        self.note_reply(Ghost(k), &r);
        proof {
            if !command.writes {
                lemma_reads_one(old(self).trace(), run_effect(command));
            }
        }
        r
    }

    pub fn git_dir(&mut self) -> (r: Result<String, GitError>)
        ensures
            grows(*old(self), *final(self)),
            final(self).trace() == old(self).trace().push(Effect::Setting),
            reads_only(old(self).trace(), final(self).trace()),
    {
        let r = self.runner.git_dir();
        self.note(Ghost(Effect::Setting));
        proof {
            lemma_reads_one(old(self).trace(), Effect::Setting);
        }
        r
    }

    pub fn repo_path(&mut self) -> (r: String)
        ensures
            grows(*old(self), *final(self)),
            final(self).trace() == old(self).trace().push(Effect::Setting),
            reads_only(old(self).trace(), final(self).trace()),
    {
        let r = self.runner.repo_path();
        self.note(Ghost(Effect::Setting));
        proof {
            lemma_reads_one(old(self).trace(), Effect::Setting);
        }
        r
    }

    pub fn worktree_root(&mut self) -> (r: Result<String, GitError>)
        ensures
            grows(*old(self), *final(self)),
            final(self).trace() == old(self).trace().push(Effect::Setting),
            reads_only(old(self).trace(), final(self).trace()),
    {
        let r = self.runner.worktree_root();
        self.note(Ghost(Effect::Setting));
        proof {
            lemma_reads_one(old(self).trace(), Effect::Setting);
        }
        r
    }

    pub fn lock(&mut self) -> (r: Result<(), GitError>)
        ensures
            reads_only(old(self).trace(), final(self).trace()),
            grows(*old(self), *final(self)),
            final(self).trace() == old(self).trace().push(Effect::Setting),
    {
        let r = self.runner.lock();
        self.note(Ghost(Effect::Setting));
        proof {
            lemma_reads_one(old(self).trace(), Effect::Setting);
        }
        r
    }

    pub fn unlock(&mut self)
        ensures
            reads_only(old(self).trace(), final(self).trace()),
            grows(*old(self), *final(self)),
            final(self).trace() == old(self).trace().push(Effect::Setting),
    {
        self.runner.unlock();
        self.note(Ghost(Effect::Setting));
        proof {
            lemma_reads_one(old(self).trace(), Effect::Setting);
        }
    }

    pub fn path_exists(&mut self, path: &str) -> (r: bool)
        ensures
            grows(*old(self), *final(self)),
            final(self).trace() == old(self).trace().push(Effect::Exists { path: path@, found: r }),
            reads_only(old(self).trace(), final(self).trace()),
    {
        let r = self.runner.path_exists(path);
        self.note(Ghost(Effect::Exists { path: path@, found: r }));
        proof {
            lemma_reads_one(old(self).trace(), Effect::Exists { path: path@, found: r });
        }
        r
    }

    pub fn create_dir_all(&mut self, path: &str) -> (r: Result<(), String>)
        ensures
            grows(*old(self), *final(self)),
            final(self).trace() == old(self).trace().push(
                Effect::FileSystem { path: path@, creates: true },
            ),
    {
        let r = self.runner.create_dir_all(path);
        self.note(Ghost(Effect::FileSystem { path: path@, creates: true }));
        r
    }

    pub fn remove_dir_all(&mut self, path: &str) -> (r: Result<(), String>)
        ensures
            grows(*old(self), *final(self)),
            final(self).trace() == old(self).trace().push(
                Effect::FileSystem { path: path@, creates: false },
            ),
    {
        let r = self.runner.remove_dir_all(path);
        self.note(Ghost(Effect::FileSystem { path: path@, creates: false }));
        r
    }

    pub fn remove_file(&mut self, path: &str)
        ensures
            grows(*old(self), *final(self)),
            final(self).trace() == old(self).trace().push(
                Effect::FileSystem { path: path@, creates: false },
            ),
    {
        self.runner.remove_file(path);
        self.note(Ghost(Effect::FileSystem { path: path@, creates: false }));
    }

    pub fn load_records(&mut self, path: &str) -> (r: Result<Vec<OperationRecord>, RecordingError>)
        ensures
            reads_only(old(self).trace(), final(self).trace()),
            grows(*old(self), *final(self)),
            final(self).trace() == old(self).trace().push(
                Effect::Load {
                    path: path@,
                    loaded: match r {
                        Ok(v) => Some(records_view(v@)),
                        Err(_) => None,
                    },
                },
            ),
    {
        let r = self.runner.load_records(path);
        let ghost loaded = match &r {
            Ok(v) => Some(records_view(v@)),
            Err(_) => None,
        };
        self.note(Ghost(Effect::Load { path: path@, loaded: loaded }));
        proof {
            lemma_reads_one(old(self).trace(), Effect::Load { path: path@, loaded: loaded });
        }
        r
    }

    pub fn store_records(&mut self, path: &str, records: &Vec<OperationRecord>) -> (r: Result<
        (),
        RecordingError,
    >)
        ensures
            grows(*old(self), *final(self)),
            final(self).trace() == old(self).trace().push(
                Effect::Store { path: path@, records: records_view(records@) },
            ),
    {
        let r = self.runner.store_records(path, records);
        self.note(Ghost(Effect::Store { path: path@, records: records_view(records@) }));
        r
    }

    pub fn timestamp(&mut self) -> (r: String)
        ensures
            grows(*old(self), *final(self)),
            final(self).trace() == old(self).trace().push(Effect::Clock { time: r@ }),
    {
        let r = self.runner.timestamp();
        self.note(Ghost(Effect::Clock { time: r@ }));
        r
    }

    pub fn process_id(&mut self) -> (r: u32)
        ensures
            grows(*old(self), *final(self)),
            final(self).trace() == old(self).trace().push(Effect::ProcessId { id: r as nat }),
    {
        let r = self.runner.process_id();
        self.note(Ghost(Effect::ProcessId { id: r as nat }));
        r
    }

    pub fn create_temp_dir(&mut self) -> (r: Result<String, String>)
        ensures
            grows(*old(self), *final(self)),
            final(self).trace() == old(self).trace().push(
                Effect::FileSystem {
                    path: match r {
                        Ok(p) => p@,
                        Err(_) => Seq::empty(),
                    },
                    creates: true,
                },
            ),
    {
        let r = self.runner.create_temp_dir();
        let ghost made = match &r {
            Ok(p) => p@,
            Err(_) => Seq::empty(),
        };
        self.note(Ghost(Effect::FileSystem { path: made, creates: true }));
        r
    }

    pub fn remove_temp_dir(&mut self, path: &str)
        ensures
            grows(*old(self), *final(self)),
            final(self).trace() == old(self).trace().push(
                Effect::FileSystem { path: path@, creates: false },
            ),
    {
        self.runner.remove_temp_dir(path);
        self.note(Ghost(Effect::FileSystem { path: path@, creates: false }));
    }
}

} // verus!

verus! {

/// `after` extends `before`, and no existence check made in between found its path.
pub open spec fn nothing_found(before: Seq<Effect>, after: Seq<Effect>) -> bool {
    &&& before.len() <= after.len()
    &&& after.take(before.len() as int) == before
    &&& forall|i: int|
        before.len() <= i < after.len() ==> !(#[trigger] after[i] matches Effect::Exists {
            found: true,
            ..
        })
}

/// Between `before` and `after`, Git was asked where it keeps `name`.
pub open spec fn asked_git_path(before: Seq<Effect>, after: Seq<Effect>, name: Seq<char>) -> bool {
    exists|j: int|
        before.len() <= j < after.len() && #[trigger] after[j] == Effect::Run {
            args: seq!["rev-parse"@, "--git-path"@, name],
            writes: false,
        }
}

/// A later trace that extends `mid` keeps every request that `mid` made after `before`.
pub proof fn lemma_asked_kept(before: Seq<Effect>, mid: Seq<Effect>, after: Seq<Effect>, name: Seq<char>)
    requires
        asked_git_path(before, mid, name),
        mid.len() <= after.len(),
        after.take(mid.len() as int) == mid,
    ensures
        asked_git_path(before, after, name),
{
    let j = choose|j: int|
        before.len() <= j < mid.len() && #[trigger] mid[j] == Effect::Run {
            args: seq!["rev-parse"@, "--git-path"@, name],
            writes: false,
        };
    assert(after[j] == after.take(mid.len() as int)[j]);
}

} // verus!

verus! {

/// A request that leaves the repository and the file system as they were.
pub open spec fn is_read(effect: Effect) -> bool {
    match effect {
        Effect::Run { writes, .. } => !writes,
        Effect::Store { .. } => false,
        Effect::FileSystem { .. } => false,
        _ => true,
    }
}

/// From `before` to `after`, only questions were asked: no command that may
/// change the repository ran, and no file was created, removed or written.
pub open spec fn reads_only(before: Seq<Effect>, after: Seq<Effect>) -> bool {
    &&& before.len() <= after.len()
    &&& after.take(before.len() as int) == before
    &&& forall|i: int| before.len() <= i < after.len() ==> is_read(#[trigger] after[i])
}

/// Asking nothing is reading only.
pub proof fn lemma_reads_none(trace: Seq<Effect>)
    ensures
        reads_only(trace, trace),
{
    assert(trace.take(trace.len() as int) =~= trace);
}

/// Two stretches of reads make one.
pub proof fn lemma_reads_chain(a: Seq<Effect>, b: Seq<Effect>, c: Seq<Effect>)
    requires
        reads_only(a, b),
        reads_only(b, c),
    ensures
        reads_only(a, c),
{
    assert(c.take(a.len() as int) =~= b.take(a.len() as int)) by {
        assert forall|i: int| 0 <= i < a.len() implies c.take(a.len() as int)[i] == b.take(
            a.len() as int,
        )[i] by {
            assert(c[i] == c.take(b.len() as int)[i]);
        }
    }
    assert forall|i: int| a.len() <= i < c.len() implies is_read(#[trigger] c[i]) by {
        if i < b.len() {
            assert(c[i] == c.take(b.len() as int)[i]);
            assert(is_read(b[i]));
        }
    }
}

/// One question is a stretch of reads.
pub proof fn lemma_reads_one(a: Seq<Effect>, e: Effect)
    requires
        is_read(e),
    ensures
        reads_only(a, a.push(e)),
{
    assert(a.push(e).take(a.len() as int) =~= a);
}

/// Three stretches of reads make one.
pub proof fn lemma_reads_chain3(a: Seq<Effect>, b: Seq<Effect>, c: Seq<Effect>, d: Seq<Effect>)
    requires
        reads_only(a, b),
        reads_only(b, c),
        reads_only(c, d),
    ensures
        reads_only(a, d),
{
    lemma_reads_chain(a, b, c);
    lemma_reads_chain(a, c, d);
}

/// From index `from` on, `effect` was asked of the runner and got `reply`.
pub open spec fn asked<R: GitRunner>(h: Host<R>, from: int, effect: Effect, reply: Option<Seq<u8>>) -> bool {
    exists|k: int|
        0 <= from <= k < h.trace().len() && h.trace()[k] == effect && #[trigger] h.reply(k) == reply
}

/// The request just made is asked.
pub proof fn lemma_asked_last<R: GitRunner>(h: Host<R>, from: int, effect: Effect)
    requires
        0 <= from < h.trace().len(),
        h.trace()[h.trace().len() - 1] == effect,
    ensures
        asked(h, from, effect, h.reply(h.trace().len() - 1)),
{
    let k = h.trace().len() - 1;
    assert(from <= k < h.trace().len() && h.trace()[k] == effect && h.reply(k) == h.reply(k));
}

/// What was asked stays asked as the host grows.
pub proof fn lemma_asked_grows<R: GitRunner>(h: Host<R>, h2: Host<R>, from: int, effect: Effect, reply: Option<Seq<u8>>)
    requires
        asked(h, from, effect, reply),
        grows(h, h2),
    ensures
        asked(h2, from, effect, reply),
{
    let k = choose|k: int|
        0 <= from <= k < h.trace().len() && h.trace()[k] == effect && #[trigger] h.reply(k) == reply;
    assert(h2.trace()[k] == h2.trace().take(h.trace().len() as int)[k]);
    assert(h2.reply(k) == h.reply(k));
}

/// A grown host keeps each request made before.
pub broadcast proof fn lemma_grows_trace<R: GitRunner>(h: Host<R>, h2: Host<R>, k: int)
    requires
        grows(h, h2),
        0 <= k < h.trace().len(),
    ensures
        #![trigger grows(h, h2), h2.trace()[k]]
        h2.trace()[k] == h.trace()[k],
{
    assert(h2.trace()[k] == h2.trace().take(h.trace().len() as int)[k]);
}

/// A grown host keeps each answer given before.
pub broadcast proof fn lemma_grows_reply<R: GitRunner>(h: Host<R>, h2: Host<R>, k: int)
    requires
        grows(h, h2),
        0 <= k < h.trace().len(),
    ensures
        #![trigger grows(h, h2), h2.reply(k)]
        h2.reply(k) == h.reply(k),
{
}

} // verus!
