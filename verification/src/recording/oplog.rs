//! The operation log: one record per write operation, kept in
//! `<git-dir>/githelper/oplog.json`.
use vstd::prelude::*;

use crate::host::grows;

use crate::host::{lemma_reads_chain, lemma_reads_none, reads_only, Effect, Host};

use crate::git::{join_path, GitRunner};
use crate::map::PathMap;
use crate::order::str_eq;
use crate::text::concat;

verus! {

broadcast use crate::host::lemma_grows_chain, crate::host::lemma_grows_none, crate::host::lemma_grows_trace,
    crate::host::lemma_grows_reply;

#[derive(Debug)]
pub enum RecordingError {
    Io(String),
    Json(String),
    /// No record has the id that was asked for.
    Missing(String),
}

impl RecordingError {
    /// The error as a sentence.
    pub fn message(&self) -> (r: String)
        ensures
            self matches RecordingError::Io(e) ==> r@ == "operation log I/O failed: "@ + e@,
            self matches RecordingError::Json(e) ==> r@ == "operation log JSON is invalid: "@
                + e@,
            self matches RecordingError::Missing(e) ==> r@
                == "operation log entry was not found: "@ + e@,
    {
        match self {
            RecordingError::Io(e) => concat("operation log I/O failed: ", e.as_str()),
            RecordingError::Json(e) => concat("operation log JSON is invalid: ", e.as_str()),
            RecordingError::Missing(e) => concat("operation log entry was not found: ", e.as_str()),
        }
    }
}

/// One logged operation: the refs it found and left, what it ran, and how far it got.
pub struct OperationRecord {
    pub id: String,
    pub operation: String,
    pub started: String,
    pub finished: Option<String>,
    pub refs_before: PathMap<String>,
    pub refs_after: PathMap<String>,
    pub snapshots: PathMap<String>,
    pub details: PathMap<String>,
    pub phase: Option<String>,
    pub commands: Vec<String>,
    pub reversible: bool,
}

pub open spec fn opt_view(o: Option<String>) -> Option<Seq<char>> {
    match o {
        Some(s) => Some(s@),
        None => None,
    }
}

pub struct OperationRecordView {
    pub id: Seq<char>,
    pub operation: Seq<char>,
    pub started: Seq<char>,
    pub finished: Option<Seq<char>>,
    pub refs_before: Map<Seq<char>, Seq<char>>,
    pub refs_after: Map<Seq<char>, Seq<char>>,
    pub snapshots: Map<Seq<char>, Seq<char>>,
    pub details: Map<Seq<char>, Seq<char>>,
    pub phase: Option<Seq<char>>,
    pub commands: Seq<Seq<char>>,
    pub reversible: bool,
}

impl View for OperationRecord {
    type V = OperationRecordView;

    open spec fn view(&self) -> OperationRecordView {
        OperationRecordView {
            id: self.id@,
            operation: self.operation@,
            started: self.started@,
            finished: opt_view(self.finished),
            refs_before: self.refs_before.map(),
            refs_after: self.refs_after.map(),
            snapshots: self.snapshots.map(),
            details: self.details.map(),
            phase: opt_view(self.phase),
            commands: self.commands.deep_view(),
            reversible: self.reversible,
        }
    }
}

/// The views of a list of records.
pub open spec fn records_view(v: Seq<OperationRecord>) -> Seq<OperationRecordView> {
    Seq::new(v.len(), |i: int| v[i]@)
}

/// Index of the first record with id `id`, or -1.
pub open spec fn index_of_id(records: Seq<OperationRecordView>, id: Seq<char>) -> int
    decreases records.len(),
{
    if records.len() == 0 {
        -1
    } else {
        let before = index_of_id(records.drop_last(), id);
        if before >= 0 {
            before
        } else if records.last().id == id {
            records.len() - 1
        } else {
            -1
        }
    }
}

/// Index of the last unfinished record of `operation`, or -1.
pub open spec fn index_of_active(records: Seq<OperationRecordView>, operation: Seq<char>) -> int
    decreases records.len(),
{
    if records.len() == 0 {
        -1
    } else if records.last().operation == operation && records.last().finished is None {
        records.len() - 1
    } else {
        index_of_active(records.drop_last(), operation)
    }
}

fn find_record(records: &Vec<OperationRecord>, id: &str) -> (r: Option<usize>)
    ensures
        r is None <==> index_of_id(records_view(records@), id@) < 0,
        r matches Some(i) ==> i == index_of_id(records_view(records@), id@) && i < records@.len(),
{
    let ghost all = records_view(records@);
    let mut i: usize = 0;
    while i < records.len()
        invariant
            i <= records@.len(),
            all == records_view(records@),
            index_of_id(all.take(i as int), id@) < 0,
        decreases records@.len() - i,
    {
        assert(all.take(i + 1).drop_last() == all.take(i as int));
        assert(all.take(i + 1).last() == records@[i as int]@);
        if str_eq(records[i].id.as_str(), id) {
            proof {
                lemma_index_of_id_prefix(all, (i + 1) as int, id@);
            }
            return Some(i);
        }
        proof {
            lemma_index_of_id_prefix(all, (i + 1) as int, id@);
        }
        i = i + 1;
    }
    assert(all.take(records@.len() as int) == all);
    None
}

/// A match found in a prefix is the match of the whole list.
proof fn lemma_index_of_id_prefix(all: Seq<OperationRecordView>, n: int, id: Seq<char>)
    requires
        0 <= n <= all.len(),
    ensures
        index_of_id(all.take(n), id) >= 0 ==> index_of_id(all, id) == index_of_id(all.take(n), id),
    decreases all.len() - n,
{
    if n < all.len() {
        lemma_index_of_id_prefix(all, n + 1, id);
        assert(all.take(n + 1).drop_last() == all.take(n));
    } else {
        assert(all.take(n) == all);
    }
}

/// Marks the first record with id `id` finished at `when`, with the refs it
/// left; the other records stay as they were. False when no record has that id.
/// The log `records` with the record `id` marked finished at `when`, with the
/// refs it left behind.
pub open spec fn finished_log(
    records: Seq<OperationRecordView>,
    id: Seq<char>,
    when: Seq<char>,
    after: Map<Seq<char>, Seq<char>>,
) -> Seq<OperationRecordView> {
    let i = index_of_id(records, id);
    records.update(i, OperationRecordView { finished: Some(when), refs_after: after, ..records[i] })
}

/// The log `records` with the record `id` at `phase`, holding `snapshots`.
pub open spec fn phased_log(
    records: Seq<OperationRecordView>,
    id: Seq<char>,
    phase: Seq<char>,
    snapshots: Map<Seq<char>, Seq<char>>,
) -> Seq<OperationRecordView> {
    let i = index_of_id(records, id);
    records.update(i, OperationRecordView { phase: Some(phase), snapshots, ..records[i] })
}

pub fn finish_records(
    records: &mut Vec<OperationRecord>,
    id: &str,
    when: String,
    after: PathMap<String>,
) -> (found: bool)
    ensures
        found <==> index_of_id(records_view(old(records)@), id@) >= 0,
        !found ==> records_view(final(records)@) == records_view(old(records)@),
        found ==> {
            let i = index_of_id(records_view(old(records)@), id@);
            let r = records_view(old(records)@)[i];
            records_view(final(records)@) == records_view(old(records)@).update(
                i,
                OperationRecordView { finished: Some(when@), refs_after: after.map(), ..r },
            )
        },
{
    let index = match find_record(records, id) {
        Some(i) => i,
        None => return false,
    };
    let ghost before = records_view(records@);
    let mut record = records.remove(index);
    record.finished = Some(when);
    record.refs_after = after;
    records.insert(index, record);
    assert(records_view(records@) =~= before.update(
        index as int,
        OperationRecordView {
            finished: Some(record.finished->0@),
            refs_after: record.refs_after.map(),
            ..before[index as int]
        },
    ));
    true
}

/// Sets the phase and snapshots of the first record with id `id`; the other
/// records stay as they were. False when no record has that id.
pub fn set_phase_records(
    records: &mut Vec<OperationRecord>,
    id: &str,
    phase: &str,
    snapshots: PathMap<String>,
) -> (found: bool)
    ensures
        found <==> index_of_id(records_view(old(records)@), id@) >= 0,
        !found ==> records_view(final(records)@) == records_view(old(records)@),
        found ==> {
            let i = index_of_id(records_view(old(records)@), id@);
            let r = records_view(old(records)@)[i];
            records_view(final(records)@) == records_view(old(records)@).update(
                i,
                OperationRecordView { phase: Some(phase@), snapshots: snapshots.map(), ..r },
            )
        },
{
    let index = match find_record(records, id) {
        Some(i) => i,
        None => return false,
    };
    let ghost before = records_view(records@);
    let mut record = records.remove(index);
    record.phase = Some(String::from_str(phase));
    record.snapshots = snapshots;
    records.insert(index, record);
    assert(records_view(records@) =~= before.update(
        index as int,
        OperationRecordView {
            phase: Some(phase@),
            snapshots: record.snapshots.map(),
            ..before[index as int]
        },
    ));
    true
}

/// Sets the phase, snapshots and details of the first record with id `id`
/// (a paused operation names what it waits on); the other records stay as they
/// were. False when no record has that id.
pub fn pause_records(
    records: &mut Vec<OperationRecord>,
    id: &str,
    phase: &str,
    snapshots: PathMap<String>,
    details: PathMap<String>,
) -> (found: bool)
    ensures
        found <==> index_of_id(records_view(old(records)@), id@) >= 0,
        !found ==> records_view(final(records)@) == records_view(old(records)@),
        found ==> records_view(final(records)@) == paused_log(
            records_view(old(records)@),
            id@,
            phase@,
            snapshots.map(),
            details.map(),
        ),
{
    let index = match find_record(records, id) {
        Some(i) => i,
        None => return false,
    };
    let ghost before = records_view(records@);
    let mut record = records.remove(index);
    record.phase = Some(String::from_str(phase));
    record.snapshots = snapshots;
    record.details = details;
    records.insert(index, record);
    assert(records_view(records@) =~= before.update(
        index as int,
        OperationRecordView {
            phase: Some(phase@),
            snapshots: record.snapshots.map(),
            details: record.details.map(),
            ..before[index as int]
        },
    ));
    true
}

/// The log `records` with the record `id` paused at `phase`, holding
/// `snapshots` and naming `details`.
pub open spec fn paused_log(
    records: Seq<OperationRecordView>,
    id: Seq<char>,
    phase: Seq<char>,
    snapshots: Map<Seq<char>, Seq<char>>,
    details: Map<Seq<char>, Seq<char>>,
) -> Seq<OperationRecordView> {
    let i = index_of_id(records, id);
    records.update(i, OperationRecordView { phase: Some(phase), snapshots, details, ..records[i] })
}

/// The last record of `operation` that has not finished.
pub fn active_record(records: Vec<OperationRecord>, operation: &str) -> (r: Option<
    OperationRecord,
>)
    ensures
        r is None <==> index_of_active(records_view(records@), operation@) < 0,
        r matches Some(rec) ==> rec@ == records_view(records@)[index_of_active(
            records_view(records@),
            operation@,
        )],
        r matches Some(rec) ==> rec.operation@ == operation@ && rec.finished is None,
{
    let ghost all = records_view(records@);
    let mut rest = records;
    assert(all.take(all.len() as int) =~= all);
    while rest.len() > 0
        invariant
            all == records_view(records@),
            rest@.len() <= all.len(),
            records_view(rest@) == all.take(rest@.len() as int),
            index_of_active(all, operation@) == index_of_active(
                all.take(rest@.len() as int),
                operation@,
            ),
        decreases rest@.len(),
    {
        let ghost n = rest@.len();
        assert(all.take(n as int).drop_last() == all.take(n - 1));
        let record = rest.pop().unwrap();
        assert(all.take(n as int).last() == record@);
        if str_eq(record.operation.as_str(), operation) && record.finished.is_none() {
            assert(index_of_active(all.take(n as int), operation@) == n - 1);
            assert(all[n - 1] == record@);
            assert(record.finished is None);
            return Some(record);
        }
        assert(records_view(rest@) =~= all.take(rest@.len() as int));
    }
    None
}

/// From trace `before` to trace `after`, the log at `path` was read and held
/// `records`: either the file was not there and the log is empty, or it was
/// there and was loaded.
pub open spec fn read_log(
    before: Seq<Effect>,
    after: Seq<Effect>,
    path: Seq<char>,
    records: Seq<OperationRecordView>,
) -> bool {
    ||| after == before.push(Effect::Exists { path, found: false }) && records.len() == 0
    ||| after == before.push(Effect::Exists { path, found: true }).push(
        Effect::Load { path, loaded: Some(records) },
    )
}

/// A read of the log only adds to the trace.
pub proof fn lemma_read_log_extends(before: Seq<Effect>, after: Seq<Effect>, path: Seq<char>, records: Seq<OperationRecordView>)
    requires
        read_log(before, after, path, records),
    ensures
        before.len() <= after.len(),
        after.take(before.len() as int) == before,
{
    assert(before.push(Effect::Exists { path, found: false }).take(before.len() as int) =~= before);
    assert(before.push(Effect::Exists { path, found: true }).push(Effect::Load { path, loaded: Some(records) }).take(
        before.len() as int,
    ) =~= before);
}

/// Marking a record finished only adds to the trace.
pub proof fn lemma_finish_extends(
    before: Seq<Effect>,
    after: Seq<Effect>,
    path: Seq<char>,
    id: Seq<char>,
    refs: Map<Seq<char>, Seq<char>>,
)
    requires
        exists|mid: Seq<Effect>, loaded: Seq<OperationRecordView>, when: Seq<char>|
            read_log(before, mid, path, loaded) && index_of_id(loaded, id) >= 0 && after == mid.push(
                Effect::Clock { time: when },
            ).push(Effect::Store { path, records: finished_log(loaded, id, when, refs) }),
    ensures
        before.len() <= after.len(),
        after.take(before.len() as int) == before,
{
    let (mid, loaded, when) = choose|mid: Seq<Effect>, loaded: Seq<OperationRecordView>, when: Seq<char>|
        read_log(before, mid, path, loaded) && index_of_id(loaded, id) >= 0 && after == mid.push(
            Effect::Clock { time: when },
        ).push(Effect::Store { path, records: finished_log(loaded, id, when, refs) });
    lemma_read_log_extends(before, mid, path, loaded);
    assert(after.take(mid.len() as int) =~= mid);
    assert(after.take(before.len() as int) =~= mid.take(before.len() as int));
}

/// The log file of one repository.
pub struct Oplog {
    pub path: String,
}

impl Oplog {
    /// The log of the repository whose Git directory is `git_dir`, creating its folder.
    pub(crate) fn open<R: GitRunner>(runner: &mut Host<R>, git_dir: &str) -> (r: Result<Self, RecordingError>)
        ensures
            grows(*old(runner), *final(runner)),
            r matches Ok(log) ==> log.path@ == git_dir@ + seq!['/'] + "githelper"@ + seq!['/']
                + "oplog.json"@,
            final(runner).trace() == old(runner).trace().push(
                Effect::FileSystem { path: git_dir@ + seq!['/'] + "githelper"@, creates: true },
            ),
    {
        let folder = join_path(git_dir, "githelper");
        match runner.create_dir_all(folder.as_str()) {
            Ok(()) => {},
            Err(e) => return Err(RecordingError::Io(e)),
        }
        Ok(Oplog { path: join_path(folder.as_str(), "oplog.json") })
    }

    /// The log of the repository, without creating anything.
    pub fn open_existing(git_dir: &str) -> (r: Self)
        ensures
            r.path@ == git_dir@ + seq!['/'] + "githelper"@ + seq!['/'] + "oplog.json"@,
    {
        let folder = join_path(git_dir, "githelper");
        Oplog { path: join_path(folder.as_str(), "oplog.json") }
    }

    /// Appends `record` to the log.
    pub(crate) fn begin<R: GitRunner>(&self, runner: &mut Host<R>, record: OperationRecord) -> (r: Result<
        (),
        RecordingError,
    >)
        ensures
            grows(*old(runner), *final(runner)),
            r is Ok ==> exists|mid: Seq<Effect>, loaded: Seq<OperationRecordView>|
                read_log(old(runner).trace(), mid, self.path@, loaded) && final(runner).trace()
                    == mid.push(Effect::Store { path: self.path@, records: loaded.push(record@) }),
    {
        let mut records = match self.read(runner) {
            Ok(v) => v,
            Err(e) => return Err(e),
        };
        let ghost mid = runner.trace();
        let ghost loaded = records_view(records@);
        records.push(record);
        assert(records_view(records@) =~= loaded.push(record@));
        self.write(runner, &records)
    }

    pub(crate) fn entries<R: GitRunner>(&self, runner: &mut Host<R>) -> (r: Result<
        Vec<OperationRecord>,
        RecordingError,
    >)
        ensures
            reads_only(old(runner).trace(), final(runner).trace()),
            grows(*old(runner), *final(runner)),
            r matches Ok(v) ==> read_log(
                old(runner).trace(),
                final(runner).trace(),
                self.path@,
                records_view(v@),
            ),
    {
        self.read(runner)
    }

    /// Marks the record `id` finished now, with the refs it left behind.
    pub(crate) fn finish<R: GitRunner>(&self, runner: &mut Host<R>, id: &str, after: PathMap<String>) -> (r: Result<
        (),
        RecordingError,
    >)
        ensures
            grows(*old(runner), *final(runner)),
            r is Ok ==> exists|mid: Seq<Effect>, loaded: Seq<OperationRecordView>, when: Seq<char>|
                read_log(old(runner).trace(), mid, self.path@, loaded) && index_of_id(loaded, id@) >= 0
                    && final(runner).trace() == mid.push(Effect::Clock { time: when }).push(
                    Effect::Store { path: self.path@, records: finished_log(loaded, id@, when, after.map()) },
                ),
    {
        let ghost after_map = after.map();
        let mut records = match self.read(runner) {
            Ok(v) => v,
            Err(e) => return Err(e),
        };
        let ghost mid = runner.trace();
        let ghost loaded = records_view(records@);
        let when = runner.timestamp();
        let ghost when_text = when@;
        if !finish_records(&mut records, id, when, after) {
            return Err(RecordingError::Missing(String::from_str(id)));
        }
        assert(records_view(records@) == finished_log(loaded, id@, when_text, after_map));
        self.write(runner, &records)
    }

    /// Records that operation `id` reached `phase`, with the snapshots it holds.
    pub(crate) fn update_phase<R: GitRunner>(
        &self,
        runner: &mut Host<R>,
        id: &str,
        phase: &str,
        snapshots: PathMap<String>,
    ) -> (r: Result<(), RecordingError>)
        ensures
            grows(*old(runner), *final(runner)),
            r is Ok ==> exists|mid: Seq<Effect>, loaded: Seq<OperationRecordView>|
                read_log(old(runner).trace(), mid, self.path@, loaded) && index_of_id(loaded, id@) >= 0
                    && final(runner).trace() == mid.push(
                    Effect::Store {
                        path: self.path@,
                        records: phased_log(loaded, id@, phase@, snapshots.map()),
                    },
                ),
    {
        let ghost snapshot_map = snapshots.map();
        let mut records = match self.read(runner) {
            Ok(v) => v,
            Err(e) => return Err(e),
        };
        let ghost mid = runner.trace();
        let ghost loaded = records_view(records@);
        if !set_phase_records(&mut records, id, phase, snapshots) {
            return Err(RecordingError::Missing(String::from_str(id)));
        }
        assert(records_view(records@) == phased_log(loaded, id@, phase@, snapshot_map));
        self.write(runner, &records)
    }

    /// Records that operation `id` paused at `phase`, with the snapshots it
    /// holds and the details of what it waits on.
    pub(crate) fn pause<R: GitRunner>(
        &self,
        runner: &mut Host<R>,
        id: &str,
        phase: &str,
        snapshots: PathMap<String>,
        details: PathMap<String>,
    ) -> (r: Result<(), RecordingError>)
        ensures
            grows(*old(runner), *final(runner)),
            r is Ok ==> exists|mid: Seq<Effect>, loaded: Seq<OperationRecordView>|
                read_log(old(runner).trace(), mid, self.path@, loaded) && index_of_id(loaded, id@) >= 0
                    && final(runner).trace() == mid.push(
                    Effect::Store {
                        path: self.path@,
                        records: paused_log(loaded, id@, phase@, snapshots.map(), details.map()),
                    },
                ),
    {
        let ghost snapshot_map = snapshots.map();
        let ghost detail_map = details.map();
        let mut records = match self.read(runner) {
            Ok(v) => v,
            Err(e) => return Err(e),
        };
        let ghost loaded = records_view(records@);
        if !pause_records(&mut records, id, phase, snapshots, details) {
            return Err(RecordingError::Missing(String::from_str(id)));
        }
        assert(records_view(records@) == paused_log(loaded, id@, phase@, snapshot_map, detail_map));
        self.write(runner, &records)
    }

    /// The most recent unfinished record of `operation`.
    pub(crate) fn active<R: GitRunner>(&self, runner: &mut Host<R>, operation: &str) -> (r: Result<
        Option<OperationRecord>,
        RecordingError,
    >)
        ensures
            grows(*old(runner), *final(runner)),
            r matches Ok(Some(rec)) ==> rec.operation@ == operation@ && rec.finished is None,
            r is Ok ==> exists|loaded: Seq<OperationRecordView>|
                read_log(old(runner).trace(), final(runner).trace(), self.path@, loaded) && (r matches Ok(
                    found,
                ) && (found is None <==> index_of_active(loaded, operation@) < 0) && (found matches Some(
                    rec,
                ) ==> rec@ == loaded[index_of_active(loaded, operation@)])),
    {
        match self.read(runner) {
            Ok(records) => {
                let ghost loaded = records_view(records@);
                let found = active_record(records, operation);
                assert(read_log(old(runner).trace(), runner.trace(), self.path@, loaded));
                Ok(found)
            },
            Err(e) => Err(e),
        }
    }

    fn read<R: GitRunner>(&self, runner: &mut Host<R>) -> (r: Result<Vec<OperationRecord>, RecordingError>)
        ensures
            reads_only(old(runner).trace(), final(runner).trace()),
            grows(*old(runner), *final(runner)),
            r matches Ok(v) ==> read_log(
                old(runner).trace(),
                final(runner).trace(),
                self.path@,
                records_view(v@),
            ),
    {
        let ghost t0 = runner.trace();
        if !runner.path_exists(self.path.as_str()) {
            let empty: Vec<OperationRecord> = Vec::new();
            assert(records_view(empty@) =~= Seq::<OperationRecordView>::empty());
            return Ok(empty);
        }
        let ghost t1 = runner.trace();
        let r = runner.load_records(self.path.as_str());
        proof {
            lemma_reads_chain(t0, t1, runner.trace());
        }
        r
    }

    fn write<R: GitRunner>(&self, runner: &mut Host<R>, records: &Vec<OperationRecord>) -> (r: Result<
        (),
        RecordingError,
    >)
        ensures
            grows(*old(runner), *final(runner)),
            final(runner).trace() == old(runner).trace().push(
                Effect::Store { path: self.path@, records: records_view(records@) },
            ),
    {
        runner.store_records(self.path.as_str(), records)
    }
}

/// The time an operation starts, as the runner reports it.
pub(crate) fn timestamp<R: GitRunner>(runner: &mut Host<R>) -> (r: String)
    ensures
        grows(*old(runner), *final(runner)),
        final(runner).trace() == old(runner).trace().push(Effect::Clock { time: r@ }),
{
    runner.timestamp()
}

/// From trace `before` to trace `after`, an operation began: the clock gave
/// `started`, the process id was `pid`, and the log at `path` was read and
/// written back with `record` appended.
pub open spec fn began_with(
    before: Seq<Effect>,
    after: Seq<Effect>,
    path: Seq<char>,
    started: Seq<char>,
    pid: nat,
    record: OperationRecordView,
) -> bool {
    exists|mid: Seq<Effect>, loaded: Seq<OperationRecordView>|
        read_log(
            before.push(Effect::Clock { time: started }).push(Effect::ProcessId { id: pid }),
            mid,
            path,
            loaded,
        ) && after == mid.push(Effect::Store { path, records: loaded.push(record) })
}

/// A map of one name to one value.
pub fn single_entry(key: &str, value: &str) -> (r: PathMap<String>)
    ensures
        r.map() == Map::<Seq<char>, Seq<char>>::empty().insert(key@, value@),
{
    let mut m: PathMap<String> = PathMap::new();
    m.insert(String::from_str(key), String::from_str(value));
    m
}

} // verus!

verus! {

pub proof fn lemma_active_in_range(records: Seq<OperationRecordView>, operation: Seq<char>)
    ensures
        -1 <= index_of_active(records, operation) < records.len(),
    decreases records.len(),
{
    if records.len() > 0 {
        lemma_active_in_range(records.drop_last(), operation);
    }
}

/// A finished record is never the active one: once an operation's record is
/// finished, asking for the active operation of that kind no longer finds it.
pub proof fn law_finished_is_not_active(
    records: Seq<OperationRecordView>,
    operation: Seq<char>,
    i: int,
    finished: OperationRecordView,
)
    requires
        0 <= i < records.len(),
        finished.finished is Some,
    ensures
        index_of_active(records.update(i, finished), operation) != i,
    decreases records.len(),
{
    let updated = records.update(i, finished);
    let n = records.len();
    if i == n - 1 {
        assert(updated.drop_last() =~= records.drop_last());
        lemma_active_in_range(records.drop_last(), operation);
    } else {
        assert(updated.drop_last() =~= records.drop_last().update(i, finished));
        law_finished_is_not_active(records.drop_last(), operation, i, finished);
    }
}

/// `e` writes a log that holds `record`.
pub open spec fn store_holds(e: Effect, record: OperationRecordView) -> bool {
    match e {
        Effect::Store { records, .. } => records.contains(record),
        _ => false,
    }
}

/// Some write of a log in `trace` holds `record`.
pub open spec fn logged(trace: Seq<Effect>, record: OperationRecordView) -> bool {
    exists|k: int| 0 <= k < trace.len() && #[trigger] store_holds(trace[k], record)
}

/// `e` writes a log in which the record `id` is finished, with `after` as the
/// refs it left behind.
pub open spec fn store_finishes(e: Effect, id: Seq<char>, after: Map<Seq<char>, Seq<char>>) -> bool {
    match e {
        Effect::Store { records, .. } => exists|i: int|
            0 <= i < records.len() && (#[trigger] records[i]).id == id && records[i].finished is Some
                && records[i].refs_after == after,
        _ => false,
    }
}

/// Some write of a log in `trace` holds the record `id` finished, with `after`
/// as the refs it left behind.
pub open spec fn logged_finished(trace: Seq<Effect>, id: Seq<char>, after: Map<Seq<char>, Seq<char>>) -> bool {
    exists|k: int| 0 <= k < trace.len() && #[trigger] store_finishes(trace[k], id, after)
}

/// The index `index_of_id` finds holds a record with that id.
pub proof fn lemma_index_of_id_found(records: Seq<OperationRecordView>, id: Seq<char>)
    ensures
        index_of_id(records, id) >= 0 ==> index_of_id(records, id) < records.len()
            && records[index_of_id(records, id)].id == id,
    decreases records.len(),
{
    if records.len() > 0 {
        lemma_index_of_id_found(records.drop_last(), id);
    }
}

/// Beginning an operation writes its record to the log.
pub proof fn lemma_began_logged(
    before: Seq<Effect>,
    after: Seq<Effect>,
    path: Seq<char>,
    started: Seq<char>,
    pid: nat,
    record: OperationRecordView,
)
    requires
        began_with(before, after, path, started, pid, record),
    ensures
        logged(after, record),
{
    let (mid, loaded) = choose|mid: Seq<Effect>, loaded: Seq<OperationRecordView>|
        read_log(
            before.push(Effect::Clock { time: started }).push(Effect::ProcessId { id: pid }),
            mid,
            path,
            loaded,
        ) && after == mid.push(Effect::Store { path, records: loaded.push(record) });
    assert(loaded.push(record)[loaded.len() as int] == record);
    assert(store_holds(after[after.len() - 1], record));
}

/// Marking a record finished writes it, finished, to the log.
pub proof fn lemma_finish_logged(
    before: Seq<Effect>,
    after: Seq<Effect>,
    path: Seq<char>,
    id: Seq<char>,
    refs: Map<Seq<char>, Seq<char>>,
)
    requires
        exists|mid: Seq<Effect>, loaded: Seq<OperationRecordView>, when: Seq<char>|
            read_log(before, mid, path, loaded) && index_of_id(loaded, id) >= 0 && after == mid.push(
                Effect::Clock { time: when },
            ).push(Effect::Store { path, records: finished_log(loaded, id, when, refs) }),
    ensures
        logged_finished(after, id, refs),
{
    let (mid, loaded, when) = choose|mid: Seq<Effect>, loaded: Seq<OperationRecordView>, when: Seq<char>|
        read_log(before, mid, path, loaded) && index_of_id(loaded, id) >= 0 && after == mid.push(
            Effect::Clock { time: when },
        ).push(Effect::Store { path, records: finished_log(loaded, id, when, refs) });
    lemma_index_of_id_found(loaded, id);
    let i = index_of_id(loaded, id);
    let recs = finished_log(loaded, id, when, refs);
    assert(recs[i].id == id && recs[i].finished is Some && recs[i].refs_after == refs);
    assert(store_finishes(after[after.len() - 1], id, refs));
}

/// What a trace logged stays logged as the trace grows.
pub proof fn lemma_logged_kept(
    before: Seq<Effect>,
    after: Seq<Effect>,
    record: OperationRecordView,
    id: Seq<char>,
    refs: Map<Seq<char>, Seq<char>>,
)
    requires
        before.len() <= after.len(),
        after.take(before.len() as int) == before,
    ensures
        logged(before, record) ==> logged(after, record),
        logged_finished(before, id, refs) ==> logged_finished(after, id, refs),
{
    if logged(before, record) {
        let k = choose|k: int| 0 <= k < before.len() && #[trigger] store_holds(before[k], record);
        assert(after[k] == after.take(before.len() as int)[k]);
        assert(store_holds(after[k], record));
    }
    if logged_finished(before, id, refs) {
        let k = choose|k: int| 0 <= k < before.len() && #[trigger] store_finishes(before[k], id, refs);
        assert(after[k] == after.take(before.len() as int)[k]);
        assert(store_finishes(after[k], id, refs));
    }
}

} // verus!
