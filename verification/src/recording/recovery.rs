//! The recovery view of the operation log: each record with the command that
//! puts its refs back.
use vstd::prelude::*;

use crate::host::grows;

use crate::host::{reads_only, Effect, Host};

use crate::git::{GitError, GitRunner};
use crate::map::PathMap;
use crate::text::{starts_with, starts_with_spec};

use super::oplog::{opt_view, read_log, records_view, OperationRecord, OperationRecordView, Oplog};

verus! {

broadcast use crate::host::lemma_grows_chain, crate::host::lemma_grows_none, crate::host::lemma_grows_trace,
    crate::host::lemma_grows_reply;

pub struct RecoveryEntry {
    pub id: String,
    pub operation: String,
    pub started: String,
    pub finished: Option<String>,
    pub refs_before: PathMap<String>,
    pub refs_after: PathMap<String>,
    pub snapshots: PathMap<String>,
    pub details: PathMap<String>,
    pub phase: Option<String>,
    pub commands: Vec<String>,
    pub reversible: bool,
    /// Shell commands that restore the refs the operation found, when it can be undone.
    pub recovery_command: Option<String>,
}

#[derive(Debug)]
pub enum RecoveryError {
    Git(GitError),
    Recording(String),
}

/// The command that sets one ref back: deleting it when it did not exist before.
pub open spec fn restore_one(name: Seq<char>, value: Seq<char>) -> Seq<char> {
    if value.len() == 0 {
        "git update-ref -d "@ + name
    } else {
        "git update-ref "@ + name + seq![' '] + value
    }
}

/// The restore commands for the refs under `refs/`, in listing order.
pub open spec fn restore_commands(listing: Seq<(Seq<char>, Seq<char>)>) -> Seq<Seq<char>>
    decreases listing.len(),
{
    if listing.len() == 0 {
        Seq::empty()
    } else {
        let done = restore_commands(listing.drop_last());
        let (name, value) = listing.last();
        if starts_with_spec(name, "refs/"@) {
            done.push(restore_one(name, value))
        } else {
            done
        }
    }
}

/// Every entry under `refs/` gets its restore command.
pub proof fn lemma_restore_includes(listing: Seq<(Seq<char>, Seq<char>)>, i: int)
    requires
        0 <= i < listing.len(),
        starts_with_spec(listing[i].0, "refs/"@),
    ensures
        restore_commands(listing).contains(restore_one(listing[i].0, listing[i].1)),
    decreases listing.len(),
{
    let done = restore_commands(listing.drop_last());
    if i == listing.len() - 1 {
        assert(restore_commands(listing) == done.push(restore_one(listing[i].0, listing[i].1)));
        assert(restore_commands(listing)[done.len() as int] == restore_one(listing[i].0, listing[i].1));
    } else {
        lemma_restore_includes(listing.drop_last(), i);
        assert(listing.drop_last()[i] == listing[i]);
        let k = choose|k: int|
            0 <= k < done.len() && done[k] == restore_one(listing[i].0, listing[i].1);
        let (name, value) = listing.last();
        if starts_with_spec(name, "refs/"@) {
            assert(restore_commands(listing)[k] == done[k]);
        }
    }
}

/// Recovery puts back every recorded ref under `refs/`: whatever listing
/// describes the refs an operation found, its restore commands include the one
/// that sets each such ref back to the value it had (deleting it if it had none).
pub proof fn law_recovery_restores_each_ref(listing: Seq<(Seq<char>, Seq<char>)>, name: Seq<char>)
    requires
        crate::order::strictly_sorted(crate::map::keys_of(listing)),
        crate::map::map_of(listing).dom().contains(name),
        starts_with_spec(name, "refs/"@),
    ensures
        restore_commands(listing).contains(restore_one(name, crate::map::map_of(listing)[name])),
{
    crate::map::lemma_map_of_dom(listing, name);
    let i = choose|i: int| 0 <= i < listing.len() && listing[i].0 == name;
    crate::map::lemma_map_of_value(listing, i);
    lemma_restore_includes(listing, i);
}

/// `parts` joined with ` && `.
pub open spec fn join_and(parts: Seq<Seq<char>>) -> Seq<char>
    decreases parts.len(),
{
    if parts.len() == 0 {
        Seq::empty()
    } else if parts.len() == 1 {
        parts[0]
    } else {
        join_and(parts.drop_last()) + " && "@ + parts.last()
    }
}

fn restore_one_exec(name: &String, value: &String) -> (r: String)
    ensures
        r@ == restore_one(name@, value@),
{
    if value.as_str().is_empty() {
        let mut s = String::from_str("git update-ref -d ");
        s.append(name.as_str());
        s
    } else {
        let mut s = String::from_str("git update-ref ");
        s.append(name.as_str());
        s.append(" ");
        s.append(value.as_str());
        proof {
            reveal_strlit(" ");
        }
        s
    }
}

/// The shell command that restores every `refs/` entry of `refs`.
pub fn restore_refs(refs: &PathMap<String>) -> (r: String)
    ensures
        r@ == join_and(restore_commands(refs.listing())),
{
    let mut result = String::new();
    let ghost mut parts: Seq<Seq<char>> = Seq::empty();
    let mut any = false;
    let mut i: usize = 0;
    while i < refs.len()
        invariant
            i <= refs.listing().len(),
            any == (parts.len() > 0),
            parts == restore_commands(refs.listing().take(i as int)),
            result@ == join_and(parts),
        decreases refs.listing().len() - i,
    {
        assert(refs.listing().take(i + 1).drop_last() == refs.listing().take(i as int));
        let name = refs.key_at(i);
        let value = refs.value_at(i);
        if starts_with(name.as_str(), "refs/") {
            let command = restore_one_exec(name, value);
            if any {
                result.append(" && ");
            }
            result.append(command.as_str());
            any = true;
            proof {
                let old_parts = parts;
                parts = parts.push(command@);
                assert(parts.drop_last() == old_parts);
                if old_parts.len() == 0 {
                    assert(result@ == command@);
                }
            }
        }
        i = i + 1;
    }
    assert(refs.listing().take(refs.listing().len() as int) == refs.listing());
    result
}

/// The recovery command exists exactly when the record can be undone and it
/// found some ref under `refs/`.
pub open spec fn recovery_spec(record: OperationRecordView, listing: Seq<(Seq<char>, Seq<char>)>) -> Option<Seq<char>> {
    if record.reversible && restore_commands(listing).len() > 0 {
        Some(join_and(restore_commands(listing)))
    } else {
        None
    }
}

proof fn lemma_join_empty(parts: Seq<Seq<char>>)
    requires
        forall|i: int| 0 <= i < parts.len() ==> #[trigger] parts[i].len() > 0,
    ensures
        (join_and(parts).len() == 0) == (parts.len() == 0),
    decreases parts.len(),
{
    if parts.len() > 1 {
        assert(parts[parts.len() - 1].len() > 0);
    } else if parts.len() == 1 {
        assert(parts[0].len() > 0);
    }
}

proof fn lemma_commands_nonempty(listing: Seq<(Seq<char>, Seq<char>)>)
    ensures
        forall|i: int|
            0 <= i < restore_commands(listing).len() ==> #[trigger] restore_commands(listing)[i].len()
                > 0,
    decreases listing.len(),
{
    reveal_strlit("git update-ref -d ");
    reveal_strlit("git update-ref ");
    if listing.len() > 0 {
        lemma_commands_nonempty(listing.drop_last());
        let done = restore_commands(listing.drop_last());
        let (name, value) = listing.last();
        assert(restore_one(name, value).len() > 0);
        if starts_with_spec(name, "refs/"@) {
            assert forall|i: int| 0 <= i < done.push(restore_one(name, value)).len() implies #[trigger] done.push(
                restore_one(name, value),
            )[i].len() > 0 by {
                if i < done.len() {
                    assert(done[i].len() > 0);
                }
            }
        }
    }
}

impl RecoveryEntry {
    pub fn from(record: OperationRecord) -> (r: Self)
        ensures
            r.id@ == record.id@,
            r.operation@ == record.operation@,
            r.started@ == record.started@,
            opt_view(r.finished) == opt_view(record.finished),
            r.refs_before.listing() == record.refs_before.listing(),
            r.refs_after.map() == record.refs_after.map(),
            r.snapshots.map() == record.snapshots.map(),
            r.details.map() == record.details.map(),
            opt_view(r.phase) == opt_view(record.phase),
            r.commands.deep_view() == record.commands.deep_view(),
            r.reversible == record.reversible,
            opt_view(r.recovery_command) == recovery_spec(record@, record.refs_before.listing()),
    {
        let command = restore_refs(&record.refs_before);
        proof {
            lemma_commands_nonempty(record.refs_before.listing());
            lemma_join_empty(restore_commands(record.refs_before.listing()));
        }
        let recovery_command = if record.reversible && !command.as_str().is_empty() {
            Some(command)
        } else {
            None
        };
        RecoveryEntry {
            id: record.id,
            operation: record.operation,
            started: record.started,
            finished: record.finished,
            refs_before: record.refs_before,
            refs_after: record.refs_after,
            snapshots: record.snapshots,
            details: record.details,
            phase: record.phase,
            commands: record.commands,
            reversible: record.reversible,
            recovery_command,
        }
    }
}

/// The entry's recovery command is the one that its own reversibility and the
/// refs it found call for.
pub open spec fn carries_its_recovery(entry: RecoveryEntry) -> bool {
    let listing = entry.refs_before.listing();
    opt_view(entry.recovery_command) == if entry.reversible && restore_commands(listing).len() > 0 {
        Some(join_and(restore_commands(listing)))
    } else {
        None
    }
}

/// `entry` shows `record`: every field as logged, and the recovery command
/// that its reversibility and the refs it found call for.
pub open spec fn entry_of(record: OperationRecordView, entry: RecoveryEntry) -> bool {
    &&& entry.id@ == record.id
    &&& entry.operation@ == record.operation
    &&& entry.started@ == record.started
    &&& opt_view(entry.finished) == record.finished
    &&& entry.refs_before.map() == record.refs_before
    &&& entry.refs_after.map() == record.refs_after
    &&& entry.snapshots.map() == record.snapshots
    &&& entry.details.map() == record.details
    &&& opt_view(entry.phase) == record.phase
    &&& entry.commands.deep_view() == record.commands
    &&& entry.reversible == record.reversible
    &&& carries_its_recovery(entry)
}

/// One entry per record, in the same order, each showing its record.
pub open spec fn entries_match(records: Seq<OperationRecordView>, entries: Seq<RecoveryEntry>) -> bool {
    &&& entries.len() == records.len()
    &&& forall|i: int| 0 <= i < entries.len() ==> entry_of(records[i], #[trigger] entries[i])
}

/// The entries that show `records`, oldest first.
pub fn entries_of(records: Vec<OperationRecord>) -> (v: Vec<RecoveryEntry>)
    ensures
        entries_match(records_view(records@), v@),
{
    let ghost all = records_view(records@);
    let mut entries: Vec<RecoveryEntry> = Vec::new();
    let mut rest = records;
    while rest.len() > 0
        invariant
            entries@.len() + rest@.len() == all.len(),
            records_view(rest@) == all.skip(entries@.len() as int),
            forall|i: int| 0 <= i < entries@.len() ==> entry_of(all[i], #[trigger] entries@[i]),
        decreases rest@.len(),
    {
        let ghost before = rest@;
        let ghost k = entries@.len() as int;
        let record = rest.remove(0);
        assert(all[k] == records_view(before)[0]);
        assert(rest@ =~= before.subrange(1, before.len() as int));
        assert forall|j: int| 0 <= j < rest@.len() implies #[trigger] records_view(rest@)[j] == all.skip(
            k + 1,
        )[j] by {
            assert(records_view(before)[j + 1] == all.skip(k)[j + 1]);
        }
        assert(records_view(rest@) =~= all.skip(k + 1));
        let entry = RecoveryEntry::from(record);
        assert(entry_of(all[k], entry));
        entries.push(entry);
    }
    assert(entries@.len() == all.len());
    entries
}

/// Where the log of the repository whose Git directory is `dir` lives.
pub open spec fn log_path(dir: Seq<char>) -> Seq<char> {
    dir + seq!['/'] + "githelper"@ + seq!['/'] + "oplog.json"@
}

/// Every logged operation, oldest first, with its recovery command: the log is
/// read, never written, and each record becomes one entry.
pub(crate) fn list<R: GitRunner>(runner: &mut Host<R>) -> (r: Result<Vec<RecoveryEntry>, RecoveryError>)
    ensures
        reads_only(old(runner).trace(), final(runner).trace()),
        grows(*old(runner), *final(runner)),
        r matches Ok(v) ==> exists|dir: Seq<char>, loaded: Seq<OperationRecordView>|
            read_log(old(runner).trace().push(Effect::Setting), final(runner).trace(), log_path(dir), loaded)
                && entries_match(loaded, v@),
        r matches Ok(v) ==> forall|i: int| 0 <= i < v@.len() ==> carries_its_recovery(
            #[trigger] v@[i],
        ),
{
    let git_dir = match runner.git_dir() {
        Ok(d) => d,
        Err(e) => return Err(RecoveryError::Git(e)),
    };
    let oplog = Oplog::open_existing(git_dir.as_str());
    let ghost t1 = runner.trace();
    let got = oplog.entries(runner);
    proof {
        crate::host::lemma_reads_chain(old(runner).trace(), t1, runner.trace());
    }
    let records = match got {
        Ok(v) => v,
        Err(e) => return Err(RecoveryError::Recording(e.message())),
    };
    let ghost loaded = records_view(records@);
    let entries = entries_of(records);
    assert(oplog.path@ == log_path(git_dir@));
    Ok(entries)
}

} // verus!
