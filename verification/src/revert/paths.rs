//! The paths a revert may restore: those locally dirty and those that differ from Base.
use vstd::prelude::*;

use crate::host::{grows, lemma_grows_chain, lemma_reads_chain, reads_only, Effect, Host};
use crate::inspection::{changed_from, changed_paths_effect};

use crate::git::{command_args, GitRunner};
use crate::git::GitCommand;
use crate::inspection::{ChangedPath, ChangedPathView, InspectionError};
use crate::map::{MapValue, PathMap};
use crate::rewrite::model::valid_name;
use crate::rewrite::{RefName, RepoPath};
use crate::text::{bytes_of, bytes_start_with, concat, nonempty_spec, split_nonempty, split_spec, views};
use vstd::utf8::{decode_utf8, valid_utf8};

use super::errors::RevertError;

verus! {

broadcast use crate::host::lemma_grows_chain, crate::host::lemma_grows_none, crate::host::lemma_grows_trace,
    crate::host::lemma_grows_reply;

/// The paths of a list of entries.
pub open spec fn paths_of(v: Seq<ChangedPath>) -> Seq<Seq<char>> {
    Seq::new(v.len(), |i: int| v[i].path@)
}

/// Union of tracked local dirt and `Base...HEAD` committed diffs, one entry
/// per path in path order; the local status wins where both report a path.
pub(crate) fn revertible_paths<R: GitRunner>(runner: &mut Host<R>, base: &RefName) -> (r: Result<
    Vec<ChangedPath>,
    RevertError,
>)
    ensures
        r matches Err(e) ==> !(e is StalePlan),
        r matches Ok(v) ==> crate::order::strictly_sorted(
            paths_of(v@),
        ),
        r matches Err(e) ==> e is Git || e is InvalidState,
        reads_only(old(runner).trace(), final(runner).trace()),
        grows(*old(runner), *final(runner)),
        r is Ok ==> final(runner).trace() == old(runner).trace().push(changed_paths_effect(base@)).push(
            dirty_effect(),
        ),
        r matches Ok(v) ==> (final(runner).reply(old(runner).trace().len() as int) matches Some(c)
            && final(runner).reply(old(runner).trace().len() + 1int) matches Some(d) && changed_from(c)
            matches Some(committed) && dirty_read(d) matches Some(local) && crate::map::map_of(
            keyed(v@),
        ) == entries_map(committed + local)),
{
    let ghost start = runner.trace();
    let committed = match crate::inspection::changed_paths(runner, base) {
        Ok(v) => v,
        Err(e) => return Err(map_inspection(e)),
    };
    let ghost first = *runner;
    let ghost t = runner.trace();
    let got = dirty_paths(runner);
    proof {
        lemma_reads_chain(start, t, runner.trace());
        lemma_grows_chain(*old(runner), first, *runner);
    }
    let dirty = match got {
        Ok(v) => v,
        Err(e) => return Err(e),
    };
    proof {
        assert(runner.reply(start.len() as int) == first.reply(start.len() as int));
        assert(paths_view(committed@) =~= crate::inspection::changed_views(committed@));
    }
    Ok(merge_by_path(committed, dirty))
}

/// The entries keyed by path, a later entry for a path replacing an earlier one.
pub open spec fn entries_map(entries: Seq<ChangedPathView>) -> Map<Seq<char>, ChangedPathView>
    decreases entries.len(),
{
    if entries.len() == 0 {
        Map::empty()
    } else {
        entries_map(entries.drop_last()).insert(entries.last().path, entries.last())
    }
}

/// Each entry with its path as the key.
pub open spec fn keyed(v: Seq<ChangedPath>) -> Seq<(Seq<char>, ChangedPathView)> {
    Seq::new(v.len(), |i: int| (v[i].path@, v[i]@))
}

/// The entries of `first` then `second` keyed by path, a later entry for a path
/// replacing an earlier one, listed in path order.
pub fn merge_by_path(first: Vec<ChangedPath>, second: Vec<ChangedPath>) -> (r: Vec<ChangedPath>)
    ensures
        crate::order::strictly_sorted(paths_of(r@)),
        crate::map::map_of(keyed(r@)) == entries_map(paths_view(first@) + paths_view(second@)),
{
    let ghost all = paths_view(first@) + paths_view(second@);
    let ghost n1 = first@.len();
    let mut by_path: PathMap<ChangedPath> = PathMap::new();
    let mut first = first;
    let ghost mut done: int = 0;
    assert(all.take(0) =~= Seq::<ChangedPathView>::empty());
    assert(all.len() == n1 + second@.len());
    while first.len() > 0
        invariant
            0 <= done <= n1,
            n1 <= all.len(),
            done + first@.len() == n1,
            forall|j: int| 0 <= j < first@.len() ==> #[trigger] first@[j]@ == all[done + j],
            by_path.map() == entries_map(all.take(done)),
            forall|k: Seq<char>| #[trigger] by_path.map().dom().contains(k) ==> by_path.map()[k].path == k,
        decreases first@.len(),
    {
        let ghost before = first@;
        let entry = first.remove(0);
        proof {
            assert(entry@ == all[done]);
            assert(all.take(done + 1).drop_last() =~= all.take(done));
            assert(all.take(done + 1).last() == all[done]);
            assert forall|j: int| 0 <= j < first@.len() implies #[trigger] first@[j]@ == all[done + 1 + j] by {
                assert(first@[j] == before[j + 1]);
            }
        }
        by_path.insert(String::from_str(entry.path.as_str()), entry);
        proof {
            done = done + 1;
        }
    }
    let mut second = second;
    assert forall|j: int| 0 <= j < second@.len() implies #[trigger] second@[j]@ == all[done + j] by {
        assert(all[n1 + j] == paths_view(second@)[j]);
    }
    while second.len() > 0
        invariant
            n1 <= done <= all.len(),
            done + second@.len() == all.len(),
            forall|j: int| 0 <= j < second@.len() ==> #[trigger] second@[j]@ == all[done + j],
            by_path.map() == entries_map(all.take(done)),
            forall|k: Seq<char>| #[trigger] by_path.map().dom().contains(k) ==> by_path.map()[k].path == k,
        decreases second@.len(),
    {
        let ghost before = second@;
        let entry = second.remove(0);
        proof {
            assert(entry@ == all[done]);
            assert(all.take(done + 1).drop_last() =~= all.take(done));
            assert(all.take(done + 1).last() == all[done]);
            assert forall|j: int| 0 <= j < second@.len() implies #[trigger] second@[j]@ == all[done + 1 + j] by {
                assert(second@[j] == before[j + 1]);
            }
        }
        by_path.insert(String::from_str(entry.path.as_str()), entry);
        proof {
            done = done + 1;
        }
    }
    assert(all.take(done) == all);
    let r = values_of(&by_path);
    proof {
        assert(keyed(r@) =~= by_path.listing());
    }
    r
}

/// The values of `map` in path order.
fn values_of(map: &PathMap<ChangedPath>) -> (r: Vec<ChangedPath>)
    requires
        forall|k: Seq<char>| #[trigger] map.map().dom().contains(k) ==> map.map()[k].path == k,
    ensures
        r@.len() == map.listing().len(),
        forall|i: int| 0 <= i < r@.len() ==> #[trigger] r@[i]@ == map.listing()[i].1,
        forall|i: int| 0 <= i < r@.len() ==> #[trigger] r@[i].path@ == map.listing()[i].0,
        crate::order::strictly_sorted(paths_of(r@)),
{
    let mut r: Vec<ChangedPath> = Vec::new();
    let mut i: usize = 0;
    while i < map.len()
        invariant
            i <= map.listing().len(),
            r@.len() == i,
            forall|j: int| 0 <= j < i ==> #[trigger] r@[j]@ == map.listing()[j].1,
        decreases map.listing().len() - i,
    {
        r.push(map.value_at(i).duplicate());
        i = i + 1;
    }
    proof {
        let l = map.listing();
        assert forall|j: int| 0 <= j < r@.len() implies #[trigger] r@[j].path@ == l[j].0 by {
            crate::map::lemma_map_of_value(l, j);
            assert(map.map().dom().contains(l[j].0));
            assert(map.map()[l[j].0].path == l[j].0);
            assert(r@[j]@ == l[j].1);
        }
        assert forall|a: int, b: int| 0 <= a < b < r@.len() implies crate::order::seq_lt(
            #[trigger] paths_of(r@)[a],
            #[trigger] paths_of(r@)[b],
        ) by {
            assert(paths_of(r@)[a] == l[a].0);
            assert(paths_of(r@)[b] == l[b].0);
            assert(crate::order::seq_lt(crate::map::keys_of(l)[a], crate::map::keys_of(l)[b]));
        }
    }
    r
}

} // verus!

verus! {

/// Index of the `n`-th space (counting from 1) in `s`, or -1.
pub open spec fn nth_space(s: Seq<u8>, n: nat) -> int
    decreases s.len(),
{
    if s.len() == 0 {
        -1
    } else {
        let rest = if s[0] == 32 {
            if n == 1 {
                -1
            } else {
                nth_space(s.drop_first(), (n - 1) as nat)
            }
        } else {
            nth_space(s.drop_first(), n)
        };
        if s[0] == 32 && n == 1 {
            0
        } else if rest < 0 {
            -1
        } else {
            rest + 1
        }
    }
}

/// The character `String::from_utf8_lossy` makes of one byte.
pub open spec fn lossy_char(b: u8) -> char {
    if b < 128 {
        b as char
    } else {
        '\u{FFFD}'
    }
}

/// The one-letter status of a porcelain v2 `XY` field: the worktree letter
/// when it is set, else the index letter.
pub open spec fn status_spec(x: u8, y: u8) -> Seq<char> {
    seq![lossy_char(if y != 46 { y } else { x })]
}

/// The status and path of a porcelain v2 record that has `count` fields before its path.
pub open spec fn xy_spec(record: Seq<u8>, count: nat) -> Option<(Seq<char>, Seq<u8>)> {
    let k = nth_space(record, count);
    if record.len() < 4 || k < 0 || k + 1 >= record.len() {
        None
    } else {
        Some((status_spec(record[2], record[3]), record.skip(k + 1)))
    }
}

pub open spec fn path_ok(p: Seq<u8>) -> bool {
    valid_utf8(p) && valid_name(decode_utf8(p))
}

/// An ordinary changed entry (`1 ...`).
pub open spec fn ordinary_spec(record: Seq<u8>) -> Option<ChangedPathView> {
    match xy_spec(record, 8) {
        Some((status, path)) => if path_ok(path) {
            Some(ChangedPathView { path: decode_utf8(path), previous_path: None, status })
        } else {
            None
        },
        None => None,
    }
}

/// A renamed or copied entry (`2 ...`) and the path it came from.
pub open spec fn rename_spec(record: Seq<u8>, previous: Seq<u8>) -> Option<ChangedPathView> {
    match xy_spec(record, 9) {
        Some((status, path)) => if path_ok(path) && path_ok(previous) {
            Some(
                ChangedPathView {
                    path: decode_utf8(path),
                    previous_path: Some(decode_utf8(previous)),
                    status,
                },
            )
        } else {
            None
        },
        None => None,
    }
}

pub open spec fn prefix2(a: u8, b: u8) -> Seq<u8> {
    seq![a, b]
}

/// The entries of `git status --porcelain=v2 -z` from field `i` on; unmerged
/// (`u`) and untracked (`?`) records are left out. `None` when a record is malformed.
pub open spec fn dirty_from(fields: Seq<Seq<u8>>, i: int) -> Option<Seq<ChangedPathView>>
    decreases fields.len() - i,
{
    if i < 0 || i >= fields.len() {
        Some(Seq::empty())
    } else {
        let f = fields[i];
        if bytes_start_with(f, prefix2(117, 32)) || bytes_start_with(f, prefix2(63, 32)) {
            dirty_from(fields, i + 1)
        } else if bytes_start_with(f, prefix2(49, 32)) {
            match ordinary_spec(f) {
                Some(e) => match dirty_from(fields, i + 1) {
                    Some(rest) => Some(seq![e] + rest),
                    None => None,
                },
                None => None,
            }
        } else if bytes_start_with(f, prefix2(50, 32)) {
            if i + 1 >= fields.len() {
                None
            } else {
                match rename_spec(f, fields[i + 1]) {
                    Some(e) => match dirty_from(fields, i + 2) {
                        Some(rest) => Some(seq![e] + rest),
                        None => None,
                    },
                    None => None,
                }
            }
        } else {
            dirty_from(fields, i + 1)
        }
    }
}

pub open spec fn prepend(done: Seq<ChangedPathView>, rest: Option<Seq<ChangedPathView>>) -> Option<
    Seq<ChangedPathView>,
> {
    match rest {
        Some(r) => Some(done + r),
        None => None,
    }
}

pub open spec fn paths_view(v: Seq<ChangedPath>) -> Seq<ChangedPathView> {
    Seq::new(v.len(), |i: int| v[i]@)
}

/// The command that lists the tracked local changes.
pub open spec fn dirty_effect() -> Effect {
    Effect::Run {
        args: seq![
            "status"@,
            "--porcelain=v2"@,
            "-z"@,
            "--untracked-files=no"@,
            "--ignore-submodules=all"@,
        ],
        writes: false,
    }
}

/// What `git status --porcelain=v2 -z` printed, read as changed paths.
pub open spec fn dirty_read(printed: Seq<u8>) -> Option<Seq<ChangedPathView>> {
    dirty_from(nonempty_spec(split_spec(printed, 0)), 0)
}

fn dirty_paths<R: GitRunner>(runner: &mut Host<R>) -> (r: Result<Vec<ChangedPath>, RevertError>)
    ensures
        reads_only(old(runner).trace(), final(runner).trace()),
        grows(*old(runner), *final(runner)),
        final(runner).trace() == old(runner).trace().push(dirty_effect()),
        r matches Ok(v) ==> (final(runner).reply(old(runner).trace().len() as int) matches Some(out)
            && dirty_read(out) == Some(paths_view(v@))),
        r matches Err(e) ==> !(e is StalePlan),
        r matches Err(e) ==> e is Git || e is InvalidState,
{
    let args = command_args(
        &["status", "--porcelain=v2", "-z", "--untracked-files=no", "--ignore-submodules=all"],
    );
    assert(args.deep_view() =~= seq![
        "status"@,
        "--porcelain=v2"@,
        "-z"@,
        "--untracked-files=no"@,
        "--ignore-submodules=all"@,
    ]);
    let output = match runner.run(&GitCommand::read(args)) {
        Ok(o) => o,
        Err(e) => return Err(RevertError::Git(e)),
    };
    parse_dirty(output.stdout.as_slice())
}

fn two_bytes(a: u8, b: u8) -> (r: Vec<u8>)
    ensures
        r@ == prefix2(a, b),
{
    let mut v: Vec<u8> = Vec::new();
    v.push(a);
    v.push(b);
    assert(v@ =~= prefix2(a, b));
    v
}

/// Reads `git status --porcelain=v2 -z` output into changed entries.
pub fn parse_dirty(output: &[u8]) -> (r: Result<Vec<ChangedPath>, RevertError>)
    ensures
        r is Ok <==> dirty_from(nonempty_spec(split_spec(output@, 0)), 0) is Some,
        r matches Ok(v) ==> Some(paths_view(v@)) == dirty_from(
            nonempty_spec(split_spec(output@, 0)),
            0,
        ),
        r matches Err(e) ==> e is InvalidState,
{
    let fields = split_nonempty(output, 0);
    let ghost f = views(fields@);
    let mut result: Vec<ChangedPath> = Vec::new();
    let mut i: usize = 0;
    assert(paths_view(result@) + Seq::<ChangedPathView>::empty() =~= paths_view(result@));
    while i < fields.len()
        invariant
            i <= fields@.len(),
            f == views(fields@),
            f == nonempty_spec(split_spec(output@, 0)),
            dirty_from(f, 0) == prepend(paths_view(result@), dirty_from(f, i as int)),
        decreases fields@.len() - i,
    {
        let record = fields[i].as_slice();
        assert(f[i as int] == record@);
        if starts_with2(record, 117, 32) || starts_with2(record, 63, 32) {
            i = i + 1;
        } else if starts_with2(record, 49, 32) {
            match ordinary_entry(record) {
                Ok(entry) => {
                    let ghost before = paths_view(result@);
                    result.push(entry);
                    assert(paths_view(result@) =~= before.push(entry@));
                    proof {
                        match dirty_from(f, i + 1) {
                            Some(rest) => {
                                assert(before + (seq![entry@] + rest) =~= before.push(entry@)
                                    + rest);
                            },
                            None => {},
                        }
                    }
                    i = i + 1;
                },
                Err(e) => return Err(e),
            }
        } else if starts_with2(record, 50, 32) {
            if i + 1 >= fields.len() {
                return Err(
                    RevertError::InvalidState(
                        String::from_str("rename status had no previous path"),
                    ),
                );
            }
            assert(f[i + 1] == fields@[i + 1]@);
            match rename_entry(record, fields[i + 1].as_slice()) {
                Ok(entry) => {
                    let ghost before = paths_view(result@);
                    result.push(entry);
                    assert(paths_view(result@) =~= before.push(entry@));
                    proof {
                        match dirty_from(f, i + 2) {
                            Some(rest) => {
                                assert(before + (seq![entry@] + rest) =~= before.push(entry@)
                                    + rest);
                            },
                            None => {},
                        }
                    }
                    i = i + 2;
                },
                Err(e) => return Err(e),
            }
        } else {
            i = i + 1;
        }
    }
    assert(paths_view(result@) + Seq::<ChangedPathView>::empty() =~= paths_view(result@));
    Ok(result)
}

fn starts_with2(record: &[u8], a: u8, b: u8) -> (r: bool)
    ensures
        r == bytes_start_with(record@, prefix2(a, b)),
{
    let p = two_bytes(a, b);
    crate::text::starts_with_bytes(record, p.as_slice())
}

fn ordinary_entry(record: &[u8]) -> (r: Result<ChangedPath, RevertError>)
    ensures
        r is Ok <==> ordinary_spec(record@) is Some,
        r matches Ok(e) ==> Some(e@) == ordinary_spec(record@),
        r matches Err(e) ==> e is InvalidState,
{
    let (status, path) = match xy_and_path(record, 8) {
        Ok(x) => x,
        Err(e) => return Err(e),
    };
    match RepoPath::from_bytes(path.as_slice()) {
        Ok(p) => Ok(ChangedPath { path: p, previous_path: None, status }),
        Err(message) => Err(RevertError::InvalidState(message)),
    }
}

fn rename_entry(record: &[u8], previous: &[u8]) -> (r: Result<ChangedPath, RevertError>)
    ensures
        r is Ok <==> rename_spec(record@, previous@) is Some,
        r matches Ok(e) ==> Some(e@) == rename_spec(record@, previous@),
        r matches Err(e) ==> e is InvalidState,
{
    let (status, path) = match xy_and_path(record, 9) {
        Ok(x) => x,
        Err(e) => return Err(e),
    };
    let path = match RepoPath::from_bytes(path.as_slice()) {
        Ok(p) => p,
        Err(message) => return Err(RevertError::InvalidState(message)),
    };
    let previous = match RepoPath::from_bytes(previous) {
        Ok(p) => p,
        Err(message) => return Err(RevertError::InvalidState(message)),
    };
    Ok(ChangedPath { path, previous_path: Some(previous), status })
}

/// Porcelain v2 keeps a fixed field count before the path; the path may contain
/// spaces, so everything after that count is the path bytes.
fn xy_and_path(record: &[u8], field_count: usize) -> (r: Result<(String, Vec<u8>), RevertError>)
    requires
        field_count >= 1,
    ensures
        r is Ok <==> xy_spec(record@, field_count as nat) is Some,
        r matches Ok((status, path)) ==> xy_spec(record@, field_count as nat) == Some(
            (status@, path@),
        ),
        r matches Err(e) ==> e is InvalidState,
{
    if record.len() < 4 {
        return Err(RevertError::InvalidState(String::from_str("status record was too short")));
    }
    let start = match find_nth_space(record, field_count) {
        Some(k) => k + 1,
        None => 0,
    };
    if start == 0 || start >= record.len() {
        return Err(RevertError::InvalidState(String::from_str("status record had no path")));
    }
    let status = dirt_status(record[2], record[3]);
    let path = bytes_of(record, start, record.len());
    Ok((status, path))
}

/// Index of the `n`-th space of `record`.
fn find_nth_space(record: &[u8], n: usize) -> (r: Option<usize>)
    requires
        n >= 1,
    ensures
        r is None <==> nth_space(record@, n as nat) < 0,
        r matches Some(k) ==> k == nth_space(record@, n as nat) && k < record@.len(),
{
    let mut remaining = n;
    let mut index: usize = 0;
    assert(record@.skip(0) == record@);
    while index < record.len()
        invariant
            index <= record@.len(),
            1 <= remaining <= n,
            nth_space(record@, n as nat) == (if nth_space(
                record@.skip(index as int),
                remaining as nat,
            ) < 0 {
                -1
            } else {
                nth_space(record@.skip(index as int), remaining as nat) + index
            }),
        decreases record@.len() - index,
    {
        assert(record@.skip(index as int).drop_first() == record@.skip(index + 1));
        if record[index] == 32 {
            if remaining == 1 {
                return Some(index);
            }
            remaining = remaining - 1;
        }
        index = index + 1;
    }
    None
}

/// The worktree letter of `XY` when set, else the index letter.
fn dirt_status(x: u8, y: u8) -> (r: String)
    ensures
        r@ == status_spec(x, y),
{
    let letter = if y != 46 {
        y
    } else {
        x
    };
    let mut s = String::new();
    let c = if letter < 128 {
        letter as char
    } else {
        '\u{FFFD}'
    };
    s.append(crate::text::copy_char(c).as_str());
    s
}

/// `:(top,literal)<path>`: a pathspec Git takes as this exact path from the top.
pub fn literal(path: &str) -> (r: String)
    ensures
        r@ == ":(top,literal)"@ + path@,
{
    concat(":(top,literal)", path)
}

fn map_inspection(error: InspectionError) -> (r: RevertError)
    ensures
        error matches InspectionError::Git(e) ==> r == RevertError::Git(e),
        error matches InspectionError::Parse(_) ==> r matches RevertError::InvalidState(_),
        r is Git || r is InvalidState,
{
    match error {
        InspectionError::Git(e) => RevertError::Git(e),
        other => RevertError::InvalidState(other.message()),
    }
}

/// The status of a changed entry of `git status --porcelain=v2` is its
/// worktree letter `Y` (the fourth byte) whenever that letter is set, and its
/// index letter `X` (the third byte) only when `Y` is `.`.
pub proof fn law_dirt_status_prefers_worktree(record: Seq<u8>, previous: Seq<u8>)
    ensures
        ordinary_spec(record) matches Some(e) ==> {
            &&& record[3] != 46 ==> e.status == seq![lossy_char(record[3])]
            &&& record[3] == 46 ==> e.status == seq![lossy_char(record[2])]
        },
        rename_spec(record, previous) matches Some(e) ==> {
            &&& record[3] != 46 ==> e.status == seq![lossy_char(record[3])]
            &&& record[3] == 46 ==> e.status == seq![lossy_char(record[2])]
        },
{
}

} // verus!
