//! What the repository inspection reports about changed paths and submodules.
use vstd::prelude::*;

use crate::git::{command_args, push_arg, GitCommand, GitError, GitRunner};
use crate::host::{grows, lemma_grows_chain, lemma_grows_none, lemma_reads_chain, lemma_reads_none, reads_only, Effect, Host};
use crate::map::MapValue;
use crate::rewrite::model::valid_name;
use crate::rewrite::{RefName, RepoPath};
use crate::text::{bytes_of, concat, nonempty_spec, split_bytes, split_nonempty, split_spec, utf8_text, views};

verus! {

broadcast use crate::host::lemma_grows_chain, crate::host::lemma_grows_none, crate::host::lemma_grows_trace,
    crate::host::lemma_grows_reply;

/// A path that differs, with the path it was renamed from and a one-letter status.
#[derive(Debug, Eq, PartialEq)]
pub struct ChangedPath {
    pub path: RepoPath,
    pub previous_path: Option<RepoPath>,
    pub status: String,
}

/// A submodule whose checkout differs from the commit its superproject records.
#[derive(Debug, Eq, PartialEq)]
pub struct DirtySubmodule {
    pub path: RepoPath,
    /// Whether commits of the Editable range change the recorded commit.
    pub in_editable_range: bool,
}

pub struct ChangedPathView {
    pub path: Seq<char>,
    pub previous_path: Option<Seq<char>>,
    pub status: Seq<char>,
}

impl View for ChangedPath {
    type V = ChangedPathView;

    open spec fn view(&self) -> ChangedPathView {
        ChangedPathView {
            path: self.path@,
            previous_path: match self.previous_path {
                Some(p) => Some(p@),
                None => None,
            },
            status: self.status@,
        }
    }
}

impl MapValue for ChangedPath {
    type V = ChangedPathView;

    open spec fn vv(&self) -> ChangedPathView {
        self@
    }

    fn same(&self, other: &Self) -> (r: bool) {
        let previous_same = match (&self.previous_path, &other.previous_path) {
            (Some(a), Some(b)) => a.same(b),
            (None, None) => true,
            _ => false,
        };
        self.path.same(&other.path) && previous_same && self.status == other.status
    }

    fn duplicate(&self) -> (r: Self) {
        ChangedPath {
            path: self.path.clone(),
            previous_path: match &self.previous_path {
                Some(p) => Some(p.clone()),
                None => None,
            },
            status: self.status.clone(),
        }
    }
}

#[derive(Debug)]
pub enum InspectionError {
    Git(GitError),
    Parse(String),
}

impl InspectionError {
    /// The error as a sentence.
    pub fn message(&self) -> (r: String)
        ensures
            self is Git ==> r@ == "Git command failed"@,
            self matches InspectionError::Parse(m) ==> r@ == m@,
    {
        match self {
            InspectionError::Git(_) => String::from_str("Git command failed"),
            InspectionError::Parse(m) => m.clone(),
        }
    }
}

// ------------------------------------------------------------ changed paths

/// The views of a list of changed paths.
pub open spec fn changed_views(v: Seq<ChangedPath>) -> Seq<ChangedPathView> {
    Seq::new(v.len(), |i: int| v[i]@)
}

/// `rest` with `prefix` in front, where there is a `rest`.
pub open spec fn prefixed(prefix: Seq<ChangedPathView>, rest: Option<Seq<ChangedPathView>>) -> Option<
    Seq<ChangedPathView>,
> {
    match rest {
        Some(r) => Some(prefix + r),
        None => None,
    }
}

/// The fields of `git diff --name-status -z --no-renames`, taken two at a
/// time: a status and the path it applies to. A lone last field, a field that
/// is not UTF-8 or a path that is not a valid repository path is refused.
pub open spec fn name_status_spec(fields: Seq<Seq<u8>>) -> Option<Seq<ChangedPathView>>
    decreases fields.len(),
{
    if fields.len() == 0 {
        Some(Seq::empty())
    } else if fields.len() < 2 || !vstd::utf8::valid_utf8(fields[0]) || !vstd::utf8::valid_utf8(
        fields[1],
    ) || !valid_name(vstd::utf8::decode_utf8(fields[1])) {
        None
    } else {
        prefixed(
            seq![
                ChangedPathView {
                    path: vstd::utf8::decode_utf8(fields[1]),
                    previous_path: None,
                    status: vstd::utf8::decode_utf8(fields[0]),
                },
            ],
            name_status_spec(fields.skip(2)),
        )
    }
}

/// The paths that `git diff --name-status -z --no-renames` printed.
pub fn parse_name_status(output: &[u8]) -> (r: Result<Vec<ChangedPath>, InspectionError>)
    ensures
        r is Ok <==> name_status_spec(nonempty_spec(split_spec(output@, 0))) is Some,
        r matches Ok(v) ==> name_status_spec(nonempty_spec(split_spec(output@, 0))) == Some(
            changed_views(v@),
        ),
        r matches Err(e) ==> e is Parse,
{
    let fields = split_nonempty(output, 0);
    let ghost f = views(fields@);
    let mut result: Vec<ChangedPath> = Vec::new();
    let mut i: usize = 0;
    assert(f.skip(0) =~= f);
    assert(changed_views(result@) =~= Seq::<ChangedPathView>::empty());
    proof {
        match name_status_spec(f) {
            Some(x) => assert(Seq::<ChangedPathView>::empty() + x =~= x),
            None => {},
        }
    }
    while i < fields.len()
        invariant
            i <= fields@.len(),
            f == views(fields@),
            f == nonempty_spec(split_spec(output@, 0)),
            name_status_spec(f) == prefixed(changed_views(result@), name_status_spec(f.skip(i as int))),
        decreases fields@.len() - i,
    {
        let ghost rest = f.skip(i as int);
        if i + 1 >= fields.len() {
            return Err(InspectionError::Parse(String::from_str("truncated diff")));
        }
        assert(rest[0] == fields@[i as int]@);
        assert(rest[1] == fields@[i + 1]@);
        assert(rest.skip(2) =~= f.skip(i + 2));
        let first = &fields[i];
        let second = &fields[i + 1];
        assert(first@.subrange(0, first@.len() as int) =~= first@);
        let status = match utf8_text(bytes_of(first.as_slice(), 0, first.len())) {
            Some(s) => s,
            None => return Err(InspectionError::Parse(String::from_str("Git output is not UTF-8"))),
        };
        let path = match RepoPath::from_bytes(second.as_slice()) {
            Ok(p) => p,
            Err(message) => return Err(InspectionError::Parse(message)),
        };
        let entry = ChangedPath { path, previous_path: None, status };
        let ghost ev = entry@;
        let ghost before = changed_views(result@);
        result.push(entry);
        assert(changed_views(result@) =~= before.push(ev));
        proof {
            match name_status_spec(rest.skip(2)) {
                Some(x) => {
                    assert(before + (seq![ev] + x) =~= before.push(ev) + x);
                },
                None => {},
            }
        }
        i = i + 2;
    }
    assert(f.skip(i as int) =~= Seq::<Seq<u8>>::empty());
    proof {
        assert(changed_views(result@) + Seq::<ChangedPathView>::empty() =~= changed_views(result@));
    }
    Ok(result)
}

/// `diff --name-status -z --no-renames <base>...HEAD`.
pub fn changed_paths_args(base: &RefName) -> (r: Vec<String>)
    ensures
        r.deep_view() == seq![
            "diff"@,
            "--name-status"@,
            "-z"@,
            "--no-renames"@,
            base@ + "...HEAD"@,
        ],
{
    let mut values = command_args(&["diff", "--name-status", "-z", "--no-renames"]);
    push_arg(&mut values, concat(base.as_str(), "...HEAD").as_str());
    assert(values.deep_view() =~= seq![
        "diff"@,
        "--name-status"@,
        "-z"@,
        "--no-renames"@,
        base@ + "...HEAD"@,
    ]);
    values
}

/// Paths that differ between `base` and `HEAD`: Git's diff, read.
/// The command that lists the paths changed between `base` and `HEAD`.
pub open spec fn changed_paths_effect(base: Seq<char>) -> Effect {
    Effect::Run {
        args: seq!["diff"@, "--name-status"@, "-z"@, "--no-renames"@, base + "...HEAD"@],
        writes: false,
    }
}

/// What `git diff --name-status -z` printed, read as changed paths.
pub open spec fn changed_from(printed: Seq<u8>) -> Option<Seq<ChangedPathView>> {
    name_status_spec(nonempty_spec(split_spec(printed, 0)))
}

/// Paths that differ between `base` and `HEAD`: Git's diff, read. It fails
/// exactly when Git fails or prints what cannot be read.
pub(crate) fn changed_paths<R: GitRunner>(runner: &mut Host<R>, base: &RefName) -> (r: Result<
    Vec<ChangedPath>,
    InspectionError,
>)
    ensures
        reads_only(old(runner).trace(), final(runner).trace()),
        grows(*old(runner), *final(runner)),
        final(runner).trace() == old(runner).trace().push(changed_paths_effect(base@)),
        r is Ok <==> (final(runner).reply(old(runner).trace().len() as int) matches Some(out)
            && changed_from(out) is Some),
        r matches Ok(v) ==> (final(runner).reply(old(runner).trace().len() as int) matches Some(out)
            && changed_from(out) == Some(changed_views(v@))),
        r matches Err(e) ==> (e is Git <==> final(runner).reply(old(runner).trace().len() as int) is None),
{
    let args = changed_paths_args(base);
    let output = match runner.run(&GitCommand::read(args)) {
        Ok(o) => o,
        Err(e) => return Err(InspectionError::Git(e)),
    };
    parse_name_status(output.stdout.as_slice())
}

// ------------------------------------------------------------ dirty submodules

/// The path a `git submodule status` line names, when its first character
/// marks the checkout as differing (`+`) or in conflict (`U`): the second
/// space-separated word after that character, or nothing if there is none.
pub open spec fn dirty_name_spec(line: Seq<u8>) -> Option<Seq<u8>> {
    if line.len() > 0 && (line[0] == 43u8 || line[0] == 85u8) {
        let words = nonempty_spec(split_spec(line.skip(1), 32));
        Some(
            if words.len() > 1 {
                words[1]
            } else {
                Seq::empty()
            },
        )
    } else {
        None
    }
}

/// The names of the dirty submodules of a `git submodule status` listing, in order.
pub open spec fn dirty_names_spec(lines: Seq<Seq<u8>>) -> Seq<Seq<u8>>
    decreases lines.len(),
{
    if lines.len() == 0 {
        Seq::empty()
    } else {
        let rest = dirty_names_spec(lines.drop_first());
        match dirty_name_spec(lines[0]) {
            Some(name) => seq![name] + rest,
            None => rest,
        }
    }
}

/// Whether a name is a valid repository path.
pub open spec fn valid_path_bytes(name: Seq<u8>) -> bool {
    vstd::utf8::valid_utf8(name) && valid_name(vstd::utf8::decode_utf8(name))
}

/// The name in a dirty line of `git submodule status`.
fn dirty_name(line: &Vec<u8>) -> (r: Option<Vec<u8>>)
    ensures
        r matches Some(n) ==> dirty_name_spec(line@) == Some(n@),
        r is None ==> dirty_name_spec(line@) is None,
{
    if line.len() == 0 || (line[0] != 43u8 && line[0] != 85u8) {
        return None;
    }
    let tail = bytes_of(line.as_slice(), 1, line.len());
    assert(tail@ =~= line@.skip(1));
    let words = split_nonempty(tail.as_slice(), 32);
    if words.len() > 1 {
        assert(views(words@)[1] == words@[1]@);
        let w = &words[1];
        let n = bytes_of(w.as_slice(), 0, w.len());
        assert(n@ =~= w@);
        Some(n)
    } else {
        Some(Vec::new())
    }
}

/// The submodules that `git submodule status` marks dirty, in order.
pub fn parse_dirty_names(output: &[u8]) -> (r: Result<Vec<RepoPath>, InspectionError>)
    ensures
        r is Ok <==> forall|i: int|
            0 <= i < dirty_names_spec(split_spec(output@, 10)).len() ==> valid_path_bytes(
                #[trigger] dirty_names_spec(split_spec(output@, 10))[i],
            ),
        r matches Ok(v) ==> v@.len() == dirty_names_spec(split_spec(output@, 10)).len() && forall|i: int|
            0 <= i < v@.len() ==> (#[trigger] v@[i])@ == vstd::utf8::decode_utf8(
                dirty_names_spec(split_spec(output@, 10))[i],
            ),
        r matches Err(e) ==> e is Parse,
{
    let lines = split_bytes(output, 10);
    let ghost all = views(lines@);
    let ghost names = dirty_names_spec(all);
    let ghost mut taken: Seq<Seq<u8>> = Seq::empty();
    let mut result: Vec<RepoPath> = Vec::new();
    let mut i: usize = 0;
    assert(all.skip(0) =~= all);
    assert(names =~= taken + dirty_names_spec(all.skip(0)));
    while i < lines.len()
        invariant
            i <= lines@.len(),
            all == views(lines@),
            all == split_spec(output@, 10),
            names == dirty_names_spec(all),
            names == taken + dirty_names_spec(all.skip(i as int)),
            result@.len() == taken.len(),
            forall|k: int| 0 <= k < taken.len() ==> valid_path_bytes(#[trigger] taken[k]),
            forall|k: int|
                0 <= k < taken.len() ==> (#[trigger] result@[k])@ == vstd::utf8::decode_utf8(taken[k]),
        decreases lines@.len() - i,
    {
        let ghost rest = all.skip(i as int);
        assert(rest[0] == lines@[i as int]@);
        assert(rest.drop_first() =~= all.skip(i + 1));
        match dirty_name(&lines[i]) {
            Some(name) => {
                assert(names == taken + (seq![name@] + dirty_names_spec(all.skip(i + 1))));
                assert(names[taken.len() as int] == name@);
                let path = match RepoPath::from_bytes(name.as_slice()) {
                    Ok(p) => p,
                    Err(message) => {
                        assert(!valid_path_bytes(names[taken.len() as int]));
                        return Err(InspectionError::Parse(message));
                    },
                };
                result.push(path);
                proof {
                    assert(names =~= taken.push(name@) + dirty_names_spec(all.skip(i + 1)));
                    taken = taken.push(name@);
                }
            },
            None => {},
        }
        i = i + 1;
    }
    assert(all.skip(i as int) =~= Seq::<Seq<u8>>::empty());
    assert(names =~= taken);
    Ok(result)
}

/// Whether Git printed anything but blanks.
pub fn has_text(bytes: &[u8]) -> (r: bool)
    ensures
        r == exists|i: int| 0 <= i < bytes@.len() && !blank_byte(#[trigger] bytes@[i]),
{
    let mut i: usize = 0;
    while i < bytes.len()
        invariant
            i <= bytes@.len(),
            forall|k: int| 0 <= k < i ==> blank_byte(#[trigger] bytes@[k]),
        decreases bytes@.len() - i,
    {
        if !is_blank(bytes[i]) {
            return true;
        }
        i = i + 1;
    }
    false
}

/// Tab, newline, vertical tab, form feed, carriage return or space.
pub open spec fn blank_byte(b: u8) -> bool {
    (9u8 <= b && b <= 13u8) || b == 32u8
}

fn is_blank(b: u8) -> (r: bool)
    ensures
        r == blank_byte(b),
{
    (9u8 <= b && b <= 13u8) || b == 32u8
}

/// `diff --name-only <base>...HEAD -- <path>`.
pub fn range_touch_args(base: &RefName, path: &RepoPath) -> (r: Vec<String>)
    ensures
        r.deep_view() == seq!["diff"@, "--name-only"@, base@ + "...HEAD"@, "--"@, path@],
{
    let mut values = command_args(&["diff", "--name-only"]);
    push_arg(&mut values, concat(base.as_str(), "...HEAD").as_str());
    push_arg(&mut values, "--");
    push_arg(&mut values, path.as_str());
    assert(values.deep_view() =~= seq!["diff"@, "--name-only"@, base@ + "...HEAD"@, "--"@, path@]);
    values
}

/// The command that asks whether the commits since `base` touch `path`.
pub open spec fn range_touch_effect(base: Seq<char>, path: Seq<char>) -> Effect {
    Effect::Run { args: seq!["diff"@, "--name-only"@, base + "...HEAD"@, "--"@, path], writes: false }
}

/// Whether Git printed anything but blanks.
pub open spec fn text_in(printed: Seq<u8>) -> bool {
    exists|i: int| 0 <= i < printed.len() && !blank_byte(#[trigger] printed[i])
}

/// Submodules whose checkout differs from what the superproject records; with
/// a base, each is flagged when the commits since the base change it.
pub(crate) fn dirty_submodules<R: GitRunner>(runner: &mut Host<R>, base: Option<&RefName>) -> (r:
    Result<Vec<DirtySubmodule>, InspectionError>)
    ensures
        reads_only(old(runner).trace(), final(runner).trace()),
        grows(*old(runner), *final(runner)),
        old(runner).trace().len() < final(runner).trace().len(),
        final(runner).trace()[old(runner).trace().len() as int] == (Effect::Run {
            args: seq!["submodule"@, "status"@],
            writes: false,
        }),
        r matches Ok(v) ==> (final(runner).reply(old(runner).trace().len() as int) matches Some(printed)
            && v@.len() == dirty_names_spec(split_spec(printed, 10)).len() && forall|i: int|
            0 <= i < v@.len() ==> (#[trigger] v@[i]).path@ == vstd::utf8::decode_utf8(
                dirty_names_spec(split_spec(printed, 10))[i],
            )),
        r matches Ok(v) ==> base is None ==> forall|i: int|
            0 <= i < v@.len() ==> !(#[trigger] v@[i]).in_editable_range,
        r matches Ok(v) ==> base matches Some(b) ==> forall|i: int|
            0 <= i < v@.len() ==> exists|k: int|
                old(runner).trace().len() < k < final(runner).trace().len() && final(runner).trace()[k]
                    == range_touch_effect(b@, (#[trigger] v@[i]).path@) && (v@[i].in_editable_range
                    <==> (final(runner).reply(k) matches Some(o) && text_in(o))),
{
    let ghost start = runner.trace();
    let args = command_args(&["submodule", "status"]);
    assert(args.deep_view() =~= seq!["submodule"@, "status"@]);
    let output = match runner.run(&GitCommand::read(args)) {
        Ok(o) => o,
        Err(e) => return Err(InspectionError::Git(e)),
    };
    let ghost first = *runner;
    let ghost printed = output.stdout@;
    let names = match parse_dirty_names(output.stdout.as_slice()) {
        Ok(v) => v,
        Err(e) => return Err(e),
    };
    proof {
        lemma_grows_none(first);
    }
    let mut entries: Vec<DirtySubmodule> = Vec::new();
    let mut i: usize = 0;
    while i < names.len()
        invariant
            grows(*old(runner), *runner),
            i <= names@.len(),
            entries@.len() == i,
            start == old(runner).trace(),
            first.trace().len() == start.len() + 1,
            first.reply(start.len() as int) == Some(printed),
            grows(*old(runner), first),
            grows(first, *runner),
            reads_only(start, runner.trace()),
            start.len() < runner.trace().len(),
            runner.trace()[start.len() as int] == (Effect::Run {
                args: seq!["submodule"@, "status"@],
                writes: false,
            }),
            forall|k: int| 0 <= k < i ==> (#[trigger] entries@[k]).path@ == names@[k]@,
            base is None ==> forall|k: int| 0 <= k < i ==> !(#[trigger] entries@[k]).in_editable_range,
            base matches Some(b) ==> forall|j: int|
                0 <= j < i ==> exists|k: int|
                    start.len() < k < runner.trace().len() && runner.trace()[k] == range_touch_effect(
                        b@,
                        (#[trigger] entries@[j]).path@,
                    ) && (entries@[j].in_editable_range <==> (runner.reply(k) matches Some(o)
                        && text_in(o))),
        decreases names@.len() - i,
    {
        let path = &names[i];
        let ghost before = *runner;
        let in_editable_range = match base {
            Some(b) => {
                let answer = runner.run(&GitCommand::read(range_touch_args(b, path)));
                proof {
                    lemma_reads_chain(start, before.trace(), runner.trace());
                    lemma_grows_chain(first, before, *runner);
                    assert(runner.trace()[start.len() as int] == runner.trace().take(before.trace().len() as int)[start.len() as int]);
                }
                match answer {
                    Ok(o) => has_text(o.stdout.as_slice()),
                    Err(e) => return Err(InspectionError::Git(e)),
                }
            },
            None => false,
        };
        let entry = DirtySubmodule { path: path.clone(), in_editable_range };
        proof {
            if let Some(b) = base {
                let k = before.trace().len() as int;
                assert(runner.trace()[k] == range_touch_effect(b@, path@));
                assert forall|j: int| 0 <= j < i implies exists|k2: int|
                    start.len() < k2 < runner.trace().len() && runner.trace()[k2] == range_touch_effect(
                        b@,
                        (#[trigger] entries@[j]).path@,
                    ) && (entries@[j].in_editable_range <==> (runner.reply(k2) matches Some(o)
                        && text_in(o))) by {
                    let k2 = choose|k2: int|
                        start.len() < k2 < before.trace().len() && before.trace()[k2] == range_touch_effect(
                            b@,
                            entries@[j].path@,
                        ) && (entries@[j].in_editable_range <==> (before.reply(k2) matches Some(o)
                            && text_in(o)));
                    assert(runner.trace()[k2] == runner.trace().take(before.trace().len() as int)[k2]);
                    assert(runner.reply(k2) == before.reply(k2));
                }
            }
        }
        entries.push(entry);
        i = i + 1;
    }
    proof {
        lemma_grows_chain(*old(runner), first, *runner);
        assert(runner.reply(start.len() as int) == first.reply(start.len() as int));
    }
    Ok(entries)
}

} // verus!
