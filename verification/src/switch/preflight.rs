//! Untracked files against the target branch: which the target also has (they
//! can be merged) and which collide with a target file as a directory (they cannot).
use vstd::prelude::*;

use crate::host::{grows, lemma_grows_none, lemma_reads_none, reads_only, Effect, Host};

use crate::git::{command_args, push_arg, GitCommand, GitRunner};
use crate::order::str_eq;
use crate::text::{
    bytes_of, bytes_start_with, split_bytes, split_spec, starts_with, starts_with_spec, strip_prefix,
    views,
};

use super::errors::SwitchError;
use super::state::text;

verus! {

broadcast use crate::host::lemma_grows_chain, crate::host::lemma_grows_none, crate::host::lemma_grows_trace,
    crate::host::lemma_grows_reply;

/// The paths of the `? <path>` records of `git status --porcelain=v2 -z`, in
/// order; `None` when one of them is not UTF-8.
pub open spec fn untracked_spec(pieces: Seq<Seq<u8>>) -> Option<Seq<Seq<char>>>
    decreases pieces.len(),
{
    if pieces.len() == 0 {
        Some(Seq::empty())
    } else {
        match untracked_spec(pieces.drop_last()) {
            None => None,
            Some(v) => {
                let p = pieces.last();
                if bytes_start_with(p, seq![63u8, 32u8]) {
                    if vstd::utf8::valid_utf8(p.skip(2)) {
                        Some(v.push(vstd::utf8::decode_utf8(p.skip(2))))
                    } else {
                        None
                    }
                } else {
                    Some(v)
                }
            },
        }
    }
}

/// The untracked paths listed in `status`.
pub fn parse_untracked(status: &[u8]) -> (r: Result<Vec<String>, SwitchError>)
    ensures
        r is Ok <==> untracked_spec(split_spec(status@, 0)) is Some,
        r matches Ok(v) ==> untracked_spec(split_spec(status@, 0)) == Some(v.deep_view()),
        r matches Err(e) ==> e is InvalidState,
{
    let records = split_bytes(status, 0);
    let ghost all = views(records@);
    let mut paths: Vec<String> = Vec::new();
    let mut i: usize = 0;
    let marker: [u8; 2] = [63u8, 32u8];
    assert(marker@ =~= seq![63u8, 32u8]);
    while i < records.len()
        invariant
            i <= records@.len(),
            all == views(records@),
            all == split_spec(status@, 0),
            marker@ == seq![63u8, 32u8],
            untracked_spec(all.take(i as int)) == Some(paths.deep_view()),
        decreases records@.len() - i,
    {
        assert(all.take(i + 1).drop_last() == all.take(i as int));
        assert(all.take(i + 1).last() == records@[i as int]@);
        let record = records[i].as_slice();
        if crate::text::starts_with_bytes(record, marker.as_slice()) {
            let rest = bytes_of(record, 2, record.len());
            assert(rest@ == record@.skip(2));
            match text(rest.as_slice()) {
                Ok(path) => {
                    let ghost before = paths.deep_view();
                    paths.push(path);
                    assert(paths.deep_view() =~= before.push(path@));
                },
                Err(e) => {
                    proof {
                        lemma_untracked_none_stays(all, i as int + 1);
                    }
                    return Err(e);
                },
            }
        }
        i = i + 1;
    }
    assert(all.take(all.len() as int) == all);
    Ok(paths)
}

/// Once a prefix of the records has a bad path, so does every longer prefix.
pub proof fn lemma_untracked_none_stays(all: Seq<Seq<u8>>, n: int)
    requires
        0 <= n <= all.len(),
        untracked_spec(all.take(n)) is None,
    ensures
        untracked_spec(all) is None,
    decreases all.len() - n,
{
    if n < all.len() {
        assert(all.take(n + 1).drop_last() == all.take(n));
        lemma_untracked_none_stays(all, n + 1);
    } else {
        assert(all.take(n) == all);
    }
}

/// The untracked files, however deep, submodules included.
/// The command that lists every untracked file.
pub open spec fn untracked_effect() -> Effect {
    Effect::Run {
        args: seq![
            "status"@,
            "--porcelain=v2"@,
            "-z"@,
            "--untracked-files=all"@,
            "--ignore-submodules=none"@,
        ],
        writes: false,
    }
}

pub(crate) fn read_untracked<R: GitRunner>(runner: &mut Host<R>) -> (r: Result<Vec<String>, SwitchError>)
    ensures
        r matches Err(e) ==> !(e is MissingSavedWork),
        reads_only(old(runner).trace(), final(runner).trace()),
        r matches Err(e) ==> !(e is StalePlan),
        r matches Err(e) ==> e is Git || e is InvalidState,
        final(runner).trace() == old(runner).trace().push(untracked_effect()),
        grows(*old(runner), *final(runner)),
        r matches Ok(v) ==> (final(runner).reply(old(runner).trace().len() as int) matches Some(out) && untracked_spec(split_spec(out, 0)) == Some(
            v.deep_view(),
        )),
{
    let args = command_args(
        &["status", "--porcelain=v2", "-z", "--untracked-files=all", "--ignore-submodules=none"],
    );
    assert(args.deep_view() =~= seq![
        "status"@,
        "--porcelain=v2"@,
        "-z"@,
        "--untracked-files=all"@,
        "--ignore-submodules=none"@,
    ]);
    let output = match runner.run(&GitCommand::read(args)) {
        Ok(o) => o,
        Err(e) => return Err(SwitchError::Git(e)),
    };
    parse_untracked(output.stdout.as_slice())
}

/// One of the two paths is a directory that holds the other.
pub open spec fn overlap_spec(left: Seq<char>, right: Seq<char>) -> bool {
    left != right && ((starts_with_spec(left, right) && left.len() > right.len() && left[right.len()
        as int] == '/') || (starts_with_spec(right, left) && right.len() > left.len()
        && right[left.len() as int] == '/'))
}

/// Neither path is the other, and one lies under the other as under a directory.
pub fn prefix_overlap(left: &str, right: &str) -> (r: bool)
    ensures
        r == overlap_spec(left@, right@),
{
    proof {
        reveal_strlit("/");
    }
    if str_eq(left, right) {
        return false;
    }
    let a = match strip_prefix(left, right) {
        Some(suffix) => {
            let b = starts_with(suffix.as_str(), "/");
            proof {
                assert(left@ =~= right@ + suffix@);
                if b {
                    assert(suffix@.take(1)[0] == suffix@[0]);
                    assert(left@[right@.len() as int] == suffix@[0]);
                }
                if left@.len() > right@.len() && left@[right@.len() as int] == '/' {
                    assert(suffix@[0] == '/');
                    assert(suffix@.take(1) =~= "/"@);
                }
            }
            b
        },
        None => false,
    };
    if a {
        return true;
    }
    match strip_prefix(right, left) {
        Some(suffix) => {
            let b = starts_with(suffix.as_str(), "/");
            proof {
                assert(right@ =~= left@ + suffix@);
                if b {
                    assert(suffix@.take(1)[0] == suffix@[0]);
                    assert(right@[left@.len() as int] == suffix@[0]);
                }
                if right@.len() > left@.len() && right@[left@.len() as int] == '/' {
                    assert(suffix@[0] == '/');
                    assert(suffix@.take(1) =~= "/"@);
                }
            }
            b
        },
        None => false,
    }
}

/// How the first target that meets `path` treats it: the same file (`1`), a
/// directory clash (`2`), or no target meets it (`0`).
pub open spec fn meeting(path: Seq<char>, targets: Seq<Seq<char>>) -> int
    decreases targets.len(),
{
    if targets.len() == 0 {
        0
    } else if path == targets[0] {
        1
    } else if overlap_spec(path, targets[0]) {
        2
    } else {
        meeting(path, targets.drop_first())
    }
}

/// The untracked paths that some target has as the same file, and those that
/// clash with a target as a directory, each in order.
pub open spec fn classify_spec(untracked: Seq<Seq<char>>, targets: Seq<Seq<char>>) -> (
    Seq<Seq<char>>,
    Seq<Seq<char>>,
)
    decreases untracked.len(),
{
    if untracked.len() == 0 {
        (Seq::empty(), Seq::empty())
    } else {
        let (m, h) = classify_spec(untracked.drop_last(), targets);
        let p = untracked.last();
        if meeting(p, targets) == 1 {
            (m.push(p), h)
        } else if meeting(p, targets) == 2 {
            (m, h.push(p))
        } else {
            (m, h)
        }
    }
}

fn meets(path: &str, targets: &Vec<String>) -> (r: u8)
    ensures
        r as int == meeting(path@, targets.deep_view()),
{
    let ghost all = targets.deep_view();
    let mut i: usize = 0;
    assert(all.skip(0) == all);
    while i < targets.len()
        invariant
            i <= targets@.len(),
            all == targets.deep_view(),
            meeting(path@, all) == meeting(path@, all.skip(i as int)),
        decreases targets@.len() - i,
    {
        assert(all.skip(i as int)[0] == targets@[i as int]@);
        assert(all.skip(i as int).drop_first() == all.skip(i + 1));
        if str_eq(path, targets[i].as_str()) {
            return 1;
        }
        if prefix_overlap(path, targets[i].as_str()) {
            return 2;
        }
        i = i + 1;
    }
    0
}

/// Splits the untracked paths into those the target has too and those that clash.
pub fn classify_conflicts(untracked: &Vec<String>, targets: &Vec<String>) -> (r: (
    Vec<String>,
    Vec<String>,
))
    ensures
        (r.0.deep_view(), r.1.deep_view()) == classify_spec(untracked.deep_view(), targets.deep_view()),
{
    let mut mergeable: Vec<String> = Vec::new();
    let mut hard: Vec<String> = Vec::new();
    let mut i: usize = 0;
    while i < untracked.len()
        invariant
            i <= untracked@.len(),
            (mergeable.deep_view(), hard.deep_view()) == classify_spec(
                untracked.deep_view().take(i as int),
                targets.deep_view(),
            ),
        decreases untracked@.len() - i,
    {
        assert(untracked.deep_view().take(i + 1).drop_last() == untracked.deep_view().take(i as int));
        assert(untracked.deep_view().take(i + 1).last() == untracked@[i as int]@);
        let kind = meets(untracked[i].as_str(), targets);
        if kind == 1 {
            let ghost before = mergeable.deep_view();
            mergeable.push(untracked[i].clone());
            assert(mergeable.deep_view() =~= before.push(untracked@[i as int]@));
        } else if kind == 2 {
            let ghost before = hard.deep_view();
            hard.push(untracked[i].clone());
            assert(hard.deep_view() =~= before.push(untracked@[i as int]@));
        }
        i = i + 1;
    }
    assert(untracked.deep_view().take(untracked@.len() as int) == untracked.deep_view());
    (mergeable, hard)
}

/// Classifies the untracked paths against the files of `target_commitish`;
/// nothing is read when there are no untracked paths.
pub(crate) fn classify<R: GitRunner>(runner: &mut Host<R>, target_commitish: &str, untracked: &Vec<String>) -> (r: Result<
    (Vec<String>, Vec<String>),
    SwitchError,
>)
    ensures
        r matches Err(e) ==> !(e is MissingSavedWork),
        grows(*old(runner), *final(runner)),
        reads_only(old(runner).trace(), final(runner).trace()),
        r matches Err(e) ==> !(e is StalePlan),
        untracked@.len() == 0 ==> (r matches Ok(p) && p.0@.len() == 0 && p.1@.len() == 0),
        r matches Ok(p) ==> exists|targets: Seq<Seq<char>>|
            (p.0.deep_view(), p.1.deep_view()) == #[trigger] classify_spec(
                untracked.deep_view(),
                targets,
            ) && (untracked@.len() > 0 ==> targets_listed(
                *final(runner),
                old(runner).trace().len() as int,
                target_commitish@,
                targets,
            )),
        r matches Err(e) ==> e is Git || e is InvalidState,
{
    proof {
        lemma_reads_none(runner.trace());
        lemma_grows_none(*runner);
    }
    if untracked.len() == 0 {
        let r: (Vec<String>, Vec<String>) = (Vec::new(), Vec::new());
        assert((r.0.deep_view(), r.1.deep_view()) == classify_spec(
            untracked.deep_view(),
            Seq::<Seq<char>>::empty(),
        ));
        return Ok(r);
    }
    let targets = match read_target_paths(runner, target_commitish) {
        Ok(t) => t,
        Err(e) => return Err(e),
    };
    let r = classify_conflicts(untracked, &targets);
    assert((r.0.deep_view(), r.1.deep_view()) == classify_spec(
        untracked.deep_view(),
        targets.deep_view(),
    ));
    Ok(r)
}

/// The non-empty NUL-separated paths of `listing`, in order; `None` when one is not UTF-8.
pub open spec fn target_paths_spec(pieces: Seq<Seq<u8>>) -> Option<Seq<Seq<char>>>
    decreases pieces.len(),
{
    if pieces.len() == 0 {
        Some(Seq::empty())
    } else {
        match target_paths_spec(pieces.drop_last()) {
            None => None,
            Some(v) => {
                let p = pieces.last();
                if p.len() == 0 {
                    Some(v)
                } else if vstd::utf8::valid_utf8(p) {
                    Some(v.push(vstd::utf8::decode_utf8(p)))
                } else {
                    None
                }
            },
        }
    }
}

/// Once a prefix of the pieces has a bad path, so does every longer prefix.
pub proof fn lemma_target_none_stays(all: Seq<Seq<u8>>, n: int)
    requires
        0 <= n <= all.len(),
        target_paths_spec(all.take(n)) is None,
    ensures
        target_paths_spec(all) is None,
    decreases all.len() - n,
{
    if n < all.len() {
        assert(all.take(n + 1).drop_last() == all.take(n));
        lemma_target_none_stays(all, n + 1);
    } else {
        assert(all.take(n) == all);
    }
}

/// The paths of a `git ls-tree -r --name-only -z` listing. Git lists each path
/// of a tree once, in its own sorted order.
pub fn parse_target_paths(listing: &[u8]) -> (r: Result<Vec<String>, SwitchError>)
    ensures
        r is Ok <==> target_paths_spec(split_spec(listing@, 0)) is Some,
        r matches Ok(v) ==> target_paths_spec(split_spec(listing@, 0)) == Some(v.deep_view()),
        r matches Err(e) ==> e is InvalidState,
{
    let pieces = split_bytes(listing, 0);
    let ghost all = views(pieces@);
    let mut paths: Vec<String> = Vec::new();
    let mut i: usize = 0;
    while i < pieces.len()
        invariant
            i <= pieces@.len(),
            all == views(pieces@),
            all == split_spec(listing@, 0),
            target_paths_spec(all.take(i as int)) == Some(paths.deep_view()),
        decreases pieces@.len() - i,
    {
        assert(all.take(i + 1).drop_last() == all.take(i as int));
        assert(all.take(i + 1).last() == pieces@[i as int]@);
        if pieces[i].len() > 0 {
            match text(pieces[i].as_slice()) {
                Ok(path) => {
                    let ghost before = paths.deep_view();
                    paths.push(path);
                    assert(paths.deep_view() =~= before.push(path@));
                },
                Err(e) => {
                    proof {
                        lemma_target_none_stays(all, i as int + 1);
                    }
                    return Err(e);
                },
            }
        }
        i = i + 1;
    }
    assert(all.take(all.len() as int) == all);
    Ok(paths)
}

/// `git ls-tree -r --name-only -z --full-tree <tree>`: every file of `tree`.
pub open spec fn tree_names_effect(tree: Seq<char>) -> Effect {
    Effect::Run {
        args: seq!["ls-tree"@, "-r"@, "--name-only"@, "-z"@, "--full-tree"@, tree],
        writes: false,
    }
}

/// From index `from` of `h` on, Git listed the files of `tree` as `targets`.
pub open spec fn targets_listed<R: GitRunner>(h: Host<R>, from: int, tree: Seq<char>, targets: Seq<Seq<char>>) -> bool {
    exists|k: int|
        0 <= from <= k < h.trace().len() && #[trigger] h.trace()[k] == tree_names_effect(tree) && (h.reply(k) matches Some(
            out,
        ) && target_paths_spec(split_spec(out, 0)) == Some(targets))
}

/// What Git listed stays listed as the host grows, and from any earlier index.
pub proof fn lemma_targets_listed_grows<R: GitRunner>(
    h: Host<R>,
    h2: Host<R>,
    from: int,
    later: int,
    tree: Seq<char>,
    targets: Seq<Seq<char>>,
)
    requires
        targets_listed(h, later, tree, targets),
        grows(h, h2),
        0 <= from <= later,
    ensures
        targets_listed(h2, from, tree, targets),
{
    let k = choose|k: int|
        0 <= later <= k < h.trace().len() && #[trigger] h.trace()[k] == tree_names_effect(tree) && (h.reply(k) matches Some(
            out,
        ) && target_paths_spec(split_spec(out, 0)) == Some(targets));
    assert(h2.trace()[k] == h2.trace().take(h.trace().len() as int)[k]);
    assert(h2.reply(k) == h.reply(k));
}

fn read_target_paths<R: GitRunner>(runner: &mut Host<R>, target_commitish: &str) -> (r: Result<
    Vec<String>,
    SwitchError,
>)
    ensures
        r matches Err(e) ==> !(e is MissingSavedWork),
        grows(*old(runner), *final(runner)),
        reads_only(old(runner).trace(), final(runner).trace()),
        r matches Err(e) ==> !(e is StalePlan),
        r matches Err(e) ==> e is Git || e is InvalidState,
        r matches Ok(v) ==> targets_listed(*final(runner), old(runner).trace().len() as int, target_commitish@, v.deep_view()),
{
    let mut values = command_args(&["ls-tree", "-r", "--name-only", "-z", "--full-tree"]);
    push_arg(&mut values, target_commitish);
    assert(values.deep_view() =~= seq!["ls-tree"@, "-r"@, "--name-only"@, "-z"@, "--full-tree"@, target_commitish@]);
    let ghost k = runner.trace().len() as int;
    let output = match runner.run(&GitCommand::read(values)) {
        Ok(o) => o,
        Err(e) => return Err(SwitchError::Git(e)),
    };
    let r = parse_target_paths(output.stdout.as_slice());
    proof {
        if r is Ok {
            assert(runner.trace()[k] == tree_names_effect(target_commitish@));
            assert(runner.reply(k) == Some(output.stdout@));
        }
    }
    r
}

} // verus!

verus! {

/// A path never clashes with itself, and a clash goes both ways.
pub proof fn law_overlap_symmetric(left: Seq<char>, right: Seq<char>)
    ensures
        !overlap_spec(left, left),
        overlap_spec(left, right) == overlap_spec(right, left),
{
}

/// Every untracked path is classified at most once: the overlapping and the
/// clashing paths are untracked paths, and none is both.
pub proof fn law_classify_partitions(untracked: Seq<Seq<char>>, targets: Seq<Seq<char>>)
    ensures
        ({
            let (m, h) = classify_spec(untracked, targets);
            &&& forall|p: Seq<char>| m.contains(p) ==> untracked.contains(p) && meeting(p, targets) == 1
            &&& forall|p: Seq<char>| h.contains(p) ==> untracked.contains(p) && meeting(p, targets) == 2
            &&& forall|p: Seq<char>| !(m.contains(p) && h.contains(p))
        }),
    decreases untracked.len(),
{
    if untracked.len() > 0 {
        let rest = untracked.drop_last();
        law_classify_partitions(rest, targets);
        let (m0, h0) = classify_spec(rest, targets);
        let (m, h) = classify_spec(untracked, targets);
        let last = untracked.last();
        assert forall|p: Seq<char>| m.contains(p) implies untracked.contains(p) && meeting(p, targets) == 1 by {
            let k = choose|k: int| 0 <= k < m.len() && m[k] == p;
            if k < m0.len() {
                assert(m0[k] == p);
                assert(m0.contains(p));
                let j = choose|j: int| 0 <= j < rest.len() && rest[j] == p;
                assert(untracked[j] == p);
            } else {
                assert(p == last);
                assert(untracked[untracked.len() - 1] == p);
            }
        }
        assert forall|p: Seq<char>| h.contains(p) implies untracked.contains(p) && meeting(p, targets) == 2 by {
            let k = choose|k: int| 0 <= k < h.len() && h[k] == p;
            if k < h0.len() {
                assert(h0[k] == p);
                assert(h0.contains(p));
                let j = choose|j: int| 0 <= j < rest.len() && rest[j] == p;
                assert(untracked[j] == p);
            } else {
                assert(p == last);
                assert(untracked[untracked.len() - 1] == p);
            }
        }
    }
}

/// `inner` lies below the directory `dir`, at any depth.
pub open spec fn under_dir(inner: Seq<char>, dir: Seq<char>) -> bool {
    inner.len() > dir.len() && inner.take(dir.len() as int) == dir && inner[dir.len() as int] == '/'
}

proof fn lemma_overlap_is_nesting(p: Seq<char>, t: Seq<char>)
    ensures
        overlap_spec(p, t) <==> p != t && (under_dir(p, t) || under_dir(t, p)),
{
}

/// The first target that is `p` or nests with it decides how `p` meets the targets.
proof fn lemma_meeting_first(p: Seq<char>, targets: Seq<Seq<char>>, j: int)
    requires
        0 <= j < targets.len(),
        p == targets[j] || under_dir(targets[j], p) || under_dir(p, targets[j]),
        forall|k: int|
            0 <= k < j ==> !(p == #[trigger] targets[k] || under_dir(targets[k], p) || under_dir(p, targets[k])),
    ensures
        meeting(p, targets) == (if p == targets[j] { 1int } else { 2int }),
    decreases j,
{
    lemma_overlap_is_nesting(p, targets[0]);
    if j > 0 {
        assert(!(p == targets[0] || under_dir(targets[0], p) || under_dir(p, targets[0])));
        let rest = targets.drop_first();
        assert forall|k: int|
            0 <= k < j - 1 implies !(p == #[trigger] rest[k] || under_dir(rest[k], p) || under_dir(p, rest[k])) by {
            assert(rest[k] == targets[k + 1]);
        }
        assert(rest[j - 1] == targets[j]);
        lemma_meeting_first(p, rest, j - 1);
    }
}

/// No target is `p` or nests with it: `p` meets no target.
proof fn lemma_meeting_none(p: Seq<char>, targets: Seq<Seq<char>>)
    requires
        forall|k: int|
            0 <= k < targets.len() ==> !(p == #[trigger] targets[k] || under_dir(targets[k], p) || under_dir(
                p,
                targets[k],
            )),
    ensures
        meeting(p, targets) == 0,
    decreases targets.len(),
{
    if targets.len() > 0 {
        lemma_overlap_is_nesting(p, targets[0]);
        assert(!(p == targets[0] || under_dir(targets[0], p) || under_dir(p, targets[0])));
        let rest = targets.drop_first();
        assert forall|k: int|
            0 <= k < rest.len() implies !(p == #[trigger] rest[k] || under_dir(rest[k], p) || under_dir(p, rest[k])) by {
            assert(rest[k] == targets[k + 1]);
        }
        lemma_meeting_none(p, rest);
    }
}

/// Every untracked path is classified by how it meets the targets.
proof fn lemma_classified(untracked: Seq<Seq<char>>, targets: Seq<Seq<char>>, p: Seq<char>)
    requires
        untracked.contains(p),
    ensures
        meeting(p, targets) == 1 ==> classify_spec(untracked, targets).0.contains(p),
        meeting(p, targets) == 2 ==> classify_spec(untracked, targets).1.contains(p),
    decreases untracked.len(),
{
    let rest = untracked.drop_last();
    let (m0, h0) = classify_spec(rest, targets);
    let (m, h) = classify_spec(untracked, targets);
    if p == untracked.last() {
        if meeting(p, targets) == 1 {
            assert(m[m.len() - 1] == p);
        } else if meeting(p, targets) == 2 {
            assert(h[h.len() - 1] == p);
        }
    } else {
        let i = choose|i: int| 0 <= i < untracked.len() && untracked[i] == p;
        assert(rest[i] == p);
        lemma_classified(rest, targets, p);
        if meeting(p, targets) == 1 {
            let k = choose|k: int| 0 <= k < m0.len() && m0[k] == p;
            assert(m[k] == p);
        } else if meeting(p, targets) == 2 {
            let k = choose|k: int| 0 <= k < h0.len() && h0[k] == p;
            assert(h[k] == p);
        }
    }
}

/// An untracked path is sorted by the first target that is the same path or
/// nests with it as a directory: the same path makes it mergeable; a target
/// below it, or one it lies below, makes it a hard conflict.
pub proof fn law_classify_first_meeting(untracked: Seq<Seq<char>>, targets: Seq<Seq<char>>, p: Seq<char>, j: int)
    requires
        untracked.contains(p),
        0 <= j < targets.len(),
        p == targets[j] || under_dir(targets[j], p) || under_dir(p, targets[j]),
        forall|k: int|
            0 <= k < j ==> !(p == #[trigger] targets[k] || under_dir(targets[k], p) || under_dir(p, targets[k])),
    ensures
        p == targets[j] ==> classify_spec(untracked, targets).0.contains(p) && !classify_spec(untracked, targets).1.contains(p),
        p != targets[j] ==> classify_spec(untracked, targets).1.contains(p) && !classify_spec(untracked, targets).0.contains(p),
{
    lemma_meeting_first(p, targets, j);
    lemma_classified(untracked, targets, p);
    law_classify_partitions(untracked, targets);
}

/// An untracked path that is no target and nests with none is in neither list.
pub proof fn law_classify_untouched(untracked: Seq<Seq<char>>, targets: Seq<Seq<char>>, p: Seq<char>)
    requires
        forall|k: int|
            0 <= k < targets.len() ==> !(p == #[trigger] targets[k] || under_dir(targets[k], p) || under_dir(
                p,
                targets[k],
            )),
    ensures
        !classify_spec(untracked, targets).0.contains(p),
        !classify_spec(untracked, targets).1.contains(p),
{
    lemma_meeting_none(p, targets);
    law_classify_partitions(untracked, targets);
}

} // verus!
