//! Which changed files a split carries: the selection, matched exactly or as
//! directory prefixes, plus each matched file's Unity `.meta` partner.
use vstd::prelude::*;

use crate::host::grows;

use crate::host::{Effect, Host};

use crate::git::{command_args, push_arg, GitCommand, GitRunner};
use crate::order::{compare_str, lemma_lt_transitive, seq_lt, strictly_sorted};
use crate::rewrite::model::valid_name;
use crate::rewrite::{ObjectId, RepoPath};
use crate::text::{
    chars_of, concat, ends_with, ends_with_spec, nonempty_spec, split_nonempty, split_spec,
    starts_with, starts_with_spec, string_of, views,
};

use super::errors::SplitError;

verus! {

broadcast use crate::host::lemma_grows_chain, crate::host::lemma_grows_none, crate::host::lemma_grows_trace,
    crate::host::lemma_grows_reply;

pub struct Range<'a> {
    pub from: &'a ObjectId,
    pub to: &'a ObjectId,
}

pub struct Selection {
    pub selected: Vec<RepoPath>,
    /// Selection plus companions: the exact files the split will carry.
    pub carried: Vec<RepoPath>,
    pub companions: Vec<RepoPath>,
}

pub open spec fn meta_suffix() -> Seq<char> {
    seq!['.', 'm', 'e', 't', 'a']
}

/// `s` without trailing `/`.
pub open spec fn trim_slashes(s: Seq<char>) -> Seq<char>
    decreases s.len(),
{
    if s.len() > 0 && s.last() == '/' {
        trim_slashes(s.drop_last())
    } else {
        s
    }
}

/// `choice` selects `value` exactly or as a directory that contains it.
pub open spec fn covers_spec(choice: Seq<char>, value: Seq<char>) -> bool {
    value == choice || starts_with_spec(value, choice + seq!['/'])
}

/// The Unity partner of a path: the asset of a `.meta` file, or the `.meta` of an asset.
pub open spec fn partner_spec(value: Seq<char>) -> Seq<char> {
    if ends_with_spec(value, meta_suffix()) && value.len() > 5 {
        value.take(value.len() - 5)
    } else {
        value + meta_suffix()
    }
}

/// The files a split carries: the matched ones and their companions.
pub open spec fn carried_spec(selected: Seq<Seq<char>>, changed: Seq<Seq<char>>) -> Set<Seq<char>> {
    matched_spec(selected, changed).to_set() + companions_spec(
        matched_spec(selected, changed),
        changed,
    ).to_set()
}

pub open spec fn covered(selected: Seq<Seq<char>>, value: Seq<char>) -> bool {
    exists|i: int| 0 <= i < selected.len() && covers_spec(#[trigger] selected[i], value)
}

/// The changed paths some selection covers, in order.
pub open spec fn matched_spec(selected: Seq<Seq<char>>, changed: Seq<Seq<char>>) -> Seq<Seq<char>>
    decreases changed.len(),
{
    if changed.len() == 0 {
        Seq::empty()
    } else if covered(selected, changed.last()) {
        matched_spec(selected, changed.drop_last()).push(changed.last())
    } else {
        matched_spec(selected, changed.drop_last())
    }
}

/// The changed paths not matched whose partner is matched, in order.
pub open spec fn companions_spec(matched: Seq<Seq<char>>, changed: Seq<Seq<char>>) -> Seq<
    Seq<char>,
>
    decreases changed.len(),
{
    if changed.len() == 0 {
        Seq::empty()
    } else if !matched.contains(changed.last()) && matched.contains(partner_spec(changed.last())) {
        companions_spec(matched, changed.drop_last()).push(changed.last())
    } else {
        companions_spec(matched, changed.drop_last())
    }
}

pub proof fn lemma_matched_members(selected: Seq<Seq<char>>, changed: Seq<Seq<char>>, p: Seq<char>)
    ensures
        matched_spec(selected, changed).contains(p) <==> changed.contains(p) && covered(
            selected,
            p,
        ),
    decreases changed.len(),
{
    if changed.len() > 0 {
        lemma_matched_members(selected, changed.drop_last(), p);
        let m = matched_spec(selected, changed.drop_last());
        assert(changed =~= changed.drop_last().push(changed.last()));
        if changed.drop_last().contains(p) {
            let i = choose|i: int| 0 <= i < changed.drop_last().len() && changed.drop_last()[i] == p;
            assert(changed[i] == p);
        }
        if changed.contains(p) && p != changed.last() {
            let i = choose|i: int| 0 <= i < changed.len() && changed[i] == p;
            assert(changed.drop_last()[i] == p);
        }
        if covered(selected, changed.last()) {
            let mp = m.push(changed.last());
            if mp.contains(p) && p != changed.last() {
                let i = choose|i: int| 0 <= i < mp.len() && mp[i] == p;
                assert(m[i] == p);
            }
            if m.contains(p) {
                let i = choose|i: int| 0 <= i < m.len() && m[i] == p;
                assert(mp[i] == p);
            }
            if p == changed.last() {
                assert(mp[m.len() as int] == p);
            }
        }
    }
}

pub proof fn lemma_companion_members(matched: Seq<Seq<char>>, changed: Seq<Seq<char>>, p: Seq<char>)
    ensures
        companions_spec(matched, changed).contains(p) <==> changed.contains(p) && !matched.contains(
            p,
        ) && matched.contains(partner_spec(p)),
    decreases changed.len(),
{
    if changed.len() > 0 {
        lemma_companion_members(matched, changed.drop_last(), p);
        let m = companions_spec(matched, changed.drop_last());
        let c = changed.last();
        if changed.drop_last().contains(p) {
            let i = choose|i: int| 0 <= i < changed.drop_last().len() && changed.drop_last()[i] == p;
            assert(changed[i] == p);
        }
        if changed.contains(p) && p != c {
            let i = choose|i: int| 0 <= i < changed.len() && changed[i] == p;
            assert(changed.drop_last()[i] == p);
        }
        if !matched.contains(c) && matched.contains(partner_spec(c)) {
            let mp = m.push(c);
            if mp.contains(p) && p != c {
                let i = choose|i: int| 0 <= i < mp.len() && mp[i] == p;
                assert(m[i] == p);
            }
            if m.contains(p) {
                let i = choose|i: int| 0 <= i < m.len() && m[i] == p;
                assert(mp[i] == p);
            }
            if p == c {
                assert(mp[m.len() as int] == p);
            }
        }
        if p == c {
            assert(changed[changed.len() - 1] == p);
        }
    }
}

/// A Unity `.meta` file is meaningless without its asset and vice versa: every
/// changed file whose partner is matched is carried, and every companion's
/// partner is matched.
pub proof fn lemma_partners_carried(selected: Seq<Seq<char>>, changed: Seq<Seq<char>>, p: Seq<char>)
    ensures
        ({
            let matched = matched_spec(selected, changed);
            let companions = companions_spec(matched, changed);
            &&& changed.contains(p) && matched.contains(partner_spec(p)) ==> matched.contains(p)
                || companions.contains(p)
            &&& companions.contains(p) ==> matched.contains(partner_spec(p)) && !matched.contains(p)
        }),
{
    let matched = matched_spec(selected, changed);
    lemma_companion_members(matched, changed, p);
}

/// Where `x` stands, or would stand, in the strictly sorted `v`.
fn sorted_position(v: &Vec<RepoPath>, x: &str) -> (r: (usize, bool))
    requires
        strictly_sorted(v.deep_view()),
    ensures
        r.0 <= v@.len(),
        r.1 ==> r.0 < v@.len() && v.deep_view()[r.0 as int] == x@,
        forall|j: int| 0 <= j < r.0 ==> seq_lt(#[trigger] v.deep_view()[j], x@),
        forall|j: int|
            r.0 <= j < v@.len() && !(r.1 && j == r.0) ==> seq_lt(x@, #[trigger] v.deep_view()[j]),
{
    let ghost s = v.deep_view();
    let mut i: usize = 0;
    while i < v.len()
        invariant
            i <= v@.len(),
            s == v.deep_view(),
            strictly_sorted(s),
            forall|j: int| 0 <= j < i ==> seq_lt(#[trigger] s[j], x@),
        decreases v@.len() - i,
    {
        let c = compare_str(v[i].as_str(), x);
        assert(s[i as int] == v@[i as int]@);
        if c == 0 {
            proof {
                assert forall|j: int| i < j < s.len() implies seq_lt(x@, #[trigger] s[j]) by {
                    assert(seq_lt(s[i as int], s[j]));
                }
            }
            return (i, true);
        }
        if c > 0 {
            proof {
                assert forall|j: int| i <= j < s.len() implies seq_lt(x@, #[trigger] s[j]) by {
                    if j > i {
                        assert(seq_lt(s[i as int], s[j]));
                        lemma_lt_transitive(x@, s[i as int], s[j]);
                    }
                }
            }
            return (i, false);
        }
        i = i + 1;
    }
    (i, false)
}

/// Inserts `x` into the strictly sorted `v`, unless it is already there.
pub fn insert_sorted(v: &mut Vec<RepoPath>, x: RepoPath)
    requires
        strictly_sorted(old(v).deep_view()),
    ensures
        strictly_sorted(final(v).deep_view()),
        final(v).deep_view().to_set() == old(v).deep_view().to_set().insert(x@),
{
    let ghost s = v.deep_view();
    let ghost xv = x@;
    let (i, found) = sorted_position(v, x.as_str());
    if found {
        assert(s.to_set().insert(xv) =~= s.to_set());
        return;
    }
    v.insert(i, x);
    let ghost t = v.deep_view();
    proof {
        assert(t =~= s.take(i as int).push(xv) + s.skip(i as int));
        assert forall|a: int, b: int| 0 <= a < b < t.len() implies seq_lt(
            #[trigger] t[a],
            #[trigger] t[b],
        ) by {
            if a < i && b > i {
                lemma_lt_transitive(s[a], xv, s[b - 1]);
            } else if a > i {
                assert(seq_lt(s[a - 1], s[b - 1]));
            } else if b < i {
                assert(seq_lt(s[a], s[b]));
            }
        }
        assert forall|k: Seq<char>| #![auto] t.to_set().contains(k) == s.to_set().insert(xv).contains(k) by {
            if t.contains(k) {
                let j = choose|j: int| 0 <= j < t.len() && t[j] == k;
                if j < i {
                    assert(s[j] == k);
                } else if j > i {
                    assert(s[j - 1] == k);
                }
            }
            if s.contains(k) {
                let j = choose|j: int| 0 <= j < s.len() && s[j] == k;
                if j < i {
                    assert(t[j] == k);
                } else {
                    assert(t[j + 1] == k);
                }
            }
            if k == xv {
                assert(t[i as int] == k);
            }
        }
        assert(t.to_set() =~= s.to_set().insert(xv));
    }
}

/// The distinct paths of `v` in ascending order: `sort` then `dedup`.
pub fn sort_dedup(v: Vec<RepoPath>) -> (r: Vec<RepoPath>)
    ensures
        strictly_sorted(r.deep_view()),
        r.deep_view().to_set() == v.deep_view().to_set(),
{
    let ghost all = v.deep_view();
    let mut r: Vec<RepoPath> = Vec::new();
    let mut rest = v;
    let ghost mut done: int = 0;
    assert(r.deep_view().to_set() =~= all.take(0).to_set());
    assert(all.skip(0) == all);
    while rest.len() > 0
        invariant
            0 <= done,
            all.len() == done + rest@.len(),
            rest.deep_view() == all.skip(done),
            strictly_sorted(r.deep_view()),
            r.deep_view().to_set() == all.take(done).to_set(),
        decreases rest@.len(),
    {
        let ghost before = rest@;
        let ghost before_deep = rest.deep_view();
        let x = rest.remove(0);
        proof {
            assert forall|k: int| 0 <= k < rest@.len() implies #[trigger] rest.deep_view()[k] == all.skip(done + 1)[k] by {
                assert(rest@[k] == before[k + 1]);
                assert(rest.deep_view()[k] == rest@[k].deep_view());
                assert(before_deep[k + 1] == before[k + 1].deep_view());
                assert(all.skip(done)[k + 1] == all.skip(done + 1)[k]);
            }
            assert(all.skip(done)[0] == x@);
            assert(all.take(done + 1) =~= all.take(done).push(x@));
            all.take(done).lemma_push_to_set_commute(x@);
        }
        insert_sorted(&mut r, x);
        proof {
            done = done + 1;
            assert(rest.deep_view() =~= all.skip(done));
        }
    }
    assert(all.take(done) == all);
    r
}

/// `value` without trailing `/`.
fn trim_slashes_exec(value: &str) -> (r: String)
    ensures
        r@ == trim_slashes(value@),
{
    let v = chars_of(value);
    let mut end = v.len();
    assert(v@.take(end as int) == v@);
    while end > 0 && v[end - 1] == '/'
        invariant
            end <= v@.len(),
            v@ == value@,
            trim_slashes(value@) == trim_slashes(v@.take(end as int)),
        decreases end,
    {
        assert(v@.take(end as int).drop_last() == v@.take(end - 1));
        end = end - 1;
    }
    string_of(&v, 0, end)
}

/// Every requested path, trailing `/` removed, is a valid path.
pub open spec fn trimmed_valid(paths: Seq<Seq<char>>) -> bool {
    forall|i: int| 0 <= i < paths.len() ==> valid_name(trim_slashes(#[trigger] paths[i]))
}

pub open spec fn trimmed_all(paths: Seq<Seq<char>>) -> Seq<Seq<char>> {
    Seq::new(paths.len(), |i: int| trim_slashes(paths[i]))
}

/// The requested paths without trailing `/`, sorted, without repeats.
pub fn normalize(paths: Vec<RepoPath>) -> (r: Result<Vec<RepoPath>, SplitError>)
    ensures
        r is Ok <==> trimmed_valid(paths.deep_view()) && paths@.len() > 0,
        trimmed_valid(paths.deep_view()) && paths@.len() == 0 ==> r matches Err(
            SplitError::EmptySelection,
        ),
        !trimmed_valid(paths.deep_view()) ==> r matches Err(SplitError::InvalidState(_)),
        r matches Ok(v) ==> strictly_sorted(v.deep_view()) && v.deep_view().to_set() == trimmed_all(
            paths.deep_view(),
        ).to_set() && v@.len() > 0,
{
    let ghost all = paths.deep_view();
    let mut values: Vec<RepoPath> = Vec::new();
    let mut i: usize = 0;
    while i < paths.len()
        invariant
            i <= paths@.len(),
            all == paths.deep_view(),
            values.deep_view() == trimmed_all(all.take(i as int)),
            forall|j: int| 0 <= j < i ==> valid_name(trim_slashes(#[trigger] all[j])),
        decreases paths@.len() - i,
    {
        let trimmed = trim_slashes_exec(paths[i].as_str());
        match RepoPath::new(trimmed) {
            Ok(p) => {
                let ghost before = values.deep_view();
                values.push(p);
                assert(values.deep_view() =~= before.push(trim_slashes(all[i as int])));
                assert(values.deep_view() =~= trimmed_all(all.take(i + 1)));
            },
            Err(message) => {
                assert(!valid_name(trim_slashes(all[i as int])));
                return Err(SplitError::InvalidState(message));
            },
        }
        i = i + 1;
    }
    assert(all.take(all.len() as int) == all);
    if values.len() == 0 {
        return Err(SplitError::EmptySelection);
    }
    let ghost first = values.deep_view()[0];
    assert(values.deep_view().to_set().contains(first));
    let sorted = sort_dedup(values);
    proof {
        assert(sorted.deep_view().to_set().contains(first));
        assert(sorted.deep_view().contains(first));
    }
    Ok(sorted)
}

/// Whether `choice` selects `path`.
pub fn covers(choice: &RepoPath, path: &RepoPath) -> (r: bool)
    ensures
        r == covers_spec(choice@, path@),
{
    if path.same(choice) {
        return true;
    }
    let prefix = concat(choice.as_str(), "/");
    proof {
        reveal_strlit("/");
        assert("/"@ =~= seq!['/']);
        assert(prefix@ == choice@ + seq!['/']);
    }
    starts_with(path.as_str(), prefix.as_str())
}

/// The Unity partner of `path`.
pub fn partner(path: &RepoPath) -> (r: String)
    ensures
        r@ == partner_spec(path@),
{
    proof {
        reveal_strlit(".meta");
        assert(".meta"@ =~= meta_suffix());
    }
    let value = path.as_str();
    if ends_with(value, ".meta") {
        let v = chars_of(value);
        if v.len() > 5 {
            return string_of(&v, 0, v.len() - 5);
        }
    }
    concat(value, ".meta")
}

fn covered_by_any(selected: &Vec<RepoPath>, path: &RepoPath) -> (r: bool)
    ensures
        r == covered(selected.deep_view(), path@),
{
    let mut i: usize = 0;
    while i < selected.len()
        invariant
            i <= selected@.len(),
            forall|j: int| 0 <= j < i ==> !covers_spec(#[trigger] selected.deep_view()[j], path@),
        decreases selected@.len() - i,
    {
        if covers(&selected[i], path) {
            assert(covers_spec(selected.deep_view()[i as int], path@));
            return true;
        }
        i = i + 1;
    }
    false
}

/// Changed files covered by the selection, either exactly or as a directory prefix.
pub fn matched(selected: &Vec<RepoPath>, changed: &Vec<RepoPath>) -> (r: Vec<RepoPath>)
    ensures
        r.deep_view() == matched_spec(selected.deep_view(), changed.deep_view()),
{
    let mut r: Vec<RepoPath> = Vec::new();
    let mut i: usize = 0;
    while i < changed.len()
        invariant
            i <= changed@.len(),
            r.deep_view() == matched_spec(selected.deep_view(), changed.deep_view().take(i as int)),
        decreases changed@.len() - i,
    {
        assert(changed.deep_view().take(i + 1).drop_last() == changed.deep_view().take(i as int));
        if covered_by_any(selected, &changed[i]) {
            let ghost before = r.deep_view();
            r.push(changed[i].clone());
            assert(r.deep_view() =~= before.push(changed@[i as int]@));
        }
        i = i + 1;
    }
    assert(changed.deep_view().take(changed@.len() as int) == changed.deep_view());
    r
}

fn contains_path(v: &Vec<RepoPath>, value: &str) -> (r: bool)
    ensures
        r == v.deep_view().contains(value@),
{
    let mut i: usize = 0;
    while i < v.len()
        invariant
            i <= v@.len(),
            forall|j: int| 0 <= j < i ==> #[trigger] v.deep_view()[j] != value@,
        decreases v@.len() - i,
    {
        if crate::order::str_eq(v[i].as_str(), value) {
            assert(v.deep_view()[i as int] == value@);
            return true;
        }
        i = i + 1;
    }
    false
}

/// A Unity `.meta` file is meaningless without its asset and vice versa, so a
/// changed partner of a matched path is always carried along.
pub fn companions(matched: &Vec<RepoPath>, changed: &Vec<RepoPath>) -> (r: Vec<RepoPath>)
    ensures
        r.deep_view() == companions_spec(matched.deep_view(), changed.deep_view()),
{
    let mut r: Vec<RepoPath> = Vec::new();
    let mut i: usize = 0;
    while i < changed.len()
        invariant
            i <= changed@.len(),
            r.deep_view() == companions_spec(
                matched.deep_view(),
                changed.deep_view().take(i as int),
            ),
        decreases changed@.len() - i,
    {
        assert(changed.deep_view().take(i + 1).drop_last() == changed.deep_view().take(i as int));
        let path = &changed[i];
        if !contains_path(matched, path.as_str()) && contains_path(
            matched,
            partner(path).as_str(),
        ) {
            let ghost before = r.deep_view();
            r.push(path.clone());
            assert(r.deep_view() =~= before.push(changed@[i as int]@));
        }
        i = i + 1;
    }
    assert(changed.deep_view().take(changed@.len() as int) == changed.deep_view());
    r
}

/// Matched and companion paths together, sorted, without repeats.
pub fn combine(matched: Vec<RepoPath>, companions: &Vec<RepoPath>) -> (r: Vec<RepoPath>)
    ensures
        strictly_sorted(r.deep_view()),
        r.deep_view().to_set() == matched.deep_view().to_set() + companions.deep_view().to_set(),
{
    let mut values = matched;
    let ghost m = values.deep_view();
    let mut i: usize = 0;
    while i < companions.len()
        invariant
            i <= companions@.len(),
            values.deep_view() == m + companions.deep_view().take(i as int),
        decreases companions@.len() - i,
    {
        let ghost before = values.deep_view();
        values.push(companions[i].clone());
        assert(values.deep_view() =~= before.push(companions@[i as int]@));
        assert(companions.deep_view().take(i + 1) =~= companions.deep_view().take(i as int).push(
            companions@[i as int]@,
        ));
        assert(values.deep_view() =~= m + companions.deep_view().take(i + 1));
        i = i + 1;
    }
    assert(companions.deep_view().take(companions@.len() as int) == companions.deep_view());
    let ghost all = values.deep_view();
    let r = sort_dedup(values);
    proof {
        vstd::seq_lib::seq_to_set_distributes_over_add(m, companions.deep_view());
        assert(all == m + companions.deep_view());
    }
    r
}

/// Paths that differ between two commits: `git diff --name-only -z`.
/// Of the files `changed`, the selection `selected` carries the set of
/// `carried`, of which `companions` are the partners brought along.
pub open spec fn carries_from(
    selected: Seq<Seq<char>>,
    changed: Seq<Seq<char>>,
    carried: Seq<Seq<char>>,
    companions: Seq<Seq<char>>,
) -> bool {
    &&& carried_spec(selected, changed) == carried.to_set()
    &&& companions == companions_spec(matched_spec(selected, changed), changed)
}

/// `git diff --name-only -z --no-relative --no-renames --no-ext-diff <from> <to>`.
pub open spec fn diff_names_effect(from: Seq<char>, to: Seq<char>) -> Effect {
    Effect::Run {
        args: seq!["diff"@, "--name-only"@, "-z"@, "--no-relative"@, "--no-renames"@, "--no-ext-diff"@, from, to],
        writes: false,
    }
}

/// From index `start` of `h` on, Git listed the files changed between `from`
/// and `to` as `changed`, in the order it printed them.
pub open spec fn changed_listed<R: GitRunner>(
    h: Host<R>,
    start: int,
    from: Seq<char>,
    to: Seq<char>,
    changed: Seq<Seq<char>>,
) -> bool {
    exists|k: int|
        0 <= start <= k < h.trace().len() && #[trigger] h.trace()[k] == diff_names_effect(from, to) && (h.reply(k) matches Some(
            out,
        ) && changed.len() == nonempty_spec(split_spec(out, 0)).len() && forall|i: int|
            0 <= i < changed.len() ==> changed[i] == vstd::utf8::decode_utf8(
                #[trigger] nonempty_spec(split_spec(out, 0))[i],
            ))
}

/// What Git listed stays listed as the host grows, and from any earlier index.
pub proof fn lemma_changed_listed_grows<R: GitRunner>(
    h: Host<R>,
    h2: Host<R>,
    start: int,
    later: int,
    from: Seq<char>,
    to: Seq<char>,
    changed: Seq<Seq<char>>,
)
    requires
        changed_listed(h, later, from, to, changed),
        grows(h, h2),
        0 <= start <= later,
    ensures
        changed_listed(h2, start, from, to, changed),
{
    let k = choose|k: int|
        0 <= later <= k < h.trace().len() && #[trigger] h.trace()[k] == diff_names_effect(from, to) && (h.reply(k) matches Some(
            out,
        ) && changed.len() == nonempty_spec(split_spec(out, 0)).len() && forall|i: int|
            0 <= i < changed.len() ==> changed[i] == vstd::utf8::decode_utf8(
                #[trigger] nonempty_spec(split_spec(out, 0))[i],
            ));
    assert(h2.trace()[k] == h2.trace().take(h.trace().len() as int)[k]);
    assert(h2.reply(k) == h.reply(k));
}

fn changed_between<R: GitRunner>(runner: &mut Host<R>, from: &ObjectId, to: &ObjectId) -> (r: Result<
    Vec<RepoPath>,
    SplitError,
>)
    ensures
        grows(*old(runner), *final(runner)),
        r matches Err(e) ==> !(e is StalePlan),
        r matches Ok(v) ==> changed_listed(*final(runner), old(runner).trace().len() as int, from@, to@, v.deep_view()),
        r matches Err(e) ==> e is Git || e is InvalidState,
{
    let mut args = command_args(
        &["diff", "--name-only", "-z", "--no-relative", "--no-renames", "--no-ext-diff"],
    );
    push_arg(&mut args, from.as_str());
    push_arg(&mut args, to.as_str());
    assert(args.deep_view() =~= seq!["diff"@, "--name-only"@, "-z"@, "--no-relative"@, "--no-renames"@, "--no-ext-diff"@, from@, to@]);
    let ghost k = runner.trace().len() as int;
    let output = match runner.run(&GitCommand::read(args)) {
        Ok(o) => o,
        Err(e) => return Err(SplitError::Git(e)),
    };
    let r = parse_paths(output.stdout.as_slice());
    proof {
        if r is Ok {
            let v = r->Ok_0;
            assert(runner.trace()[k] == diff_names_effect(from@, to@));
            assert(runner.reply(k) == Some(output.stdout@));
            assert forall|i: int| 0 <= i < v.deep_view().len() implies v.deep_view()[i] == vstd::utf8::decode_utf8(
                #[trigger] nonempty_spec(split_spec(output.stdout@, 0))[i],
            ) by {
                assert(v.deep_view()[i] == v@[i]@);
            }
        }
    }
    r
}

/// The record is a path: UTF-8 text that names a file.
pub open spec fn path_bytes_ok(record: Seq<u8>) -> bool {
    vstd::utf8::valid_utf8(record) && valid_name(vstd::utf8::decode_utf8(record))
}

/// One path per non-empty NUL-separated record.
pub fn parse_paths(bytes: &[u8]) -> (r: Result<Vec<RepoPath>, SplitError>)
    ensures
        r is Ok <==> forall|i: int|
            0 <= i < nonempty_spec(split_spec(bytes@, 0)).len() ==> path_bytes_ok(
                #[trigger] nonempty_spec(split_spec(bytes@, 0))[i],
            ),
        r matches Err(e) ==> e is InvalidState,
        r matches Ok(v) ==> v@.len() == nonempty_spec(split_spec(bytes@, 0)).len() && forall|i: int|
            0 <= i < v@.len() ==> vstd::utf8::decode_utf8(
                #[trigger] nonempty_spec(split_spec(bytes@, 0))[i],
            ) == v@[i]@,
{
    let records = split_nonempty(bytes, 0);
    let mut paths: Vec<RepoPath> = Vec::new();
    let mut i: usize = 0;
    while i < records.len()
        invariant
            i <= records@.len(),
            views(records@) == nonempty_spec(split_spec(bytes@, 0)),
            paths@.len() == i,
            forall|j: int| 0 <= j < i ==> vstd::utf8::decode_utf8(#[trigger] views(records@)[j]) == paths@[j]@,
            forall|j: int| 0 <= j < i ==> path_bytes_ok(#[trigger] views(records@)[j]),
        decreases records@.len() - i,
    {
        assert(views(records@)[i as int] == records@[i as int]@);
        match RepoPath::from_bytes(records[i].as_slice()) {
            Ok(p) => paths.push(p),
            Err(message) => return Err(SplitError::InvalidState(message)),
        }
        i = i + 1;
    }
    Ok(paths)
}

pub(crate) fn select<R: GitRunner>(runner: &mut Host<R>, requested: Vec<RepoPath>, range: Range<'_>) -> (r: Result<
    Selection,
    SplitError,
>)
    ensures
        grows(*old(runner), *final(runner)),
        r matches Err(e) ==> !(e is StalePlan),
        !trimmed_valid(requested.deep_view()) ==> r matches Err(SplitError::InvalidState(_)),
        trimmed_valid(requested.deep_view()) && requested@.len() == 0 ==> r matches Err(
            SplitError::EmptySelection,
        ),
        r matches Ok(s) ==> {
            &&& strictly_sorted(s.selected.deep_view())
            &&& s.selected.deep_view().to_set() == trimmed_all(requested.deep_view()).to_set()
            &&& strictly_sorted(s.carried.deep_view())
            &&& s.carried@.len() > 0
            &&& exists|changed: Seq<Seq<char>>|
                #[trigger] carried_spec(s.selected.deep_view(), changed) == s.carried.deep_view().to_set()
                    && s.companions.deep_view() == companions_spec(
                    matched_spec(s.selected.deep_view(), changed),
                    changed,
                ) && matched_spec(s.selected.deep_view(), changed).len() > 0
        },
        r matches Ok(s) ==> exists|changed: Seq<Seq<char>>|
            #[trigger] changed_listed(*final(runner), old(runner).trace().len() as int, range.from@, range.to@, changed)
                && carried_spec(s.selected.deep_view(), changed) == s.carried.deep_view().to_set()
                && s.companions.deep_view() == companions_spec(matched_spec(s.selected.deep_view(), changed), changed),
        r matches Err(SplitError::NoChanges) ==> exists|selected: Seq<Seq<char>>, changed: Seq<Seq<char>>|
            #[trigger] matched_spec(selected, changed).len() == 0 && selected.to_set() == trimmed_all(
                requested.deep_view(),
            ).to_set() && changed_listed(*final(runner), old(runner).trace().len() as int, range.from@, range.to@, changed),
{
    let ghost requested_view = requested.deep_view();
    let selected = match normalize(requested) {
        Ok(v) => v,
        Err(e) => return Err(e),
    };
    let changed = match changed_between(runner, range.from, range.to) {
        Ok(v) => v,
        Err(e) => return Err(e),
    };
    let matched = matched(&selected, &changed);
    if matched.len() == 0 {
        proof {
            assert(matched_spec(selected.deep_view(), changed.deep_view()).len() == 0);
        }
        return Err(SplitError::NoChanges);
    }
    let companions = companions(&matched, &changed);
    let ghost m = matched.deep_view();
    let carried = combine(matched, &companions);
    proof {
        assert(carried_spec(selected.deep_view(), changed.deep_view()) == carried.deep_view().to_set());
        assert(companions.deep_view() == companions_spec(
            matched_spec(selected.deep_view(), changed.deep_view()),
            changed.deep_view(),
        ));
        assert(carried.deep_view().to_set() == m.to_set() + companions.deep_view().to_set());
        assert(m.to_set().contains(m[0]));
        assert(carried.deep_view().to_set().contains(m[0]));
        if carried@.len() == 0 {
            assert(carried.deep_view().to_set() =~= Set::<Seq<char>>::empty());
        }
    }
    let result = Selection { selected, carried, companions };
    proof {
        assert(carried_spec(result.selected.deep_view(), changed.deep_view())
            == result.carried.deep_view().to_set());
        assert(changed_listed(*runner, old(runner).trace().len() as int, range.from@, range.to@, changed.deep_view()));
        assert(result.companions.deep_view() == companions_spec(
            matched_spec(result.selected.deep_view(), changed.deep_view()),
            changed.deep_view(),
        ));
    }
    Ok(result)
}

/// `value` lies somewhere below the directory `dir`, at any depth.
pub open spec fn below(value: Seq<char>, dir: Seq<char>) -> bool {
    value.len() > dir.len() && value.take(dir.len() as int) == dir && value[dir.len() as int] == '/'
}

/// A selection covers the path it names and every path below it as a
/// directory, however deep, and nothing else.
pub proof fn law_covers_whole_subtree(choice: Seq<char>, value: Seq<char>)
    ensures
        covers_spec(choice, value) <==> value == choice || below(value, choice),
{
    let n = choice.len() as int;
    if starts_with_spec(value, choice + seq!['/']) {
        let t = value.take(n + 1);
        assert(t == choice + seq!['/']);
        assert(value.take(n) =~= t.take(n));
        assert(t.take(n) =~= choice);
        assert(value[n] == t[n]);
        assert(t[n] == '/');
    }
    if below(value, choice) {
        assert(value.take(choice.len() + 1 as int) =~= choice + seq!['/']);
    }
}

/// What covers a directory covers all that lies below it.
pub proof fn law_covers_descends(choice: Seq<char>, dir: Seq<char>, value: Seq<char>)
    requires
        covers_spec(choice, dir),
        below(value, dir),
    ensures
        covers_spec(choice, value),
{
    law_covers_whole_subtree(choice, dir);
    law_covers_whole_subtree(choice, value);
    if dir != choice {
        assert(value.take(choice.len() as int) =~= dir.take(choice.len() as int));
        assert(value[choice.len() as int] == dir[choice.len() as int]);
    }
}

/// A split carries exactly the changed files that a selection names or that
/// lie below a selected directory, at any depth.
pub proof fn law_matched_by_selection(selected: Seq<Seq<char>>, changed: Seq<Seq<char>>, p: Seq<char>)
    ensures
        matched_spec(selected, changed).contains(p) <==> changed.contains(p) && exists|i: int|
            0 <= i < selected.len() && (p == #[trigger] selected[i] || below(p, selected[i])),
{
    lemma_matched_members(selected, changed, p);
    if covered(selected, p) {
        let i = choose|i: int| 0 <= i < selected.len() && covers_spec(#[trigger] selected[i], p);
        law_covers_whole_subtree(selected[i], p);
    }
    if exists|i: int| 0 <= i < selected.len() && (p == #[trigger] selected[i] || below(p, selected[i])) {
        let i = choose|i: int| 0 <= i < selected.len() && (p == #[trigger] selected[i] || below(p, selected[i]));
        law_covers_whole_subtree(selected[i], p);
        assert(covers_spec(selected[i], p));
    }
}

} // verus!
