//! Reading commit and tree objects out of `git cat-file` and `git ls-tree`.
use vstd::prelude::*;

use crate::host::grows;

use crate::host::{Effect, Host};

use crate::git::{command_args, GitCommand, GitRunner};
use crate::map::{map_of, PathMap};
use crate::text::{
    bytes_of, bytes_start_with, chars_of, is_whitespace, is_ws, nonempty_spec, split_bytes,
    split_nonempty, split_spec, string_of, strip_prefix_bytes, trim, trim_spec, utf8_text, views,
};
use vstd::utf8::{decode_utf8, valid_utf8};

use super::errors::RewriteError;
use super::model::{
    valid_name, valid_object_id, CommitMetadata, ObjectId, RepoPath, Signature, SignatureView,
    TreeEntry, TreeEntryView,
};

verus! {

broadcast use crate::host::lemma_grows_chain, crate::host::lemma_grows_none, crate::host::lemma_grows_trace,
    crate::host::lemma_grows_reply;

/// The tracked files of a tree, by path.
pub type TreeSnapshot = PathMap<TreeEntry>;

pub struct CommitObject {
    pub tree: ObjectId,
    pub parents: Vec<ObjectId>,
    pub metadata: CommitMetadata,
}

// ---------------------------------------------------------------- signatures

/// Index of the last `c` in `s`, or -1.
pub open spec fn last_index_of(s: Seq<char>, c: char) -> int
    decreases s.len(),
{
    if s.len() == 0 {
        -1
    } else if s.last() == c {
        s.len() - 1
    } else {
        last_index_of(s.drop_last(), c)
    }
}

/// The whitespace-separated words of `s`, as `str::split_whitespace` yields them.
pub open spec fn words(s: Seq<char>) -> Seq<Seq<char>>
    decreases s.len(),
{
    if s.len() == 0 {
        Seq::empty()
    } else {
        let t = words(s.drop_last());
        let c = s.last();
        if is_ws(c) {
            t
        } else if s.len() >= 2 && !is_ws(s[s.len() - 2]) {
            t.update(t.len() - 1, t.last().push(c))
        } else {
            t.push(seq![c])
        }
    }
}

proof fn lemma_words_nonempty(s: Seq<char>)
    requires
        s.len() > 0,
        !is_ws(s.last()),
    ensures
        words(s).len() > 0,
    decreases s.len(),
{
    if s.len() >= 2 && !is_ws(s[s.len() - 2]) {
        assert(s.drop_last().last() == s[s.len() - 2]);
        lemma_words_nonempty(s.drop_last());
    }
}

/// The signature `git cat-file` prints after `author ` or `committer `:
/// name, `<email>`, timestamp and time zone.
pub open spec fn signature_spec(v: Seq<char>) -> Option<SignatureView> {
    let open = last_index_of(v, '<');
    let close = last_index_of(v, '>');
    if open < 0 || close < 0 || close < open {
        None
    } else {
        let date = words(v.skip(close + 1));
        if date.len() < 2 {
            None
        } else {
            Some(
                SignatureView {
                    name: trim_spec(v.take(open)),
                    email: v.subrange(open + 1, close),
                    date: date[0] + seq![' '] + date[1],
                },
            )
        }
    }
}

fn last_index(v: &Vec<char>, c: char) -> (r: Option<usize>)
    ensures
        r is None <==> last_index_of(v@, c) < 0,
        r matches Some(i) ==> i == last_index_of(v@, c) && i < v@.len() && v@[i as int] == c,
{
    let mut i = v.len();
    assert(v@.take(i as int) == v@);
    while i > 0
        invariant
            i <= v@.len(),
            last_index_of(v@, c) == last_index_of(v@.take(i as int), c),
        decreases i,
    {
        assert(v@.take(i as int).drop_last() == v@.take(i - 1));
        if v[i - 1] == c {
            return Some(i - 1);
        }
        i = i - 1;
    }
    None
}

/// `str::split_whitespace` over `v[lo..]`.
fn split_words(v: &Vec<char>, lo: usize) -> (r: Vec<Vec<char>>)
    requires
        lo <= v@.len(),
    ensures
        r@.len() == words(v@.skip(lo as int)).len(),
        forall|i: int| 0 <= i < r@.len() ==> #[trigger] r@[i]@ == words(v@.skip(lo as int))[i],
{
    let ghost s = v@.skip(lo as int);
    let mut r: Vec<Vec<char>> = Vec::new();
    let mut i = lo;
    while i < v.len()
        invariant
            lo <= i <= v@.len(),
            s == v@.skip(lo as int),
            r@.len() == words(s.take(i - lo)).len(),
            forall|j: int| 0 <= j < r@.len() ==> #[trigger] r@[j]@ == words(s.take(i - lo))[j],
        decreases v@.len() - i,
    {
        let ghost before = s.take(i - lo);
        let ghost after = s.take(i - lo + 1);
        assert(after.drop_last() == before);
        assert(after.last() == v@[i as int]);
        let c = v[i];
        if is_whitespace(c) {
        } else if i > lo && !is_whitespace(v[i - 1]) {
            assert(before.last() == v@[i - 1]);
            proof {
                lemma_words_nonempty(before);
            }
            let n = r.len();
            let mut last = r.pop().unwrap();
            last.push(c);
            r.push(last);
            assert(words(after) == words(before).update(n - 1, words(before)[n - 1].push(c)));
        } else {
            let mut word: Vec<char> = Vec::new();
            word.push(c);
            assert(word@ == seq![c]);
            r.push(word);
        }
        i = i + 1;
    }
    assert(s.take(v@.len() - lo) == s);
    r
}

/// Reads a signature line such as `A U Thor <a@example.com> 1700000000 +0100`.
///
/// A line whose last `>` comes before its last `<` is refused as malformed.
pub fn parse_signature(bytes: &[u8]) -> (r: Result<Signature, String>)
    ensures
        r is Ok <==> valid_utf8(bytes@) && signature_spec(decode_utf8(bytes@)) is Some,
        r matches Ok(sig) ==> signature_spec(decode_utf8(bytes@)) == Some(sig@),
{
    assert(bytes@.subrange(0, bytes@.len() as int) == bytes@);
    let value = match utf8_text(bytes_of(bytes, 0, bytes.len())) {
        Some(value) => value,
        None => return Err(String::from_str("signature is not UTF-8")),
    };
    let v = chars_of(value.as_str());
    let open = match last_index(&v, '<') {
        Some(i) => i,
        None => return Err(String::from_str("signature has no email")),
    };
    let close = match last_index(&v, '>') {
        Some(i) => i,
        None => return Err(String::from_str("signature has no email end")),
    };
    if close < open {
        return Err(String::from_str("signature email is malformed"));
    }
    let date = split_words(&v, close + 1);
    if date.len() < 1 {
        return Err(String::from_str("signature has no timestamp"));
    }
    if date.len() < 2 {
        return Err(String::from_str("signature has no timezone"));
    }
    let name = trim(string_of(&v, 0, open).as_str());
    let email = string_of(&v, open + 1, close);
    let mut when = string_of(&date[0], 0, date[0].len());
    when.append(" ");
    when.append(string_of(&date[1], 0, date[1].len()).as_str());
    proof {
        reveal_strlit(" ");
        assert(v@.subrange(0, open as int) == v@.take(open as int));
        assert(date@[0]@.subrange(0, date@[0]@.len() as int) == date@[0]@);
        assert(date@[1]@.subrange(0, date@[1]@.len() as int) == date@[1]@);
        let d = words(v@.skip(close + 1));
        assert(d[0] == date@[0]@);
        assert(d[1] == date@[1]@);
        assert(when@ == d[0] + seq![' '] + d[1]);
        assert(v@ == decode_utf8(bytes@));
        assert(name@ == trim_spec(v@.take(open as int)));
    }
    Ok(Signature { name, email, date: when })
}

// ------------------------------------------------------------------- commits

/// What the header lines of a commit object have said so far.
pub struct HeaderView {
    pub tree: Option<Seq<char>>,
    pub parents: Seq<Seq<char>>,
    pub author: Option<SignatureView>,
    pub committer: Option<SignatureView>,
}

pub open spec fn tree_prefix() -> Seq<u8> {
    seq![116u8, 114, 101, 101, 32]
}

pub open spec fn parent_prefix() -> Seq<u8> {
    seq![112u8, 97, 114, 101, 110, 116, 32]
}

pub open spec fn author_prefix() -> Seq<u8> {
    seq![97u8, 117, 116, 104, 111, 114, 32]
}

pub open spec fn committer_prefix() -> Seq<u8> {
    seq![99u8, 111, 109, 109, 105, 116, 116, 101, 114, 32]
}

pub open spec fn id_bytes_ok(v: Seq<u8>) -> bool {
    valid_utf8(v) && valid_object_id(decode_utf8(v))
}

pub open spec fn signature_bytes(v: Seq<u8>) -> Option<SignatureView> {
    if valid_utf8(v) {
        signature_spec(decode_utf8(v))
    } else {
        None
    }
}

/// One header line applied to what is known; `None` when the line is malformed.
pub open spec fn header_step(st: HeaderView, line: Seq<u8>) -> Option<HeaderView> {
    if bytes_start_with(line, tree_prefix()) && !id_bytes_ok(line.skip(5)) {
        None
    } else if bytes_start_with(line, parent_prefix()) && !id_bytes_ok(line.skip(7)) {
        None
    } else if bytes_start_with(line, author_prefix()) && signature_bytes(line.skip(7)) is None {
        None
    } else if bytes_start_with(line, committer_prefix()) && signature_bytes(line.skip(10)) is None {
        None
    } else {
        Some(
            HeaderView {
                tree: if bytes_start_with(line, tree_prefix()) {
                    Some(decode_utf8(line.skip(5)))
                } else {
                    st.tree
                },
                parents: if bytes_start_with(line, parent_prefix()) {
                    st.parents.push(decode_utf8(line.skip(7)))
                } else {
                    st.parents
                },
                author: if bytes_start_with(line, author_prefix()) {
                    signature_bytes(line.skip(7))
                } else {
                    st.author
                },
                committer: if bytes_start_with(line, committer_prefix()) {
                    signature_bytes(line.skip(10))
                } else {
                    st.committer
                },
            },
        )
    }
}

/// All header lines applied in order, from an empty start.
pub open spec fn headers_spec(lines: Seq<Seq<u8>>) -> Option<HeaderView>
    decreases lines.len(),
{
    if lines.len() == 0 {
        Some(HeaderView { tree: None, parents: Seq::empty(), author: None, committer: None })
    } else {
        match headers_spec(lines.drop_last()) {
            Some(st) => header_step(st, lines.last()),
            None => None,
        }
    }
}

/// Index of the first blank line that ends the header (the first `\n\n`), or -1.
pub open spec fn header_end(bytes: Seq<u8>) -> int
    decreases bytes.len(),
{
    if bytes.len() < 2 {
        -1
    } else if bytes[0] == 10 && bytes[1] == 10 {
        0
    } else {
        let rest = header_end(bytes.drop_first());
        if rest < 0 {
            -1
        } else {
            rest + 1
        }
    }
}

pub struct CommitView {
    pub tree: Seq<char>,
    pub parents: Seq<Seq<char>>,
    pub metadata: super::model::CommitMetadataView,
}

/// What `git cat-file commit` output says: the header before the first blank
/// line, which must name a tree, an author and a committer, and the message after it.
pub open spec fn commit_spec(bytes: Seq<u8>) -> Option<CommitView> {
    let sep = header_end(bytes);
    if sep < 0 {
        None
    } else {
        match headers_spec(split_spec(bytes.take(sep), 10)) {
            Some(h) => if h.tree is Some && h.author is Some && h.committer is Some {
                Some(
                    CommitView {
                        tree: h.tree->0,
                        parents: h.parents,
                        metadata: super::model::CommitMetadataView {
                            author: h.author->0,
                            committer: h.committer->0,
                            message: bytes.skip(sep + 2),
                        },
                    },
                )
            } else {
                None
            },
            None => None,
        }
    }
}

fn find_header_end(bytes: &[u8]) -> (r: Option<usize>)
    ensures
        r is None <==> header_end(bytes@) < 0,
        r matches Some(i) ==> i == header_end(bytes@) && i + 2 <= bytes@.len(),
{
    let mut i: usize = 0;
    assert(bytes@.skip(0) == bytes@);
    while bytes.len() >= 2 && i < bytes.len() - 1
        invariant
            i <= bytes@.len(),
            header_end(bytes@) == (if header_end(bytes@.skip(i as int)) < 0 {
                -1
            } else {
                header_end(bytes@.skip(i as int)) + i
            }),
        decreases bytes@.len() - i,
    {
        assert(bytes@.skip(i as int).drop_first() == bytes@.skip(i + 1));
        if bytes[i] == 10 && bytes[i + 1] == 10 {
            return Some(i);
        }
        i = i + 1;
    }
    None
}

proof fn lemma_header_end_bound(bytes: Seq<u8>)
    ensures
        header_end(bytes) < 0 || header_end(bytes) + 2 <= bytes.len(),
    decreases bytes.len(),
{
    if bytes.len() >= 2 && !(bytes[0] == 10 && bytes[1] == 10) {
        lemma_header_end_bound(bytes.drop_first());
    }
}

fn prefix_bytes(which: u8) -> (r: Vec<u8>)
    ensures
        which == 0 ==> r@ == tree_prefix(),
        which == 1 ==> r@ == parent_prefix(),
        which == 2 ==> r@ == author_prefix(),
        which >= 3 ==> r@ == committer_prefix(),
{
    if which == 0 {
        vec![116u8, 114, 101, 101, 32]
    } else if which == 1 {
        vec![112u8, 97, 114, 101, 110, 116, 32]
    } else if which == 2 {
        vec![97u8, 117, 116, 104, 111, 114, 32]
    } else {
        vec![99u8, 111, 109, 109, 105, 116, 116, 101, 114, 32]
    }
}

fn parse_commit_header(
    line: &[u8],
    tree: &mut Option<ObjectId>,
    parents: &mut Vec<ObjectId>,
    author: &mut Option<Signature>,
    committer: &mut Option<Signature>,
) -> (r: Result<(), String>)
    ensures
        ({
            let st = HeaderView {
                tree: match *old(tree) {
                    Some(t) => Some(t@),
                    None => None,
                },
                parents: old(parents).deep_view(),
                author: match *old(author) {
                    Some(a) => Some(a@),
                    None => None,
                },
                committer: match *old(committer) {
                    Some(c) => Some(c@),
                    None => None,
                },
            };
            &&& r is Ok <==> header_step(st, line@) is Some
            &&& r is Ok ==> {
                let h = header_step(st, line@)->0;
                &&& h.tree == match *final(tree) {
                    Some(t) => Some(t@),
                    None => None,
                }
                &&& h.parents == final(parents).deep_view()
                &&& h.author == match *final(author) {
                    Some(a) => Some(a@),
                    None => None,
                }
                &&& h.committer == match *final(committer) {
                    Some(c) => Some(c@),
                    None => None,
                }
            }
        }),
{
    if let Some(value) = strip_prefix_bytes(line, prefix_bytes(0).as_slice()) {
        match ObjectId::from_bytes(value.as_slice()) {
            Ok(id) => {
                *tree = Some(id);
            },
            Err(message) => return Err(message),
        }
    }
    if let Some(value) = strip_prefix_bytes(line, prefix_bytes(1).as_slice()) {
        match ObjectId::from_bytes(value.as_slice()) {
            Ok(id) => {
                let ghost before = parents.deep_view();
                parents.push(id);
                assert(parents.deep_view() =~= before.push(decode_utf8(line@.skip(7))));
            },
            Err(message) => return Err(message),
        }
    }
    if let Some(value) = strip_prefix_bytes(line, prefix_bytes(2).as_slice()) {
        match parse_signature(value.as_slice()) {
            Ok(sig) => {
                *author = Some(sig);
            },
            Err(message) => return Err(message),
        }
    }
    if let Some(value) = strip_prefix_bytes(line, prefix_bytes(3).as_slice()) {
        match parse_signature(value.as_slice()) {
            Ok(sig) => {
                *committer = Some(sig);
            },
            Err(message) => return Err(message),
        }
    }
    Ok(())
}

/// Reads the output of `git cat-file commit`.
pub fn parse_commit(bytes: &[u8]) -> (r: Result<CommitObject, String>)
    ensures
        r is Ok <==> commit_spec(bytes@) is Some,
        r matches Ok(c) ==> {
            let s = commit_spec(bytes@)->0;
            &&& c.tree@ == s.tree
            &&& c.parents.deep_view() == s.parents
            &&& c.metadata@ == s.metadata
        },
{
    let separator = match find_header_end(bytes) {
        Some(i) => i,
        None => return Err(String::from_str("commit object has no header separator")),
    };
    let head = bytes_of(bytes, 0, separator);
    assert(head@ == bytes@.take(separator as int));
    let lines = split_bytes(head.as_slice(), 10);
    let mut tree: Option<ObjectId> = None;
    let mut parents: Vec<ObjectId> = Vec::new();
    let mut author: Option<Signature> = None;
    let mut committer: Option<Signature> = None;
    let mut i: usize = 0;
    assert(parents.deep_view() =~= Seq::<Seq<char>>::empty());
    while i < lines.len()
        invariant
            i <= lines@.len(),
            separator + 2 <= bytes@.len(),
            separator == header_end(bytes@),
            head@ == bytes@.take(separator as int),
            views(lines@) == split_spec(head@, 10),
            headers_spec(views(lines@).take(i as int)) == Some(
                HeaderView {
                    tree: match tree {
                        Some(t) => Some(t@),
                        None => None,
                    },
                    parents: parents.deep_view(),
                    author: match author {
                        Some(a) => Some(a@),
                        None => None,
                    },
                    committer: match committer {
                        Some(c) => Some(c@),
                        None => None,
                    },
                },
            ),
        decreases lines@.len() - i,
    {
        assert(views(lines@).take(i + 1).drop_last() == views(lines@).take(i as int));
        assert(views(lines@).take(i + 1).last() == lines@[i as int]@);
        match parse_commit_header(
            lines[i].as_slice(),
            &mut tree,
            &mut parents,
            &mut author,
            &mut committer,
        ) {
            Ok(()) => {},
            Err(message) => {
                proof {
                    assert(headers_spec(views(lines@).take(i + 1)) is None);
                    lemma_headers_stop(views(lines@), (i + 1) as int);
                }
                return Err(message);
            },
        }
        i = i + 1;
    }
    assert(views(lines@).take(lines@.len() as int) == views(lines@));
    let tree = match tree {
        Some(t) => t,
        None => return Err(String::from_str("commit object has no tree")),
    };
    let author = match author {
        Some(a) => a,
        None => return Err(String::from_str("commit object has no author")),
    };
    let committer = match committer {
        Some(c) => c,
        None => return Err(String::from_str("commit object has no committer")),
    };
    assert(separator + 2 <= bytes.len());
    let message = bytes_of(bytes, separator + 2, bytes.len());
    assert(message@ == bytes@.skip(separator + 2));
    Ok(CommitObject { tree, parents, metadata: CommitMetadata { author, committer, message } })
}

/// Once a line fails, every longer prefix of the header fails too.
proof fn lemma_headers_stop(lines: Seq<Seq<u8>>, n: int)
    requires
        0 < n <= lines.len(),
        headers_spec(lines.take(n)) is None,
    ensures
        headers_spec(lines) is None,
    decreases lines.len() - n,
{
    if n < lines.len() {
        assert(lines.take(n + 1).drop_last() == lines.take(n));
        lemma_headers_stop(lines, n + 1);
    } else {
        assert(lines.take(n) == lines);
    }
}

// --------------------------------------------------------------------- trees

/// Index of the first `b` in `s`, or -1.
pub open spec fn first_index_of(s: Seq<u8>, b: u8) -> int
    decreases s.len(),
{
    if s.len() == 0 {
        -1
    } else if s[0] == b {
        0
    } else {
        let rest = first_index_of(s.drop_first(), b);
        if rest < 0 {
            -1
        } else {
            rest + 1
        }
    }
}

/// One record of `git ls-tree -r -z`: `<mode> <kind> <object>\t<path>`.
pub open spec fn tree_record_spec(record: Seq<u8>) -> Option<(Seq<char>, TreeEntryView)> {
    let tab = first_index_of(record, 9);
    if tab < 0 {
        None
    } else {
        let fields = split_spec(record.take(tab), 32);
        let path = record.skip(tab + 1);
        if fields.len() != 3 || !valid_utf8(path) || !valid_name(decode_utf8(path)) || !valid_utf8(
            fields[0],
        ) || !valid_utf8(fields[1]) || !id_bytes_ok(fields[2]) {
            None
        } else {
            Some(
                (
                    decode_utf8(path),
                    TreeEntryView {
                        mode: decode_utf8(fields[0]),
                        kind: decode_utf8(fields[1]),
                        object: decode_utf8(fields[2]),
                    },
                ),
            )
        }
    }
}

/// Every record read, in order; `None` as soon as one is malformed.
pub open spec fn tree_records_spec(records: Seq<Seq<u8>>) -> Option<
    Seq<(Seq<char>, TreeEntryView)>,
>
    decreases records.len(),
{
    if records.len() == 0 {
        Some(Seq::empty())
    } else {
        match tree_records_spec(records.drop_last()) {
            Some(done) => match tree_record_spec(records.last()) {
                Some(entry) => Some(done.push(entry)),
                None => None,
            },
            None => None,
        }
    }
}

/// What `git ls-tree -r -z` output says: the records between NUL bytes, by path.
pub open spec fn tree_spec(bytes: Seq<u8>) -> Option<Map<Seq<char>, TreeEntryView>> {
    match tree_records_spec(nonempty_spec(split_spec(bytes, 0))) {
        Some(entries) => Some(map_of(entries)),
        None => None,
    }
}

fn first_index(s: &[u8], b: u8) -> (r: Option<usize>)
    ensures
        r is None <==> first_index_of(s@, b) < 0,
        r matches Some(i) ==> i == first_index_of(s@, b) && i < s@.len(),
{
    let mut i: usize = 0;
    assert(s@.skip(0) == s@);
    while i < s.len()
        invariant
            i <= s@.len(),
            first_index_of(s@, b) == (if first_index_of(s@.skip(i as int), b) < 0 {
                -1
            } else {
                first_index_of(s@.skip(i as int), b) + i
            }),
        decreases s@.len() - i,
    {
        assert(s@.skip(i as int).drop_first() == s@.skip(i + 1));
        if s[i] == b {
            return Some(i);
        }
        i = i + 1;
    }
    None
}

fn parse_tree_record(record: &[u8]) -> (r: Result<(RepoPath, TreeEntry), String>)
    ensures
        r is Ok <==> tree_record_spec(record@) is Some,
        r matches Ok(e) ==> tree_record_spec(record@) == Some((e.0@, e.1@)),
{
    let tab = match first_index(record, 9) {
        Some(t) => t,
        None => return Err(String::from_str("tree record has no path separator")),
    };
    let meta = bytes_of(record, 0, tab);
    assert(meta@ == record@.take(tab as int));
    let fields = split_bytes(meta.as_slice(), 32);
    if fields.len() != 3 {
        return Err(String::from_str("tree record has invalid metadata"));
    }
    assert(tab < record.len());
    let path_bytes = bytes_of(record, tab + 1, record.len());
    assert(path_bytes@ == record@.skip(tab + 1));
    let path = match RepoPath::from_bytes(path_bytes.as_slice()) {
        Ok(p) => p,
        Err(message) => return Err(message),
    };
    assert(views(fields@)[0] == fields@[0]@);
    assert(views(fields@)[1] == fields@[1]@);
    assert(views(fields@)[2] == fields@[2]@);
    assert(fields@[0]@.subrange(0, fields@[0]@.len() as int) == fields@[0]@);
    assert(fields@[1]@.subrange(0, fields@[1]@.len() as int) == fields@[1]@);
    let mode = match utf8_text(bytes_of(fields[0].as_slice(), 0, fields[0].len())) {
        Some(m) => m,
        None => return Err(String::from_str("tree mode is not UTF-8")),
    };
    let kind = match utf8_text(bytes_of(fields[1].as_slice(), 0, fields[1].len())) {
        Some(k) => k,
        None => return Err(String::from_str("tree kind is not UTF-8")),
    };
    let object = match ObjectId::from_bytes(fields[2].as_slice()) {
        Ok(o) => o,
        Err(message) => return Err(message),
    };
    Ok((path, TreeEntry { mode, kind, object }))
}

/// Reads the output of `git ls-tree -r -z --full-tree`.
pub fn parse_tree(bytes: &[u8]) -> (r: Result<TreeSnapshot, String>)
    ensures
        r is Ok <==> tree_spec(bytes@) is Some,
        r matches Ok(t) ==> Some(t.map()) == tree_spec(bytes@),
{
    let records = split_nonempty(bytes, 0);
    let mut tree: TreeSnapshot = PathMap::new();
    let mut i: usize = 0;
    let ghost mut parsed: Seq<(Seq<char>, TreeEntryView)> = Seq::empty();
    while i < records.len()
        invariant
            i <= records@.len(),
            views(records@) == nonempty_spec(split_spec(bytes@, 0)),
            tree_records_spec(views(records@).take(i as int)) == Some(parsed),
            tree.map() == map_of(parsed),
        decreases records@.len() - i,
    {
        assert(views(records@).take(i + 1).drop_last() == views(records@).take(i as int));
        assert(views(records@).take(i + 1).last() == records@[i as int]@);
        match parse_tree_record(records[i].as_slice()) {
            Ok((path, entry)) => {
                let ghost old_parsed = parsed;
                proof {
                    parsed = parsed.push((path@, entry@));
                    assert(parsed.drop_last() == old_parsed);
                }
                let key = String::from_str(path.as_str());
                tree.insert(key, entry);
            },
            Err(message) => {
                proof {
                    lemma_records_stop(views(records@), (i + 1) as int);
                }
                return Err(message);
            },
        }
        i = i + 1;
    }
    assert(views(records@).take(records@.len() as int) == views(records@));
    Ok(tree)
}

proof fn lemma_records_stop(records: Seq<Seq<u8>>, n: int)
    requires
        0 < n <= records.len(),
        tree_records_spec(records.take(n)) is None,
    ensures
        tree_records_spec(records) is None,
    decreases records.len() - n,
{
    if n < records.len() {
        assert(records.take(n + 1).drop_last() == records.take(n));
        lemma_records_stop(records, n + 1);
    } else {
        assert(records.take(n) == records);
    }
}

// ------------------------------------------------------------ reading objects

/// The command that prints commit `id`.
pub open spec fn cat_file_effect(id: Seq<char>) -> Effect {
    Effect::Run { args: seq!["cat-file"@, "commit"@, id], writes: false }
}

/// The command that lists tree `id`.
pub open spec fn ls_tree_effect(id: Seq<char>) -> Effect {
    Effect::Run { args: seq!["ls-tree"@, "-r"@, "-z"@, "--full-tree"@, id], writes: false }
}

/// From index `from` on, Git printed commit `id`, then its tree, which reads as `tree`.
pub open spec fn tree_of_commit<R: GitRunner>(h: Host<R>, from: int, id: Seq<char>, tree: Map<Seq<char>, TreeEntryView>) -> bool {
    exists|k1: int, k2: int|
        #![trigger h.trace()[k1], h.trace()[k2]]
        0 <= from <= k1 < k2 < h.trace().len() && h.trace()[k1] == cat_file_effect(id) && (h.reply(k1) matches Some(o1)
            && commit_spec(o1) matches Some(c) && h.trace()[k2] == ls_tree_effect(c.tree) && (h.reply(k2) matches Some(o2)
            && tree_spec(o2) == Some(tree)))
}

/// What Git printed stays printed as the host grows.
pub proof fn lemma_tree_of_commit_grows<R: GitRunner>(h: Host<R>, h2: Host<R>, from: int, id: Seq<char>, tree: Map<Seq<char>, TreeEntryView>)
    requires
        tree_of_commit(h, from, id, tree),
        grows(h, h2),
    ensures
        tree_of_commit(h2, from, id, tree),
{
    let (k1, k2) = choose|k1: int, k2: int|
        #![trigger h.trace()[k1], h.trace()[k2]]
        0 <= from <= k1 < k2 < h.trace().len() && h.trace()[k1] == cat_file_effect(id) && (h.reply(k1) matches Some(o1)
            && commit_spec(o1) matches Some(c) && h.trace()[k2] == ls_tree_effect(c.tree) && (h.reply(k2) matches Some(o2)
            && tree_spec(o2) == Some(tree)));
    assert(h2.trace()[k1] == h.trace()[k1]);
    assert(h2.trace()[k2] == h.trace()[k2]);
    assert(h2.reply(k1) == h.reply(k1));
    assert(h2.reply(k2) == h.reply(k2));
}

/// `git cat-file commit <id>`, read.
pub(crate) fn read_commit<R: GitRunner>(runner: &mut Host<R>, id: &ObjectId) -> (r: Result<
    CommitObject,
    RewriteError,
>)
    ensures
        grows(*old(runner), *final(runner)),
        r matches Ok(c) ==> exists|printed: Seq<u8>| #[trigger] commit_spec(printed) matches Some(s)
            && c.tree@ == s.tree && c.parents.deep_view() == s.parents && c.metadata@ == s.metadata,
        r matches Err(e) ==> e is Git || e is Parse,
        final(runner).trace() == old(runner).trace().push(cat_file_effect(id@)),
        r matches Ok(c) ==> (final(runner).reply(old(runner).trace().len() as int) matches Some(out) && commit_spec(out) matches Some(s) && c.tree@
            == s.tree && c.parents.deep_view() == s.parents && c.metadata@ == s.metadata),
{
    let mut args = command_args(&["cat-file", "commit"]);
    crate::git::push_arg(&mut args, id.as_str());
    assert(args.deep_view() =~= seq!["cat-file"@, "commit"@, id@]);
    let output = match runner.run(&GitCommand::read(args)) {
        Ok(o) => o,
        Err(e) => return Err(RewriteError::Git(e)),
    };
    match parse_commit(output.stdout.as_slice()) {
        Ok(c) => {
            assert(commit_spec(output.stdout@) is Some);
            Ok(c)
        },
        Err(message) => Err(RewriteError::Parse(message)),
    }
}

/// `git ls-tree -r -z --full-tree <id>`, read.
pub(crate) fn read_tree<R: GitRunner>(runner: &mut Host<R>, id: &ObjectId) -> (r: Result<
    TreeSnapshot,
    RewriteError,
>)
    ensures
        grows(*old(runner), *final(runner)),
        r matches Ok(t) ==> exists|printed: Seq<u8>| #[trigger] tree_spec(printed) == Some(t.map()),
        r matches Err(e) ==> e is Git || e is Parse,
        final(runner).trace() == old(runner).trace().push(ls_tree_effect(id@)),
        r matches Ok(t) ==> (final(runner).reply(old(runner).trace().len() as int) matches Some(out) && tree_spec(out) == Some(t.map())),
{
    let mut args = command_args(&["ls-tree", "-r", "-z", "--full-tree"]);
    crate::git::push_arg(&mut args, id.as_str());
    assert(args.deep_view() =~= seq!["ls-tree"@, "-r"@, "-z"@, "--full-tree"@, id@]);
    let output = match runner.run(&GitCommand::read(args)) {
        Ok(o) => o,
        Err(e) => return Err(RewriteError::Git(e)),
    };
    match parse_tree(output.stdout.as_slice()) {
        Ok(t) => {
            assert(tree_spec(output.stdout@) == Some(t.map()));
            Ok(t)
        },
        Err(message) => Err(RewriteError::Parse(message)),
    }
}

} // verus!
