use vstd::prelude::*;

use crate::map::{MapValue, PathMap};
use crate::text::{chars_of, concat};

verus! {

pub open spec fn is_hex_char(c: char) -> bool {
    let u = c as u32;
    (48 <= u <= 57) || (97 <= u <= 102) || (65 <= u <= 70)
}

/// Text that names a Git object: at least seven hexadecimal digits.
pub open spec fn valid_object_id(s: Seq<char>) -> bool {
    s.len() >= 7 && forall|i: int| 0 <= i < s.len() ==> is_hex_char(#[trigger] s[i])
}

/// Text accepted as a ref name or a repository path: not empty, no NUL, and not
/// starting with `-`, so that Git never reads it as an option.
pub open spec fn valid_name(s: Seq<char>) -> bool {
    &&& s.len() > 0
    &&& forall|i: int| 0 <= i < s.len() ==> #[trigger] s[i] != '\0'
    &&& s[0] != '-'
}

pub fn is_hex_digit(c: char) -> (r: bool)
    ensures
        r == is_hex_char(c),
{
    let u = c as u32;
    (48 <= u && u <= 57) || (97 <= u && u <= 102) || (65 <= u && u <= 70)
}

fn check_name(value: &str) -> (r: bool)
    ensures
        r == valid_name(value@),
{
    let v = chars_of(value);
    if v.len() == 0 || v[0] == '-' {
        return false;
    }
    let mut i: usize = 0;
    while i < v.len()
        invariant
            i <= v@.len(),
            v@ == value@,
            forall|j: int| 0 <= j < i ==> v@[j] != '\0',
        decreases v@.len() - i,
    {
        if v[i] == '\0' {
            return false;
        }
        i = i + 1;
    }
    true
}

#[derive(Debug, Eq, Hash, Ord, PartialEq, PartialOrd)]
pub struct ObjectId(String);

impl View for ObjectId {
    type V = Seq<char>;

    closed spec fn view(&self) -> Seq<char> {
        self.0@
    }
}

impl DeepView for ObjectId {
    type V = Seq<char>;

    open spec fn deep_view(&self) -> Seq<char> {
        self@
    }
}

impl Clone for ObjectId {
    fn clone(&self) -> (r: Self)
        ensures
            r == *self,
    {
        ObjectId(self.0.clone())
    }
}

impl MapValue for ObjectId {
    type V = Seq<char>;

    open spec fn vv(&self) -> Seq<char> {
        self@
    }

    fn same(&self, other: &Self) -> (r: bool) {
        self.0 == other.0
    }

    fn duplicate(&self) -> (r: Self) {
        self.clone()
    }
}

impl ObjectId {
    pub fn new(value: String) -> (r: Result<Self, String>)
        ensures
            r is Ok <==> valid_object_id(value@),
            r matches Ok(id) ==> id@ == value@,
            r matches Err(m) ==> m@ == "invalid object id: "@ + value@,
    {
        let v = chars_of(value.as_str());
        let mut ok = v.len() >= 7;
        let mut i: usize = 0;
        while i < v.len()
            invariant
                i <= v@.len(),
                v@ == value@,
                ok == (v@.len() >= 7 && forall|j: int| 0 <= j < i ==> is_hex_char(#[trigger] v@[j])),
            decreases v@.len() - i,
        {
            if !is_hex_digit(v[i]) {
                ok = false;
            }
            i = i + 1;
        }
        if !ok {
            return Err(concat("invalid object id: ", value.as_str()));
        }
        Ok(ObjectId(value))
    }

    pub fn from_bytes(bytes: &[u8]) -> (r: Result<Self, String>)
        ensures
            r is Ok <==> vstd::utf8::valid_utf8(bytes@) && valid_object_id(
                vstd::utf8::decode_utf8(bytes@),
            ),
            r matches Ok(id) ==> id@ == vstd::utf8::decode_utf8(bytes@),
    {
        match crate::text::utf8_text(crate::text::bytes_of(bytes, 0, bytes.len())) {
            Some(value) => {
                assert(bytes@.subrange(0, bytes@.len() as int) == bytes@);
                Self::new(value)
            },
            None => {
                assert(bytes@.subrange(0, bytes@.len() as int) == bytes@);
                Err(String::from_str("object id is not UTF-8"))
            },
        }
    }

    pub fn as_str(&self) -> (r: &str)
        ensures
            r@ == self@,
    {
        self.0.as_str()
    }

    /// Whether two ids are the same text.
    pub fn same(&self, other: &ObjectId) -> (r: bool)
        ensures
            r == (self@ == other@),
    {
        self.0 == other.0
    }
}

#[derive(Debug, Eq, Hash, Ord, PartialEq, PartialOrd)]
pub struct RefName(String);

impl View for RefName {
    type V = Seq<char>;

    closed spec fn view(&self) -> Seq<char> {
        self.0@
    }
}

impl DeepView for RefName {
    type V = Seq<char>;

    open spec fn deep_view(&self) -> Seq<char> {
        self@
    }
}

impl Clone for RefName {
    fn clone(&self) -> (r: Self)
        ensures
            r == *self,
    {
        RefName(self.0.clone())
    }
}

impl RefName {
    pub fn new(value: String) -> (r: Result<Self, String>)
        ensures
            r is Ok <==> valid_name(value@),
            r matches Ok(name) ==> name@ == value@,
            r matches Err(m) ==> m@ == "invalid ref name: "@ + value@,
    {
        if !check_name(value.as_str()) {
            return Err(concat("invalid ref name: ", value.as_str()));
        }
        Ok(RefName(value))
    }

    pub fn as_str(&self) -> (r: &str)
        ensures
            r@ == self@,
    {
        self.0.as_str()
    }
}

#[derive(Debug, Eq, Hash, Ord, PartialEq, PartialOrd)]
pub struct RepoPath(String);

impl View for RepoPath {
    type V = Seq<char>;

    closed spec fn view(&self) -> Seq<char> {
        self.0@
    }
}

impl DeepView for RepoPath {
    type V = Seq<char>;

    open spec fn deep_view(&self) -> Seq<char> {
        self@
    }
}

impl Clone for RepoPath {
    fn clone(&self) -> (r: Self)
        ensures
            r == *self,
    {
        RepoPath(self.0.clone())
    }
}

impl RepoPath {
    pub fn new(value: String) -> (r: Result<Self, String>)
        ensures
            r is Ok <==> valid_name(value@),
            r matches Ok(path) ==> path@ == value@,
            r matches Err(m) ==> m@ == "invalid repository path: "@ + value@,
    {
        if !check_name(value.as_str()) {
            return Err(concat("invalid repository path: ", value.as_str()));
        }
        Ok(RepoPath(value))
    }

    pub fn from_bytes(bytes: &[u8]) -> (r: Result<Self, String>)
        ensures
            r is Ok <==> vstd::utf8::valid_utf8(bytes@) && valid_name(
                vstd::utf8::decode_utf8(bytes@),
            ),
            r matches Ok(path) ==> path@ == vstd::utf8::decode_utf8(bytes@),
    {
        match crate::text::utf8_text(crate::text::bytes_of(bytes, 0, bytes.len())) {
            Some(value) => {
                assert(bytes@.subrange(0, bytes@.len() as int) == bytes@);
                Self::new(value)
            },
            None => {
                assert(bytes@.subrange(0, bytes@.len() as int) == bytes@);
                Err(String::from_str("path is not UTF-8"))
            },
        }
    }

    pub fn as_str(&self) -> (r: &str)
        ensures
            r@ == self@,
    {
        self.0.as_str()
    }

    pub fn same(&self, other: &RepoPath) -> (r: bool)
        ensures
            r == (self@ == other@),
    {
        self.0 == other.0
    }
}

#[derive(Debug, Eq, PartialEq)]
pub struct TreeEntry {
    pub mode: String,
    pub kind: String,
    pub object: ObjectId,
}

pub struct TreeEntryView {
    pub mode: Seq<char>,
    pub kind: Seq<char>,
    pub object: Seq<char>,
}

impl View for TreeEntry {
    type V = TreeEntryView;

    open spec fn view(&self) -> TreeEntryView {
        TreeEntryView { mode: self.mode@, kind: self.kind@, object: self.object@ }
    }
}

impl MapValue for TreeEntry {
    type V = TreeEntryView;

    open spec fn vv(&self) -> TreeEntryView {
        self@
    }

    fn same(&self, other: &Self) -> (r: bool) {
        self.mode == other.mode && self.kind == other.kind && self.object.same(&other.object)
    }

    fn duplicate(&self) -> (r: Self) {
        TreeEntry { mode: self.mode.clone(), kind: self.kind.clone(), object: self.object.clone() }
    }
}

#[derive(Debug, Eq, PartialEq)]
pub struct Signature {
    pub name: String,
    pub email: String,
    pub date: String,
}

pub struct SignatureView {
    pub name: Seq<char>,
    pub email: Seq<char>,
    pub date: Seq<char>,
}

impl View for Signature {
    type V = SignatureView;

    open spec fn view(&self) -> SignatureView {
        SignatureView { name: self.name@, email: self.email@, date: self.date@ }
    }
}

impl Clone for Signature {
    fn clone(&self) -> (r: Self)
        ensures
            r == *self,
    {
        Signature { name: self.name.clone(), email: self.email.clone(), date: self.date.clone() }
    }
}

#[derive(Debug, Eq, PartialEq)]
pub struct CommitMetadata {
    pub author: Signature,
    pub committer: Signature,
    pub message: Vec<u8>,
}

pub struct CommitMetadataView {
    pub author: SignatureView,
    pub committer: SignatureView,
    pub message: Seq<u8>,
}

impl View for CommitMetadata {
    type V = CommitMetadataView;

    open spec fn view(&self) -> CommitMetadataView {
        CommitMetadataView {
            author: self.author@,
            committer: self.committer@,
            message: self.message@,
        }
    }
}

impl Clone for CommitMetadata {
    fn clone(&self) -> (r: Self)
        ensures
            r@ == self@,
    {
        CommitMetadata {
            author: self.author.clone(),
            committer: self.committer.clone(),
            message: self.message.clone(),
        }
    }
}

#[derive(Clone, Copy, Debug, Eq, PartialEq, Structural)]
pub enum RewriteAction {
    Rebuild,
    Drop,
}

#[derive(Clone, Copy, Debug, Eq, PartialEq, Structural)]
pub enum RewriteOperation {
    Uncommit,
    EditMessage,
}

impl RewriteOperation {
    /// The name an operation is logged under.
    pub open spec fn label_spec(&self) -> Seq<char> {
        match self {
            RewriteOperation::Uncommit => "uncommit"@,
            RewriteOperation::EditMessage => "edit-message"@,
        }
    }

    pub fn label(&self) -> (r: &'static str)
        ensures
            r@ == self.label_spec(),
    {
        match self {
            RewriteOperation::Uncommit => "uncommit",
            RewriteOperation::EditMessage => "edit-message",
        }
    }
}

#[derive(Debug, Eq, PartialEq)]
pub struct CommitRewrite {
    pub source: ObjectId,
    pub source_tree: ObjectId,
    pub first_parent: Option<ObjectId>,
    pub additional_parents: Vec<ObjectId>,
    pub metadata: CommitMetadata,
    pub action: RewriteAction,
}

#[derive(Debug, Eq, PartialEq)]
pub struct UncommitRequest {
    pub base: RefName,
    pub paths: Vec<RepoPath>,
}

#[derive(Debug, Eq, PartialEq)]
pub struct EditMessageRequest {
    pub base: RefName,
    pub commit: ObjectId,
    pub message: Vec<u8>,
}

/// Everything an uncommit or a message edit will do, worked out before any
/// write: the commits of the Editable range and, for an uncommit, the Base
/// entries the selected paths are set back to.
pub struct RewritePlan {
    pub operation: RewriteOperation,
    pub branch: RefName,
    pub base_ref: RefName,
    pub source_head: ObjectId,
    pub base: ObjectId,
    pub selected_paths: Vec<RepoPath>,
    pub base_entries: PathMap<Option<TreeEntry>>,
    pub commits: Vec<CommitRewrite>,
    pub dropped_commits: Vec<ObjectId>,
}

#[derive(Debug, Eq, PartialEq)]
pub struct ApplyResult {
    pub old_head: ObjectId,
    pub new_head: ObjectId,
    pub dropped_commits: Vec<ObjectId>,
}

} // verus!

verus! {

pub fn clone_paths(v: &Vec<RepoPath>) -> (r: Vec<RepoPath>)
    ensures
        r.deep_view() == v.deep_view(),
{
    let mut r: Vec<RepoPath> = Vec::new();
    let mut i: usize = 0;
    while i < v.len()
        invariant
            i <= v@.len(),
            r.deep_view() == v.deep_view().take(i as int),
        decreases v@.len() - i,
    {
        let ghost before = r.deep_view();
        r.push(v[i].clone());
        assert(r.deep_view() =~= before.push(v@[i as int]@));
        assert(v.deep_view().take(i + 1) =~= v.deep_view().take(i as int).push(v@[i as int]@));
        i = i + 1;
    }
    assert(v.deep_view().take(v@.len() as int) == v.deep_view());
    r
}

} // verus!
