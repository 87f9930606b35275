//! Planning an uncommit or a message edit over the Editable range.
use vstd::prelude::*;

use crate::host::grows;

use crate::host::Host;

use crate::git::GitRunner;
use crate::map::{map_of, MapValue, PathMap};
use crate::text::starts_with_spec;

use super::errors::RewriteError;
use super::model::{
    CommitMetadataView, CommitRewrite, EditMessageRequest, ObjectId, RepoPath,
    RewriteAction, RewriteOperation, RewritePlan, TreeEntry, TreeEntryView, UncommitRequest,
};
use super::objects::{self, tree_of_commit, CommitObject, TreeSnapshot};
use super::preflight;

verus! {

broadcast use crate::host::lemma_grows_chain, crate::host::lemma_grows_none, crate::host::lemma_grows_trace,
    crate::host::lemma_grows_reply;

struct MessageEdit {
    target: ObjectId,
    message: Vec<u8>,
}

/// `tree` with every path of `edits` set to its Base entry, or taken out when
/// Base has none.
pub open spec fn overlay(
    tree: Map<Seq<char>, TreeEntryView>,
    edits: Map<Seq<char>, Option<TreeEntryView>>,
) -> Map<Seq<char>, TreeEntryView> {
    Map::new(
        |k: Seq<char>|
            if edits.dom().contains(k) {
                edits[k] is Some
            } else {
                tree.dom().contains(k)
            },
        |k: Seq<char>|
            if edits.dom().contains(k) {
                edits[k]->0
            } else {
                tree[k]
            },
    )
}

/// The Base entry of each selected path, or `None` where Base has no such path.
pub open spec fn base_entries_spec(
    tree: Map<Seq<char>, TreeEntryView>,
    paths: Seq<Seq<char>>,
) -> Map<Seq<char>, Option<TreeEntryView>> {
    Map::new(
        |k: Seq<char>| paths.contains(k),
        |k: Seq<char>|
            if tree.dom().contains(k) {
                Some(tree[k])
            } else {
                None
            },
    )
}

/// The ids of the commits a plan leaves out, in order.
pub open spec fn dropped_spec(commits: Seq<CommitRewrite>) -> Seq<Seq<char>>
    decreases commits.len(),
{
    if commits.len() == 0 {
        Seq::empty()
    } else if commits.last().action == RewriteAction::Drop {
        dropped_spec(commits.drop_last()).push(commits.last().source@)
    } else {
        dropped_spec(commits.drop_last())
    }
}

pub(crate) fn create<R: GitRunner>(runner: &mut Host<R>, request: UncommitRequest) -> (r: Result<
    RewritePlan,
    RewriteError,
>)
    ensures
        r matches Ok(plan) ==> forall|i: int|
            0 <= i < plan.commits@.len() ==> drop_decided(
                *final(runner),
                old(runner).trace().len() as int,
                #[trigger] plan.commits@[i],
                plan.base_entries.map(),
            ),
        grows(*old(runner), *final(runner)),
        (request.paths@.len() == 0 || !starts_with_spec(request.base@, "refs/remotes/"@)) ==> final(runner).trace() == old(runner).trace(),
        request.paths@.len() == 0 ==> (r matches Err(RewriteError::InvalidState(m)) && m@
            == "at least one path is required"@),
        request.paths@.len() > 0 && !starts_with_spec(request.base@, "refs/remotes/"@) ==> (r matches Err(
            RewriteError::InvalidState(m),
        ) && m@ == "Base must be a remote-tracking ref"@),
        r matches Ok(plan) ==> crate::rewrite::preflight::range_listed(
            *final(runner),
            old(runner).trace().len() as int,
            plan.source_head@,
            plan.base@,
            sources_of(plan.commits@),
        ),
        r matches Ok(plan) ==> {
            &&& plan.operation == RewriteOperation::Uncommit
            &&& plan.base_ref@ == request.base@
            &&& plan.selected_paths.deep_view() == request.paths.deep_view()
            &&& plan.base_entries.map().dom() == request.paths.deep_view().to_set()
            &&& plan.commits@.len() > 0
            &&& plan.dropped_commits.deep_view() == dropped_spec(plan.commits@)
        },
{
    match validate_request(&request) {
        Ok(()) => {},
        Err(e) => return Err(e),
    }
    let state = match preflight::inspect(runner, &request.base) {
        Ok(s) => s,
        Err(e) => return Err(e),
    };
    let base_tree = match objects::read_tree(runner, &state.base) {
        Ok(t) => t,
        Err(e) => return Err(e),
    };
    let base_entries = select_base_entries(&base_tree, &request.paths);
    let ghost from = runner.trace().len() as int;
    let ghost inspected = *runner;
    let commits = match build_commits(runner, &state.commits, &base_entries) {
        Ok(c) => c,
        Err(e) => return Err(e),
    };
    let dropped_commits = dropped_of(&commits);
    proof {
        crate::rewrite::preflight::lemma_range_listed_grows(
            inspected,
            *runner,
            old(runner).trace().len() as int,
            state.head@,
            state.base@,
            state.commits.deep_view(),
        );
        assert(sources_of(commits@) =~= state.commits.deep_view());
        assert forall|i: int| 0 <= i < commits@.len() implies drop_decided(
            *runner,
            old(runner).trace().len() as int,
            #[trigger] commits@[i],
            base_entries.map(),
        ) by {
            lemma_drop_decided_from(*runner, old(runner).trace().len() as int, from, commits@[i], base_entries.map());
        }
        assert forall|k: Seq<char>| #![auto]
            base_entries.map().dom().contains(k) == request.paths.deep_view().to_set().contains(k) by {}
        assert(base_entries.map().dom() =~= request.paths.deep_view().to_set());
    }
    Ok(
        RewritePlan {
            operation: RewriteOperation::Uncommit,
            branch: state.branch,
            base_ref: request.base,
            source_head: state.head,
            base: state.base,
            selected_paths: request.paths,
            base_entries,
            commits,
            dropped_commits,
        },
    )
}

pub(crate) fn create_edit_message<R: GitRunner>(runner: &mut Host<R>, request: EditMessageRequest) -> (r: Result<
    RewritePlan,
    RewriteError,
>)
    ensures
        r matches Ok(plan) ==> exists|t: Seq<char>|
            #[trigger] target_resolved(*final(runner), old(runner).trace().len() as int, request.commit@, t)
                && (exists|i: int| 0 <= i < plan.commits@.len() && #[trigger] plan.commits@[i].source@ == t)
                && forall|i: int|
                0 <= i < plan.commits@.len() ==> message_decided(
                    *final(runner),
                    old(runner).trace().len() as int,
                    #[trigger] plan.commits@[i],
                    t,
                    request.message@,
                ),
        grows(*old(runner), *final(runner)),
        !starts_with_spec(request.base@, "refs/remotes/"@) ==> final(runner).trace() == old(runner).trace(),
        !starts_with_spec(request.base@, "refs/remotes/"@) ==> (r matches Err(
            RewriteError::InvalidState(m),
        ) && m@ == "Base must be a remote-tracking ref"@),
        r matches Ok(plan) ==> crate::rewrite::preflight::range_listed(
            *final(runner),
            old(runner).trace().len() as int,
            plan.source_head@,
            plan.base@,
            sources_of(plan.commits@),
        ),
        r matches Ok(plan) ==> {
            &&& plan.operation == RewriteOperation::EditMessage
            &&& plan.base_ref@ == request.base@
            &&& plan.selected_paths@.len() == 0
            &&& plan.base_entries.map() == Map::<Seq<char>, Option<TreeEntryView>>::empty()
            &&& plan.commits@.len() > 0
            &&& plan.dropped_commits@.len() == 0
            &&& forall|i: int| 0 <= i < plan.commits@.len() ==> #[trigger] plan.commits@[i].action
                == RewriteAction::Rebuild
        },
{
    let state = match preflight::inspect(runner, &request.base) {
        Ok(s) => s,
        Err(e) => return Err(e),
    };
    let ghost kr = runner.trace().len() as int;
    let target = match preflight::resolve_commit(runner, &request.commit) {
        Ok(t) => t,
        Err(e) => return Err(e),
    };
    let ghost h1 = *runner;
    match ensure_editable_target(&state.commits, &target) {
        Ok(()) => {},
        Err(e) => return Err(e),
    }
    let ghost message = request.message@;
    let edit = MessageEdit { target, message: request.message };
    let ghost from2 = runner.trace().len() as int;
    let commits = match build_message_commits(runner, &state.commits, &edit) {
        Ok(c) => c,
        Err(e) => return Err(e),
    };
    proof {
        crate::rewrite::preflight::lemma_range_listed_grows(
            h1,
            *runner,
            old(runner).trace().len() as int,
            state.head@,
            state.base@,
            state.commits.deep_view(),
        );
        assert(sources_of(commits@) =~= state.commits.deep_view());
        let t = edit.target@;
        assert(runner.trace()[kr] == h1.trace()[kr]);
        assert(runner.reply(kr) == h1.reply(kr));
        assert(target_resolved(*runner, old(runner).trace().len() as int, request.commit@, t));
        let j = choose|j: int| 0 <= j < state.commits@.len() && state.commits.deep_view()[j] == t;
        assert(commits@[j].source@ == t);
        assert forall|i: int| 0 <= i < commits@.len() implies message_decided(
            *runner,
            old(runner).trace().len() as int,
            #[trigger] commits@[i],
            t,
            message,
        ) by {
            let k = choose|k: int|
                0 <= from2 <= k < runner.trace().len() && #[trigger] runner.trace()[k] == objects::cat_file_effect(commits@[i].source@) && (runner.reply(k) matches Some(o)
                    && objects::commit_spec(o) matches Some(cv) && commits@[i].source_tree@ == cv.tree && commits@[i].metadata@ == (if commits@[i].source@
                    == t {
                    CommitMetadataView { message, ..cv.metadata }
                } else {
                    cv.metadata
                }));
            assert(old(runner).trace().len() <= k);
        }
    }
    Ok(
        RewritePlan {
            operation: RewriteOperation::EditMessage,
            branch: state.branch,
            base_ref: request.base,
            source_head: state.head,
            base: state.base,
            selected_paths: Vec::new(),
            base_entries: PathMap::new(),
            commits,
            dropped_commits: Vec::new(),
        },
    )
}

fn validate_request(request: &UncommitRequest) -> (r: Result<(), RewriteError>)
    ensures
        r is Ok <==> request.paths@.len() > 0,
        r matches Err(e) ==> e matches RewriteError::InvalidState(m) && m@
            == "at least one path is required"@,
{
    if request.paths.len() == 0 {
        return Err(RewriteError::InvalidState(String::from_str("at least one path is required")));
    }
    Ok(())
}

/// A message edit may only name a commit of the Editable range.
pub fn ensure_editable_target(commits: &Vec<ObjectId>, target: &ObjectId) -> (r: Result<
    (),
    RewriteError,
>)
    ensures
        r is Ok <==> commits.deep_view().contains(target@),
        r matches Err(e) ==> e matches RewriteError::InvalidState(m) && m@
            == "Commit is outside the Editable range"@,
{
    let mut i: usize = 0;
    while i < commits.len()
        invariant
            i <= commits@.len(),
            forall|j: int| 0 <= j < i ==> commits@[j]@ != target@,
        decreases commits@.len() - i,
    {
        if commits[i].same(target) {
            assert(commits.deep_view()[i as int] == target@);
            return Ok(());
        }
        i = i + 1;
    }
    assert(!commits.deep_view().contains(target@));
    Err(
        RewriteError::InvalidState(String::from_str("Commit is outside the Editable range")),
    )
}

/// The Base entry of every selected path.
pub fn select_base_entries(tree: &TreeSnapshot, paths: &Vec<RepoPath>) -> (r: PathMap<
    Option<TreeEntry>,
>)
    ensures
        r.map() == base_entries_spec(tree.map(), paths.deep_view()),
{
    let mut r: PathMap<Option<TreeEntry>> = PathMap::new();
    let mut i: usize = 0;
    while i < paths.len()
        invariant
            i <= paths@.len(),
            r.map() == base_entries_spec(tree.map(), paths.deep_view().take(i as int)),
        decreases paths@.len() - i,
    {
        let path = paths[i].as_str();
        let entry = match tree.get(path) {
            Some(e) => Some(e.duplicate()),
            None => None,
        };
        let ghost before = r.map();
        r.insert(String::from_str(path), entry);
        proof {
            let prev = paths.deep_view().take(i as int);
            let next = paths.deep_view().take(i + 1);
            assert(next == prev.push(paths@[i as int]@));
            assert forall|k: Seq<char>| #![auto] next.contains(k) == (prev.contains(k) || k
                == paths@[i as int]@) by {
                if next.contains(k) {
                    let j = choose|j: int| 0 <= j < next.len() && next[j] == k;
                    if j < prev.len() {
                        assert(prev[j] == k);
                    }
                }
                if prev.contains(k) {
                    let j = choose|j: int| 0 <= j < prev.len() && prev[j] == k;
                    assert(next[j] == k);
                }
                if k == paths@[i as int]@ {
                    assert(next[i as int] == k);
                }
            }
            assert(r.map() =~= base_entries_spec(tree.map(), next));
        }
        i = i + 1;
    }
    assert(paths.deep_view().take(paths@.len() as int) == paths.deep_view());
    r
}

/// `tree` with the selected paths set back to Base.
pub fn apply_edits(tree: TreeSnapshot, base_entries: &PathMap<Option<TreeEntry>>) -> (r:
    TreeSnapshot)
    ensures
        r.map() == overlay(tree.map(), base_entries.map()),
{
    let ghost original = tree.map();
    let mut tree = tree;
    let mut i: usize = 0;
    assert(overlay(original, map_of(base_entries.listing().take(0))) =~= original);
    while i < base_entries.len()
        invariant
            i <= base_entries.listing().len(),
            tree.map() == overlay(original, map_of(base_entries.listing().take(i as int))),
        decreases base_entries.listing().len() - i,
    {
        let path = base_entries.key_at(i);
        let entry = base_entries.value_at(i);
        let ghost edits = map_of(base_entries.listing().take(i as int));
        assert(base_entries.listing().take(i + 1).drop_last() == base_entries.listing().take(
            i as int,
        ));
        match entry {
            Some(e) => {
                tree.insert(path.clone(), e.duplicate());
            },
            None => {
                tree.remove(path.as_str());
            },
        }
        assert(tree.map() =~= overlay(original, map_of(base_entries.listing().take(i + 1))));
        i = i + 1;
    }
    assert(base_entries.listing().take(base_entries.listing().len() as int)
        == base_entries.listing());
    tree
}

/// A commit whose tree, once edited, equals its edited parent's has nothing left and is dropped.
pub fn rewrite_action(edited: &TreeSnapshot, parent: &TreeSnapshot) -> (r: RewriteAction)
    ensures
        r == RewriteAction::Drop <==> edited.map() == parent.map(),
{
    if edited.same_as(parent) {
        RewriteAction::Drop
    } else {
        RewriteAction::Rebuild
    }
}

/// The plan entry for one commit: its tree, its parents split into the first
/// and the others, its metadata, and what becomes of it.
pub fn commit_rewrite(source: &ObjectId, commit: CommitObject, action: RewriteAction) -> (r:
    CommitRewrite)
    ensures
        r.source@ == source@,
        r.source_tree@ == commit.tree@,
        commit.parents@.len() == 0 ==> r.first_parent is None,
        commit.parents@.len() > 0 ==> (r.first_parent matches Some(p) && p@ == commit.parents@[0]@),
        commit.parents@.len() > 0 ==> r.additional_parents.deep_view()
            == commit.parents.deep_view().skip(1),
        commit.parents@.len() == 0 ==> r.additional_parents@.len() == 0,
        r.metadata@ == commit.metadata@,
        r.action == action,
{
    let mut parents = commit.parents;
    let ghost all = parents.deep_view();
    let first_parent = if parents.len() > 0 {
        Some(parents.remove(0))
    } else {
        None
    };
    proof {
        if all.len() > 0 {
            assert(parents.deep_view() =~= all.skip(1));
        }
    }
    CommitRewrite {
        source: source.clone(),
        source_tree: commit.tree,
        first_parent,
        additional_parents: parents,
        metadata: commit.metadata,
        action,
    }
}

/// The plan entry of a message edit: the target gets the new message, every
/// commit is rebuilt.
fn edited_message_commit(source: &ObjectId, commit: CommitObject, edit: &MessageEdit) -> (r:
    CommitRewrite)
    ensures
        r.source@ == source@,
        r.source_tree@ == commit.tree@,
        r.action == RewriteAction::Rebuild,
        source@ == edit.target@ ==> r.metadata@ == (CommitMetadataView {
            message: edit.message@,
            ..commit.metadata@
        }),
        source@ != edit.target@ ==> r.metadata@ == commit.metadata@,
{
    let mut commit = commit;
    if source.same(&edit.target) {
        commit.metadata.message = edit.message.clone();
    }
    commit_rewrite(source, commit, RewriteAction::Rebuild)
}

/// The parent tree a commit is compared with, as read from index `from` on:
/// empty for a root commit, else the first parent's tree as Git printed it,
/// with the Base entries written over it.
pub open spec fn parent_edited<R: GitRunner>(
    h: Host<R>,
    from: int,
    first_parent: Option<Seq<char>>,
    edits: Map<Seq<char>, Option<TreeEntryView>>,
    parent: Map<Seq<char>, TreeEntryView>,
) -> bool {
    match first_parent {
        None => parent == Map::<Seq<char>, TreeEntryView>::empty(),
        Some(p) => exists|t: Map<Seq<char>, TreeEntryView>|
            tree_of_commit(h, from, p, t) && parent == #[trigger] overlay(t, edits),
    }
}

/// The first parent of a planned commit, as a plain value.
/// The commits a plan rebuilds, by their ids before the rewrite.
pub open spec fn sources_of(commits: Seq<CommitRewrite>) -> Seq<Seq<char>> {
    Seq::new(commits.len(), |i: int| commits[i].source@)
}

pub open spec fn first_parent_of(c: CommitRewrite) -> Option<Seq<char>> {
    match c.first_parent {
        Some(p) => Some(p@),
        None => None,
    }
}

/// A planned commit is dropped exactly when its tree as Git printed it, with
/// the Base entries written over it, equals its parent's tree edited the same
/// way: taking the paths back to Base leaves the commit with nothing to do.
pub open spec fn drop_decided<R: GitRunner>(h: Host<R>, from: int, c: CommitRewrite, edits: Map<Seq<char>, Option<TreeEntryView>>) -> bool {
    exists|t: Map<Seq<char>, TreeEntryView>, parent: Map<Seq<char>, TreeEntryView>|
        #![trigger tree_of_commit(h, from, c.source@, t), parent_edited(h, from, first_parent_of(c), edits, parent)]
        tree_of_commit(h, from, c.source@, t) && parent_edited(h, from, first_parent_of(c), edits, parent)
            && (c.action == RewriteAction::Drop <==> overlay(t, edits) == parent)
}

proof fn lemma_tree_of_commit_from<R: GitRunner>(h: Host<R>, from: int, later: int, id: Seq<char>, tree: Map<Seq<char>, TreeEntryView>)
    requires
        tree_of_commit(h, later, id, tree),
        0 <= from <= later,
    ensures
        tree_of_commit(h, from, id, tree),
{
    let (k1, k2) = choose|k1: int, k2: int|
        #![trigger h.trace()[k1], h.trace()[k2]]
        0 <= later <= k1 < k2 < h.trace().len() && h.trace()[k1] == objects::cat_file_effect(id) && (h.reply(k1) matches Some(o1)
            && objects::commit_spec(o1) matches Some(c) && h.trace()[k2] == objects::ls_tree_effect(c.tree) && (h.reply(k2) matches Some(o2)
            && objects::tree_spec(o2) == Some(tree)));
    assert(from <= k1);
}

proof fn lemma_parent_edited_grows<R: GitRunner>(
    h: Host<R>,
    h2: Host<R>,
    from: int,
    first_parent: Option<Seq<char>>,
    edits: Map<Seq<char>, Option<TreeEntryView>>,
    parent: Map<Seq<char>, TreeEntryView>,
)
    requires
        parent_edited(h, from, first_parent, edits, parent),
        grows(h, h2),
    ensures
        parent_edited(h2, from, first_parent, edits, parent),
{
    if let Some(p) = first_parent {
        let t = choose|t: Map<Seq<char>, TreeEntryView>| tree_of_commit(h, from, p, t) && parent == #[trigger] overlay(t, edits);
        objects::lemma_tree_of_commit_grows(h, h2, from, p, t);
    }
}

proof fn lemma_drop_decided_grows<R: GitRunner>(h: Host<R>, h2: Host<R>, from: int, c: CommitRewrite, edits: Map<Seq<char>, Option<TreeEntryView>>)
    requires
        drop_decided(h, from, c, edits),
        grows(h, h2),
    ensures
        drop_decided(h2, from, c, edits),
{
    let (t, parent) = choose|t: Map<Seq<char>, TreeEntryView>, parent: Map<Seq<char>, TreeEntryView>|
        #![trigger tree_of_commit(h, from, c.source@, t), parent_edited(h, from, first_parent_of(c), edits, parent)]
        tree_of_commit(h, from, c.source@, t) && parent_edited(h, from, first_parent_of(c), edits, parent)
            && (c.action == RewriteAction::Drop <==> overlay(t, edits) == parent);
    objects::lemma_tree_of_commit_grows(h, h2, from, c.source@, t);
    lemma_parent_edited_grows(h, h2, from, first_parent_of(c), edits, parent);
}

proof fn lemma_drop_decided_from<R: GitRunner>(h: Host<R>, from: int, later: int, c: CommitRewrite, edits: Map<Seq<char>, Option<TreeEntryView>>)
    requires
        drop_decided(h, later, c, edits),
        0 <= from <= later,
    ensures
        drop_decided(h, from, c, edits),
{
    let (t, parent) = choose|t: Map<Seq<char>, TreeEntryView>, parent: Map<Seq<char>, TreeEntryView>|
        #![trigger tree_of_commit(h, later, c.source@, t), parent_edited(h, later, first_parent_of(c), edits, parent)]
        tree_of_commit(h, later, c.source@, t) && parent_edited(h, later, first_parent_of(c), edits, parent)
            && (c.action == RewriteAction::Drop <==> overlay(t, edits) == parent);
    lemma_tree_of_commit_from(h, from, later, c.source@, t);
    if let Some(p) = first_parent_of(c) {
        let tp = choose|tp: Map<Seq<char>, TreeEntryView>| tree_of_commit(h, later, p, tp) && parent == #[trigger] overlay(tp, edits);
        lemma_tree_of_commit_from(h, from, later, p, tp);
        assert(parent_edited(h, from, first_parent_of(c), edits, parent));
    }
    assert(tree_of_commit(h, from, c.source@, t) && parent_edited(h, from, first_parent_of(c), edits, parent));
}

fn build_commits<R: GitRunner>(
    runner: &mut Host<R>,
    sources: &Vec<ObjectId>,
    base_entries: &PathMap<Option<TreeEntry>>,
) -> (r: Result<Vec<CommitRewrite>, RewriteError>)
    ensures
        grows(*old(runner), *final(runner)),
        sources@.len() == 0 ==> (r matches Ok(v) && v@.len() == 0),
        r matches Ok(v) ==> v@.len() == sources@.len() && forall|i: int|
            0 <= i < v@.len() ==> #[trigger] v@[i].source@ == sources@[i]@,
        r matches Ok(v) ==> forall|i: int|
            0 <= i < v@.len() ==> drop_decided(
                *final(runner),
                old(runner).trace().len() as int,
                #[trigger] v@[i],
                base_entries.map(),
            ),
{
    let ghost from = runner.trace().len() as int;
    let ghost edits = base_entries.map();
    let mut effective: PathMap<TreeSnapshot> = PathMap::new();
    let mut result: Vec<CommitRewrite> = Vec::new();
    let mut i: usize = 0;
    while i < sources.len()
        invariant
            grows(*old(runner), *runner),
            from == old(runner).trace().len(),
            edits == base_entries.map(),
            i <= sources@.len(),
            result@.len() == i,
            forall|j: int| 0 <= j < i ==> #[trigger] result@[j].source@ == sources@[j]@,
            forall|j: int| 0 <= j < i ==> drop_decided(*runner, from, #[trigger] result@[j], edits),
            forall|key: Seq<char>|
                #[trigger] effective.map().dom().contains(key) ==> exists|t: Map<Seq<char>, TreeEntryView>|
                    tree_of_commit(*runner, from, key, t) && effective.map()[key] == #[trigger] overlay(t, edits),
        decreases sources@.len() - i,
    {
        let ghost h0 = *runner;
        let source = &sources[i];
        let ghost k1 = runner.trace().len() as int;
        let commit = match objects::read_commit(runner, source) {
            Ok(c) => c,
            Err(e) => return Err(e),
        };
        let ghost h1 = *runner;
        let source_tree = match objects::read_tree(runner, &commit.tree) {
            Ok(t) => t,
            Err(e) => return Err(e),
        };
        let ghost h2 = *runner;
        let ghost t_i = source_tree.map();
        proof {
            assert(h2.trace()[k1] == h1.trace()[k1]);
            assert(h2.reply(k1) == h1.reply(k1));
            assert(h2.trace()[k1 + 1] == objects::ls_tree_effect(commit.tree@));
            assert(tree_of_commit(h2, from, source@, t_i));
        }
        let edited_tree = apply_edits(source_tree, base_entries);
        let parent_tree = match parent_snapshot(runner, &commit.parents, &effective, base_entries) {
            Ok(t) => t,
            Err(e) => return Err(e),
        };
        let ghost h3 = *runner;
        let action = rewrite_action(&edited_tree, &parent_tree);
        let ghost edited_map = edited_tree.map();
        let entry = commit_rewrite(source, commit, action);
        proof {
            objects::lemma_tree_of_commit_grows(h2, h3, from, source@, t_i);
            let fp = first_parent_of(entry);
            if commit.parents@.len() > 0 {
                let p = commit.parents@[0]@;
                assert(fp == Some(p));
                if effective.map().dom().contains(p) {
                    let t = choose|t: Map<Seq<char>, TreeEntryView>|
                        tree_of_commit(h0, from, p, t) && effective.map()[p] == #[trigger] overlay(t, edits);
                    objects::lemma_tree_of_commit_grows(h0, h3, from, p, t);
                    assert(parent_edited(h3, from, fp, edits, parent_tree.map()));
                } else {
                    let t = choose|t: Map<Seq<char>, TreeEntryView>|
                        tree_of_commit(h3, h2.trace().len() as int, p, t) && parent_tree.map() == #[trigger] overlay(t, edits);
                    lemma_tree_of_commit_from(h3, from, h2.trace().len() as int, p, t);
                    assert(parent_edited(h3, from, fp, edits, parent_tree.map()));
                }
            } else {
                assert(fp is None);
                assert(parent_edited(h3, from, fp, edits, parent_tree.map()));
            }
            assert(entry.source@ == source@);
            assert(tree_of_commit(h3, from, entry.source@, t_i));
            assert(edited_map == overlay(t_i, edits));
            assert(entry.action == RewriteAction::Drop <==> overlay(t_i, edits) == parent_tree.map());
            assert(drop_decided(h3, from, entry, edits));
            assert forall|j: int| 0 <= j < i implies drop_decided(h3, from, #[trigger] result@[j], edits) by {
                lemma_drop_decided_grows(h0, h3, from, result@[j], edits);
            }
        }
        let ghost eff0 = effective.map();
        effective.insert(String::from_str(source.as_str()), edited_tree);
        proof {
            assert forall|key: Seq<char>|
                #[trigger] effective.map().dom().contains(key) implies exists|t: Map<Seq<char>, TreeEntryView>|
                    tree_of_commit(h3, from, key, t) && effective.map()[key] == #[trigger] overlay(t, edits) by {
                if key == source@ {
                    assert(effective.map()[key] == edited_map);
                    assert(tree_of_commit(h3, from, key, t_i));
                } else {
                    assert(eff0.dom().contains(key));
                    let t = choose|t: Map<Seq<char>, TreeEntryView>|
                        tree_of_commit(h0, from, key, t) && eff0[key] == #[trigger] overlay(t, edits);
                    objects::lemma_tree_of_commit_grows(h0, h3, from, key, t);
                    assert(effective.map()[key] == eff0[key]);
                }
            }
        }
        result.push(entry);
        i = i + 1;
    }
    Ok(result)
}

fn build_message_commits<R: GitRunner>(
    runner: &mut Host<R>,
    sources: &Vec<ObjectId>,
    edit: &MessageEdit,
) -> (r: Result<Vec<CommitRewrite>, RewriteError>)
    ensures
        r matches Ok(v) ==> forall|i: int| 0 <= i < v@.len() ==> message_decided(*final(runner), old(runner).trace().len() as int, #[trigger] v@[i], edit.target@, edit.message@),
        grows(*old(runner), *final(runner)),
        sources@.len() == 0 ==> (r matches Ok(v) && v@.len() == 0),
        r matches Ok(v) ==> v@.len() == sources@.len(),
        r matches Ok(v) ==> forall|i: int| 0 <= i < v@.len() ==> #[trigger] v@[i].source@ == sources@[i]@,
        r matches Ok(v) ==> forall|i: int| 0 <= i < v@.len() ==> #[trigger] v@[i].action == RewriteAction::Rebuild,
{
    let ghost from = runner.trace().len() as int;
    let mut result: Vec<CommitRewrite> = Vec::new();
    let mut i: usize = 0;
    while i < sources.len()
        invariant
            grows(*old(runner), *runner),
            from == old(runner).trace().len(),
            i <= sources@.len(),
            result@.len() == i,
            forall|j: int| 0 <= j < i ==> #[trigger] result@[j].source@ == sources@[j]@,
            forall|j: int| 0 <= j < i ==> #[trigger] result@[j].action == RewriteAction::Rebuild,
            forall|j: int| 0 <= j < i ==> message_decided(*runner, from, #[trigger] result@[j], edit.target@, edit.message@),
        decreases sources@.len() - i,
    {
        let ghost h0 = *runner;
        let ghost before = result@;
        match message_commit(runner, &sources[i], edit) {
            Ok(c) => {
                proof {
                    assert forall|j: int| 0 <= j < i implies message_decided(*runner, from, #[trigger] before[j], edit.target@, edit.message@) by {
                        lemma_message_decided_grows(h0, *runner, from, before[j], edit.target@, edit.message@);
                    }
                    let k = choose|k: int|
                        0 <= h0.trace().len() <= k < runner.trace().len() && #[trigger] runner.trace()[k] == objects::cat_file_effect(c.source@) && (runner.reply(k) matches Some(o)
                            && objects::commit_spec(o) matches Some(cv) && c.source_tree@ == cv.tree && c.metadata@ == (if c.source@
                            == edit.target@ {
                            CommitMetadataView { message: edit.message@, ..cv.metadata }
                        } else {
                            cv.metadata
                        }));
                    assert(from <= k);
                }
                result.push(c);
                assert(result@[i as int].source@ == sources@[i as int]@);
                assert(forall|j: int| 0 <= j < i ==> result@[j] == before[j]);
            },
            Err(e) => return Err(e),
        }
        i = i + 1;
    }
    Ok(result)
}

/// From index `from` on, Git printed commit `c.source`, and `c` keeps its tree
/// and metadata, except that the commit `target` takes `message`.
pub open spec fn message_decided<R: GitRunner>(h: Host<R>, from: int, c: CommitRewrite, target: Seq<char>, message: Seq<u8>) -> bool {
    exists|k: int|
        0 <= from <= k < h.trace().len() && #[trigger] h.trace()[k] == objects::cat_file_effect(c.source@) && (h.reply(k) matches Some(o)
            && objects::commit_spec(o) matches Some(cv) && c.source_tree@ == cv.tree && c.metadata@ == (if c.source@
            == target {
            CommitMetadataView { message, ..cv.metadata }
        } else {
            cv.metadata
        }))
}

/// From index `from` on, Git resolved `commit` to the full id `t`.
pub open spec fn target_resolved<R: GitRunner>(h: Host<R>, from: int, commit: Seq<char>, t: Seq<char>) -> bool {
    exists|k: int|
        0 <= from <= k < h.trace().len() && #[trigger] h.trace()[k] == preflight::resolve_commit_effect(commit)
            && (h.reply(k) matches Some(o) && preflight::id_printed(o, t))
}

proof fn lemma_message_decided_grows<R: GitRunner>(h: Host<R>, h2: Host<R>, from: int, c: CommitRewrite, target: Seq<char>, message: Seq<u8>)
    requires
        message_decided(h, from, c, target, message),
        grows(h, h2),
    ensures
        message_decided(h2, from, c, target, message),
{
    let k = choose|k: int|
        0 <= from <= k < h.trace().len() && #[trigger] h.trace()[k] == objects::cat_file_effect(c.source@) && (h.reply(k) matches Some(o)
            && objects::commit_spec(o) matches Some(cv) && c.source_tree@ == cv.tree && c.metadata@ == (if c.source@
            == target {
            CommitMetadataView { message, ..cv.metadata }
        } else {
            cv.metadata
        }));
    assert(h2.trace()[k] == h.trace()[k]);
    assert(h2.reply(k) == h.reply(k));
}

fn message_commit<R: GitRunner>(runner: &mut Host<R>, source: &ObjectId, edit: &MessageEdit) -> (r: Result<
    CommitRewrite,
    RewriteError,
>)
    ensures
        grows(*old(runner), *final(runner)),
        r matches Ok(c) ==> c.source@ == source@ && c.action == RewriteAction::Rebuild,
        r matches Ok(c) ==> message_decided(*final(runner), old(runner).trace().len() as int, c, edit.target@, edit.message@),
{
    let ghost k = runner.trace().len() as int;
    let commit = match objects::read_commit(runner, source) {
        Ok(c) => c,
        Err(e) => return Err(e),
    };
    let c = edited_message_commit(source, commit, edit);
    proof {
        assert(runner.trace()[k] == objects::cat_file_effect(c.source@));
    }
    Ok(c)
}

/// The edited tree of a commit's first parent: taken from `effective` when the
/// parent is itself in the range, else read and edited; empty for a root commit.
fn parent_snapshot<R: GitRunner>(
    runner: &mut Host<R>,
    parents: &Vec<ObjectId>,
    effective: &PathMap<TreeSnapshot>,
    base_entries: &PathMap<Option<TreeEntry>>,
) -> (r: Result<TreeSnapshot, RewriteError>)
    ensures
        r matches Ok(t) ==> parents@.len() > 0 && !effective.map().dom().contains(parents@[0]@) ==> exists|
            tree: Map<Seq<char>, TreeEntryView>,
        | tree_of_commit(*final(runner), old(runner).trace().len() as int, parents@[0]@, tree) && t.map()
            == #[trigger] overlay(tree, base_entries.map()),
        grows(*old(runner), *final(runner)),
        parents@.len() == 0 ==> (r matches Ok(t) && t.map() == Map::<
            Seq<char>,
            TreeEntryView,
        >::empty()),
        parents@.len() > 0 && effective.map().dom().contains(parents@[0]@) ==> (r matches Ok(t)
            && t.map() == effective.map()[parents@[0]@]),
        r matches Ok(t) ==> t.map() == overlay(t.map(), base_entries.map()) || parents@.len() == 0
            || effective.map().dom().contains(parents@[0]@),
{
    if parents.len() == 0 {
        return Ok(PathMap::new());
    }
    let parent = &parents[0];
    if let Some(snapshot) = effective.get(parent.as_str()) {
        return Ok(snapshot.duplicate());
    }
    let ghost from = runner.trace().len() as int;
    let commit = match objects::read_commit(runner, parent) {
        Ok(c) => c,
        Err(e) => return Err(e),
    };
    let ghost h1 = *runner;
    let tree = match objects::read_tree(runner, &commit.tree) {
        Ok(t) => t,
        Err(e) => return Err(e),
    };
    proof {
        let k1 = from;
        let k2 = from + 1;
        assert(runner.trace()[k1] == h1.trace()[k1]);
        assert(runner.reply(k1) == h1.reply(k1));
        assert(runner.trace()[k2] == objects::ls_tree_effect(commit.tree@));
        assert(tree_of_commit(*runner, from, parent@, tree.map()));
    }
    let edited = apply_edits(tree, base_entries);
    proof {
        assert(overlay(overlay(tree.map(), base_entries.map()), base_entries.map()) =~= overlay(
            tree.map(),
            base_entries.map(),
        ));
    }
    Ok(edited)
}

/// The ids of the commits marked `Drop`, in order.
pub fn dropped_of(commits: &Vec<CommitRewrite>) -> (r: Vec<ObjectId>)
    ensures
        r.deep_view() == dropped_spec(commits@),
{
    let mut r: Vec<ObjectId> = Vec::new();
    let mut i: usize = 0;
    while i < commits.len()
        invariant
            i <= commits@.len(),
            r.deep_view() == dropped_spec(commits@.take(i as int)),
        decreases commits@.len() - i,
    {
        assert(commits@.take(i + 1).drop_last() == commits@.take(i as int));
        if commits[i].action == RewriteAction::Drop {
            let ghost before = r.deep_view();
            r.push(commits[i].source.clone());
            assert(r.deep_view() =~= before.push(commits@[i as int].source@));
        }
        i = i + 1;
    }
    assert(commits@.take(commits@.len() as int) == commits@);
    r
}

} // verus!

verus! {

/// Uncommitting sets each selected path of a commit's tree to what Base has
/// there (absent where Base has nothing) and leaves every other path as it
/// was; doing it twice changes nothing more.
pub proof fn law_uncommit_restores_base_paths(
    tree: Map<Seq<char>, TreeEntryView>,
    base: Map<Seq<char>, TreeEntryView>,
    paths: Seq<Seq<char>>,
    k: Seq<char>,
)
    ensures
        ({
            let edited = overlay(tree, base_entries_spec(base, paths));
            &&& paths.contains(k) ==> (edited.dom().contains(k) <==> base.dom().contains(k))
            &&& paths.contains(k) && base.dom().contains(k) ==> edited[k] == base[k]
            &&& !paths.contains(k) ==> (edited.dom().contains(k) <==> tree.dom().contains(k))
            &&& !paths.contains(k) && tree.dom().contains(k) ==> edited[k] == tree[k]
            &&& overlay(edited, base_entries_spec(base, paths)) == edited
        }),
{
    let edits = base_entries_spec(base, paths);
    let edited = overlay(tree, edits);
    assert(overlay(edited, edits) =~= edited);
}

} // verus!
