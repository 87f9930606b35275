//! Writing the rewritten trees and commits of a plan.
use vstd::prelude::*;

use crate::host::grows;

use crate::host::{Effect, Host};

use crate::git::{args_of, command_args, env_of, push_arg, GitCommand, GitRunner};
use crate::map::{MapValue, PathMap};
use crate::text::{concat, concat3, decimal, decimal_spec, lemma_split_nonempty, split_bytes, split_spec, views};

use super::errors::ApplyError;
use super::model::{CommitRewrite, ObjectId, RewriteAction, RewritePlan, Signature, TreeEntry, TreeEntryView};

verus! {

broadcast use crate::host::lemma_grows_chain, crate::host::lemma_grows_none, crate::host::lemma_grows_trace,
    crate::host::lemma_grows_reply;

/// What a parent id becomes once the commits before it are rewritten.
pub open spec fn mapped(id: Seq<char>, rewritten: Map<Seq<char>, Seq<char>>) -> Seq<char> {
    if rewritten.dom().contains(id) {
        rewritten[id]
    } else {
        id
    }
}

pub open spec fn opt_id(o: Option<ObjectId>) -> Option<Seq<char>> {
    match o {
        Some(id) => Some(id@),
        None => None,
    }
}

/// `-p <parent>` for each of `parents`.
pub open spec fn parent_flags(parents: Seq<Seq<char>>) -> Seq<Seq<char>>
    decreases parents.len(),
{
    if parents.len() == 0 {
        Seq::empty()
    } else {
        parent_flags(parents.drop_last()).push("-p"@).push(parents.last())
    }
}

/// The arguments of `git commit-tree` for a rebuilt commit: its new tree, the
/// message on standard input, its first parent as rewritten, then its other parents.
pub open spec fn commit_args_spec(
    tree: Seq<char>,
    first_parent: Option<Seq<char>>,
    additional: Seq<Seq<char>>,
    rewritten: Map<Seq<char>, Seq<char>>,
) -> Seq<Seq<char>> {
    seq!["commit-tree"@, tree, "-F"@, "-"@] + match first_parent {
        Some(p) => seq!["-p"@, mapped(p, rewritten)],
        None => Seq::empty(),
    } + parent_flags(additional)
}

/// The environment that gives a rebuilt commit its original author and committer.
pub open spec fn signature_env(
    author: super::model::SignatureView,
    committer: super::model::SignatureView,
) -> Seq<(Seq<char>, Seq<char>)> {
    seq![
        ("GIT_AUTHOR_NAME"@, author.name),
        ("GIT_AUTHOR_EMAIL"@, author.email),
        ("GIT_AUTHOR_DATE"@, author.date),
        ("GIT_COMMITTER_NAME"@, committer.name),
        ("GIT_COMMITTER_EMAIL"@, committer.email),
        ("GIT_COMMITTER_DATE"@, committer.date),
    ]
}

pub(crate) fn build_history<R: GitRunner>(runner: &mut Host<R>, plan: &RewritePlan, index: &str) -> (r: Result<
    ObjectId,
    ApplyError,
>)
    ensures
        grows(*old(runner), *final(runner)),
        r matches Err(e) ==> !(e is StalePlan),
        plan.commits@.len() == 0 ==> r is Err,
{
    let mut rewritten: PathMap<ObjectId> = PathMap::new();
    let mut i: usize = 0;
    while i < plan.commits.len()
        invariant
            grows(*old(runner), *runner),
            i <= plan.commits@.len(),
            forall|j: int|
                0 <= j < i ==> rewritten.map().dom().contains(#[trigger] plan.commits@[j].source@),
        decreases plan.commits@.len() - i,
    {
        let commit = &plan.commits[i];
        let tree = match rewrite_tree(runner, plan, commit, index) {
            Ok(t) => t,
            Err(e) => return Err(e),
        };
        let mapped = match commit_with_tree(runner, commit, tree, &rewritten) {
            Ok(m) => m,
            Err(e) => return Err(e),
        };
        rewritten.insert(String::from_str(commit.source.as_str()), mapped);
        i = i + 1;
    }
    if plan.commits.len() == 0 {
        return Err(ApplyError::InvalidPlan(String::from_str("missing final commit")));
    }
    let last = &plan.commits[plan.commits.len() - 1];
    match rewritten.get(last.source.as_str()) {
        Some(id) => Ok(id.clone()),
        None => Err(ApplyError::InvalidPlan(String::from_str("final commit was not materialized"))),
    }
}

/// The `update-index` command for one Base entry: add it, or remove the path.
pub open spec fn update_effect(path: Seq<char>, entry: Option<TreeEntryView>) -> Effect {
    Effect::Run {
        args: match entry {
            Some(e) => seq!["update-index"@, "--add"@, "--cacheinfo"@, e.mode, e.object, path],
            None => seq!["update-index"@, "--force-remove"@, "--"@, path],
        },
        writes: true,
    }
}

/// The commands that build one commit's tree: read its source tree, write
/// each Base entry over it in path order, then write the tree.
pub open spec fn tree_effects(source_tree: Seq<char>, entries: Seq<(Seq<char>, Option<TreeEntryView>)>) -> Seq<Effect> {
    seq![Effect::Run { args: seq!["read-tree"@, source_tree], writes: true }] + Seq::new(
        entries.len(),
        |i: int| update_effect(entries[i].0, entries[i].1),
    ) + seq![Effect::Run { args: seq!["write-tree"@], writes: true }]
}

/// Builds the tree of one commit in a private index: its source tree with the
/// plan's Base entries written over it.
fn rewrite_tree<R: GitRunner>(
    runner: &mut Host<R>,
    plan: &RewritePlan,
    commit: &CommitRewrite,
    index: &str,
) -> (r: Result<ObjectId, ApplyError>)
    ensures
        grows(*old(runner), *final(runner)),
        r matches Err(e) ==> !(e is StalePlan),
        r matches Ok(id) ==> crate::rewrite::model::valid_object_id(id@),
        r is Ok ==> final(runner).trace() == old(runner).trace() + tree_effects(
            commit.source_tree@,
            plan.base_entries.listing(),
        ),
        r matches Err(e) ==> e is Git || e is InvalidPlan,
{
    let ghost start = runner.trace();
    let ghost entries = plan.base_entries.listing();
    let mut read_args = command_args(&["read-tree"]);
    push_arg(&mut read_args, commit.source_tree.as_str());
    assert(read_args.deep_view() =~= seq!["read-tree"@, commit.source_tree@]);
    let read = GitCommand::write(read_args).with_environment(
        String::from_str("GIT_INDEX_FILE"),
        String::from_str(index),
    );
    match runner.run_unlocked(&read) {
        Ok(_) => {},
        Err(e) => return Err(ApplyError::Git(e)),
    }
    let mut i: usize = 0;
    while i < plan.base_entries.len()
        invariant
            grows(*old(runner), *runner),
            entries == plan.base_entries.listing(),
            i <= entries.len(),
            runner.trace() == start + seq![
                Effect::Run { args: seq!["read-tree"@, commit.source_tree@], writes: true },
            ] + Seq::new(i as nat, |k: int| update_effect(entries[k].0, entries[k].1)),
        decreases plan.base_entries.listing().len() - i,
    {
        let path = plan.base_entries.key_at(i);
        let entry = plan.base_entries.value_at(i);
        let ghost before = runner.trace();
        match update_index(runner, path.as_str(), entry, index) {
            Ok(()) => {},
            Err(e) => return Err(e),
        }
        assert(Seq::new((i + 1) as nat, |k: int| update_effect(entries[k].0, entries[k].1)) =~= Seq::new(
            i as nat,
            |k: int| update_effect(entries[k].0, entries[k].1),
        ).push(update_effect(entries[i as int].0, entries[i as int].1)));
        i = i + 1;
    }
    let write_args = command_args(&["write-tree"]);
    assert(write_args.deep_view() =~= seq!["write-tree"@]);
    let write = GitCommand::write(write_args).with_environment(
        String::from_str("GIT_INDEX_FILE"),
        String::from_str(index),
    );
    let output = match runner.run_unlocked(&write) {
        Ok(o) => o,
        Err(e) => return Err(ApplyError::Git(e)),
    };
    assert(runner.trace() =~= start + tree_effects(commit.source_tree@, entries));
    match parse_id(output.stdout.as_slice()) {
        Ok(id) => Ok(id),
        Err(ApplyError::InvalidPlan(message)) => Err(
            ApplyError::InvalidPlan(concat("write-tree failed: ", message.as_str())),
        ),
        Err(e) => Err(e),
    }
}

/// The `update-index` arguments that set one path of the private index to its
/// Base entry, or remove it.
pub fn update_index_args(path: &str, entry: &Option<TreeEntry>) -> (r: Vec<String>)
    ensures
        entry matches Some(e) ==> r.deep_view() == seq![
            "update-index"@,
            "--add"@,
            "--cacheinfo"@,
            e.mode@,
            e.object@,
            path@,
        ],
        entry is None ==> r.deep_view() == seq![
            "update-index"@,
            "--force-remove"@,
            "--"@,
            path@,
        ],
{
    let r = match entry {
        Some(e) => command_args(&["update-index", "--add", "--cacheinfo", e.mode.as_str(), e.object.as_str(), path]),
        None => command_args(&["update-index", "--force-remove", "--", path]),
    };
    assert(r.deep_view() =~= match entry {
        Some(e) => seq!["update-index"@, "--add"@, "--cacheinfo"@, e.mode@, e.object@, path@],
        None => seq!["update-index"@, "--force-remove"@, "--"@, path@],
    });
    r
}

fn update_index<R: GitRunner>(
    runner: &mut Host<R>,
    path: &str,
    entry: &Option<TreeEntry>,
    index: &str,
) -> (r: Result<(), ApplyError>)
    ensures
        grows(*old(runner), *final(runner)),
        r matches Err(e) ==> !(e is StalePlan),
        r matches Err(e) ==> e is Git,
        r is Ok ==> final(runner).trace() == old(runner).trace().push(update_effect(path@, entry.vv())),
{
    let command = GitCommand::write(update_index_args(path, entry)).with_environment(
        String::from_str("GIT_INDEX_FILE"),
        String::from_str(index),
    );
    match runner.run_unlocked(&command) {
        Ok(_) => Ok(()),
        Err(e) => Err(ApplyError::Git(e)),
    }
}

fn commit_with_tree<R: GitRunner>(
    runner: &mut Host<R>,
    commit: &CommitRewrite,
    tree: ObjectId,
    rewritten: &PathMap<ObjectId>,
) -> (r: Result<ObjectId, ApplyError>)
    ensures
        grows(*old(runner), *final(runner)),
        r matches Err(e) ==> !(e is StalePlan),
        commit.action == RewriteAction::Drop ==> (r is Err <==> commit.first_parent is None),
        commit.action == RewriteAction::Drop ==> (r matches Ok(id) ==> id@ == mapped(
            commit.first_parent->0@,
            rewritten.map(),
        )),
{
    if commit.action == RewriteAction::Drop {
        return dropped_parent(commit, rewritten);
    }
    let command = commit_command(commit, tree, rewritten);
    let output = match runner.run_unlocked(&command) {
        Ok(o) => o,
        Err(e) => return Err(ApplyError::Git(e)),
    };
    match parse_id(output.stdout.as_slice()) {
        Ok(id) => Ok(id),
        Err(ApplyError::InvalidPlan(message)) => Err(
            ApplyError::InvalidPlan(concat("commit-tree failed: ", message.as_str())),
        ),
        Err(e) => Err(e),
    }
}

/// A dropped commit is replaced by its first parent as rewritten, so the
/// commits after it attach to what came before it.
pub fn dropped_parent(commit: &CommitRewrite, rewritten: &PathMap<ObjectId>) -> (r: Result<
    ObjectId,
    ApplyError,
>)
    ensures
        commit.first_parent is None <==> r is Err,
        r matches Err(e) ==> (e matches ApplyError::InvalidPlan(m) && m@
            == "a dropped commit has no rewritten parent"@),
        r matches Ok(id) ==> id@ == mapped(commit.first_parent->0@, rewritten.map()),
{
    match &commit.first_parent {
        Some(parent) => match rewritten.get(parent.as_str()) {
            Some(id) => Ok(id.clone()),
            None => Ok(parent.clone()),
        },
        None => Err(
            ApplyError::InvalidPlan(String::from_str("a dropped commit has no rewritten parent")),
        ),
    }
}

/// The `git commit-tree` command that rebuilds `commit` on `tree`, keeping its
/// message, author and committer.
pub fn commit_command(commit: &CommitRewrite, tree: ObjectId, rewritten: &PathMap<ObjectId>) -> (r:
    GitCommand)
    ensures
        args_of(&r) == commit_args_spec(
            tree@,
            opt_id(commit.first_parent),
            commit.additional_parents.deep_view(),
            rewritten.map(),
        ),
        r.writes,
        r.stdin matches Some(input) && input@ == commit.metadata.message@,
        env_of(&r) == signature_env(commit.metadata.author@, commit.metadata.committer@),
{
    let mut args = command_args(&["commit-tree", tree.as_str(), "-F", "-"]);
    let ghost head = args.deep_view();
    append_parent(&mut args, &commit.first_parent, rewritten);
    let ghost with_first = args.deep_view();
    let mut i: usize = 0;
    while i < commit.additional_parents.len()
        invariant
            i <= commit.additional_parents@.len(),
            args.deep_view() == with_first + parent_flags(
                commit.additional_parents.deep_view().take(i as int),
            ),
        decreases commit.additional_parents@.len() - i,
    {
        let ghost before = args.deep_view();
        push_arg(&mut args, "-p");
        push_arg(&mut args, commit.additional_parents[i].as_str());
        proof {
            let ps = commit.additional_parents.deep_view();
            assert(ps.take(i + 1).drop_last() == ps.take(i as int));
            assert(ps.take(i + 1).last() == commit.additional_parents@[i as int]@);
            assert(args.deep_view() =~= with_first + parent_flags(ps.take(i + 1)));
        }
        i = i + 1;
    }
    proof {
        let ps = commit.additional_parents.deep_view();
        assert(ps.take(ps.len() as int) == ps);
        assert(head =~= seq!["commit-tree"@, tree@, "-F"@, "-"@]);
    }
    let message = commit.metadata.message.clone();
    assert(message@ =~= commit.metadata.message@);
    let command = GitCommand::write(args).with_stdin(message);
    assert(env_of(&command) =~= Seq::<(Seq<char>, Seq<char>)>::empty());
    let command = set_signature(command, "GIT_AUTHOR", &commit.metadata.author);
    let command = set_signature(command, "GIT_COMMITTER", &commit.metadata.committer);
    proof {
        reveal_strlit("GIT_AUTHOR");
        reveal_strlit("GIT_COMMITTER");
        reveal_strlit("_NAME");
        reveal_strlit("_EMAIL");
        reveal_strlit("_DATE");
        reveal_strlit("GIT_AUTHOR_NAME");
        reveal_strlit("GIT_AUTHOR_EMAIL");
        reveal_strlit("GIT_AUTHOR_DATE");
        reveal_strlit("GIT_COMMITTER_NAME");
        reveal_strlit("GIT_COMMITTER_EMAIL");
        reveal_strlit("GIT_COMMITTER_DATE");
        assert("GIT_AUTHOR"@ + "_NAME"@ =~= "GIT_AUTHOR_NAME"@);
        assert("GIT_AUTHOR"@ + "_EMAIL"@ =~= "GIT_AUTHOR_EMAIL"@);
        assert("GIT_AUTHOR"@ + "_DATE"@ =~= "GIT_AUTHOR_DATE"@);
        assert("GIT_COMMITTER"@ + "_NAME"@ =~= "GIT_COMMITTER_NAME"@);
        assert("GIT_COMMITTER"@ + "_EMAIL"@ =~= "GIT_COMMITTER_EMAIL"@);
        assert("GIT_COMMITTER"@ + "_DATE"@ =~= "GIT_COMMITTER_DATE"@);
        assert(env_of(&command) =~= signature_env(
            commit.metadata.author@,
            commit.metadata.committer@,
        ));
    }
    command
}

/// `-p <parent>`, the parent as rewritten, when there is a parent.
fn append_parent(args: &mut Vec<String>, parent: &Option<ObjectId>, rewritten: &PathMap<ObjectId>)
    ensures
        final(args).deep_view() == old(args).deep_view() + match parent {
            Some(p) => seq!["-p"@, mapped(p@, rewritten.map())],
            None => Seq::<Seq<char>>::empty(),
        },
{
    let p = match parent {
        Some(p) => p,
        None => {
            assert(args.deep_view() =~= args.deep_view() + Seq::<Seq<char>>::empty());
            return;
        },
    };
    let ghost before = args.deep_view();
    push_arg(args, "-p");
    match rewritten.get(p.as_str()) {
        Some(id) => push_arg(args, id.as_str()),
        None => push_arg(args, p.as_str()),
    }
    assert(args.deep_view() =~= before + seq!["-p"@, mapped(p@, rewritten.map())]);
}

/// Gives `command` the `<prefix>_NAME`, `<prefix>_EMAIL` and `<prefix>_DATE` of `signature`.
fn set_signature(command: GitCommand, prefix: &str, signature: &Signature) -> (r: GitCommand)
    ensures
        r.args == command.args,
        r.writes == command.writes,
        r.stdin == command.stdin,
        env_of(&r) == env_of(&command) + seq![
            (prefix@ + "_NAME"@, signature.name@),
            (prefix@ + "_EMAIL"@, signature.email@),
            (prefix@ + "_DATE"@, signature.date@),
        ],
{
    let command = command.with_environment(concat(prefix, "_NAME"), signature.name.clone());
    let command = command.with_environment(concat(prefix, "_EMAIL"), signature.email.clone());
    let command = command.with_environment(concat(prefix, "_DATE"), signature.date.clone());
    command
}

/// The id Git printed on the first line, without trailing blanks.
pub fn parse_id(bytes: &[u8]) -> (r: Result<ObjectId, ApplyError>)
    ensures
        r is Ok <==> ({
            let line = trim_blanks_spec(split_spec(bytes@, 10)[0]);
            vstd::utf8::valid_utf8(line) && crate::rewrite::model::valid_object_id(
                vstd::utf8::decode_utf8(line),
            )
        }),
        r matches Ok(id) ==> {
            let line = trim_blanks_spec(split_spec(bytes@, 10)[0]);
            &&& vstd::utf8::valid_utf8(line)
            &&& id@ == vstd::utf8::decode_utf8(line)
        },
        r is Err ==> r matches Err(ApplyError::InvalidPlan(_)),
{
    let lines = split_bytes(bytes, 10);
    proof {
        lemma_split_nonempty(bytes@, 10);
    }
    let line = trim_blanks(lines[0].as_slice());
    assert(views(lines@)[0] == lines@[0]@);
    match ObjectId::from_bytes(line.as_slice()) {
        Ok(id) => Ok(id),
        Err(error) => Err(
            ApplyError::InvalidPlan(concat3(error.as_str(), "; Git output was ", debug_bytes(bytes).as_str())),
        ),
    }
}

/// `s` without trailing spaces and carriage returns.
pub open spec fn trim_blanks_spec(s: Seq<u8>) -> Seq<u8>
    decreases s.len(),
{
    if s.len() > 0 && (s.last() == 32 || s.last() == 13) {
        trim_blanks_spec(s.drop_last())
    } else {
        s
    }
}

fn trim_blanks(bytes: &[u8]) -> (r: Vec<u8>)
    ensures
        r@ == trim_blanks_spec(bytes@),
{
    let mut end = bytes.len();
    assert(bytes@.take(end as int) == bytes@);
    while end > 0 && (bytes[end - 1] == 32 || bytes[end - 1] == 13)
        invariant
            end <= bytes@.len(),
            trim_blanks_spec(bytes@) == trim_blanks_spec(bytes@.take(end as int)),
        decreases end,
    {
        assert(bytes@.take(end as int).drop_last() == bytes@.take(end - 1));
        end = end - 1;
    }
    crate::text::bytes_of(bytes, 0, end)
}

/// The decimal numbers of `bytes`, separated by `, `.
pub open spec fn numbers_spec(bytes: Seq<u8>) -> Seq<char>
    decreases bytes.len(),
{
    if bytes.len() == 0 {
        Seq::empty()
    } else if bytes.len() == 1 {
        decimal_spec(bytes[0] as nat)
    } else {
        numbers_spec(bytes.drop_last()) + ", "@ + decimal_spec(bytes.last() as nat)
    }
}

/// `bytes` as a debug listing of numbers, such as `[49, 10]`.
pub fn debug_bytes(bytes: &[u8]) -> (r: String)
    ensures
        r@ == "["@ + numbers_spec(bytes@) + "]"@,
{
    let mut s = String::from_str("[");
    let mut i: usize = 0;
    proof {
        reveal_strlit("[");
        assert(bytes@.take(0) =~= Seq::<u8>::empty());
    }
    while i < bytes.len()
        invariant
            i <= bytes@.len(),
            s@ == "["@ + numbers_spec(bytes@.take(i as int)),
        decreases bytes@.len() - i,
    {
        assert(bytes@.take(i + 1).drop_last() == bytes@.take(i as int));
        assert(bytes@.take(i + 1).last() == bytes@[i as int]);
        if i > 0 {
            s.append(", ");
        }
        s.append(decimal(bytes[i] as u64).as_str());
        i = i + 1;
    }
    s.append("]");
    assert(bytes@.take(bytes@.len() as int) == bytes@);
    s
}

} // verus!
