//! The exact ordered Git write sequence a split performs, as shown for review.
use vstd::prelude::*;

use crate::rewrite::RepoPath;
use crate::text::{chars_of, join, join_spec};

use super::model::SplitBranchPlan;
use super::state::literal;

verus! {

/// `s` with each `'` written as `'\''`, for use inside single quotes.
pub open spec fn escape_spec(s: Seq<char>) -> Seq<char>
    decreases s.len(),
{
    if s.len() == 0 {
        Seq::empty()
    } else if s.last() == '\'' {
        escape_spec(s.drop_last()) + seq!['\'', '\\', '\'', '\'']
    } else {
        escape_spec(s.drop_last()).push(s.last())
    }
}

/// `s` as one shell word in single quotes.
pub open spec fn quote_spec(s: Seq<char>) -> Seq<char> {
    seq!['\''] + escape_spec(s) + seq!['\'']
}

/// Each path as a quoted literal pathspec, separated by spaces.
pub open spec fn pathspecs_spec(paths: Seq<Seq<char>>) -> Seq<char> {
    join_spec(Seq::new(paths.len(), |i: int| quote_spec(":(literal)"@ + paths[i])), " "@)
}

/// The commands a split runs, each derived from the plan.
pub open spec fn commands_spec(
    merge_base: Seq<char>,
    source_head: Seq<char>,
    new_branch_ref: Seq<char>,
    paths: Seq<Seq<char>>,
) -> Seq<Seq<char>> {
    seq![
        "git -c submodule.recurse=false worktree add --detach <worktree> "@ + merge_base,
        "git diff --binary --no-relative --no-renames "@ + merge_base + " "@ + source_head
            + " -- "@ + pathspecs_spec(paths) + " | git -C <worktree> apply --index --binary"@,
        "git -C <worktree> write-tree"@,
        "git commit-tree <tree> -p "@ + merge_base,
        "git update-ref "@ + new_branch_ref + " <commit> ''"@,
        "git worktree remove --force <worktree>"@,
    ]
}

/// Every line is derived from the plan, so a review can never drift from what runs.
pub fn commands(plan: &SplitBranchPlan) -> (r: Vec<String>)
    ensures
        r.deep_view() == commands_spec(
            plan.merge_base@,
            plan.source_head@,
            plan.new_branch_ref@,
            plan.changed_paths.deep_view(),
        ),
{
    let specs = pathspecs(&plan.changed_paths);
    let mut first = String::from_str("git -c submodule.recurse=false worktree add --detach <worktree> ");
    first.append(plan.merge_base.as_str());
    let mut second = String::from_str("git diff --binary --no-relative --no-renames ");
    second.append(plan.merge_base.as_str());
    second.append(" ");
    second.append(plan.source_head.as_str());
    second.append(" -- ");
    second.append(specs.as_str());
    second.append(" | git -C <worktree> apply --index --binary");
    let mut fourth = String::from_str("git commit-tree <tree> -p ");
    fourth.append(plan.merge_base.as_str());
    let mut fifth = String::from_str("git update-ref ");
    fifth.append(plan.new_branch_ref.as_str());
    fifth.append(" <commit> ''");
    let mut r: Vec<String> = Vec::new();
    r.push(first);
    r.push(second);
    r.push(String::from_str("git -C <worktree> write-tree"));
    r.push(fourth);
    r.push(fifth);
    r.push(String::from_str("git worktree remove --force <worktree>"));
    assert(r.deep_view() =~= commands_spec(
        plan.merge_base@,
        plan.source_head@,
        plan.new_branch_ref@,
        plan.changed_paths.deep_view(),
    ));
    r
}

/// Each path as a quoted literal pathspec, separated by spaces.
pub fn pathspecs(paths: &Vec<RepoPath>) -> (r: String)
    ensures
        r@ == pathspecs_spec(paths.deep_view()),
{
    let mut parts: Vec<String> = Vec::new();
    let mut i: usize = 0;
    while i < paths.len()
        invariant
            i <= paths@.len(),
            parts.deep_view() == Seq::new(
                i as nat,
                |j: int| quote_spec(":(literal)"@ + paths.deep_view()[j]),
            ),
        decreases paths@.len() - i,
    {
        let ghost before = parts.deep_view();
        let item = quote(literal(paths[i].as_str()).as_str());
        parts.push(item);
        assert(parts.deep_view() =~= before.push(item@));
        assert(parts.deep_view() =~= Seq::new(
            (i + 1) as nat,
            |j: int| quote_spec(":(literal)"@ + paths.deep_view()[j]),
        ));
        i = i + 1;
    }
    join(&parts, " ")
}

/// `value` as one shell word in single quotes.
pub fn quote(value: &str) -> (r: String)
    ensures
        r@ == quote_spec(value@),
{
    let v = chars_of(value);
    let mut r = String::from_str("'");
    let mut i: usize = 0;
    proof {
        reveal_strlit("'");
        assert(v@.take(0) =~= Seq::<char>::empty());
    }
    while i < v.len()
        invariant
            i <= v@.len(),
            v@ == value@,
            r@ == seq!['\''] + escape_spec(v@.take(i as int)),
        decreases v@.len() - i,
    {
        assert(v@.take(i + 1).drop_last() == v@.take(i as int));
        if v[i] == '\'' {
            r.append("'\\''");
            proof {
                reveal_strlit("'\\''");
            }
        } else {
            crate::text::push_char(&mut r, v[i]);
        }
        i = i + 1;
    }
    r.append("'");
    assert(v@.take(v@.len() as int) == v@);
    r
}

} // verus!
