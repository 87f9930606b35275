//! Restoring and deleting Saved work.
use vstd::prelude::*;

use crate::host::grows;

use crate::host::{lemma_reads_chain, reads_only, Effect, Host};
use crate::rewrite::materialize::operation_id_spec;
use crate::text::starts_with_spec;

use crate::git::{command_args, push_arg, GitCommand, GitRunner};
use crate::recording::oplog::{
    began_with, finished_log, index_of_id, read_log, single_entry, OperationRecordView, Oplog,
};
use crate::map::PathMap;
use crate::rewrite::ObjectId;
use crate::split::state::plainly_invalid_branch;

use super::errors::SwitchError;
use super::model::{DeleteSavedWorkResult, RestoreSavedWorkResult, SavedWork};
use super::state::wip_prefix;
use super::keep::{
    dropped_saved_work, drops_saved_work, keeps_saved_work, lemma_began_keeps, lemma_finished_keeps,
    lemma_keeps_chain, lemma_keeps_one, lemma_reads_keep,
};
use super::record::saved_work_record_view;
use super::restore_apply::{park_conflict, restore_warning};
use super::stash;
use super::{plan, record, restore_apply, state};

verus! {

broadcast use crate::host::lemma_grows_chain, crate::host::lemma_grows_none, crate::host::lemma_grows_trace,
    crate::host::lemma_grows_reply;

/// Applies the current branch's Saved work; once it is in the tree, its ref goes.
pub(crate) fn restore<R: GitRunner>(runner: &mut Host<R>) -> (r: Result<RestoreSavedWorkResult, SwitchError>)
    ensures
        r matches Err(SwitchError::MissingSavedWork(_)) ==> reads_only(old(runner).trace(), final(runner).trace()),
        r matches Ok(res) ==> exists|k: int|
            old(runner).trace().len() <= k < final(runner).trace().len() && #[trigger] final(runner).trace()[k]
                == state::branch_effect() && (final(runner).reply(k) matches Some(o) && state::branch_read(
                o,
                res.branch@,
            )),
        r matches Ok(res) ==> exists|k: int|
            old(runner).trace().len() <= k < final(runner).trace().len() && #[trigger] final(runner).trace()[k]
                == stash::apply_index_effect(res.reference@),
        r matches Ok(res) ==> (res.warning matches Some(w) ==> exists|id: Seq<char>| #[trigger] restore_warning(w@, id)),
        r matches Ok(res) ==> (final(runner).trace().last() matches Effect::Store { records, .. } && exists|
            loaded: Seq<OperationRecordView>,
            id: Seq<char>,
            when: Seq<char>,
            head: Seq<char>,
        | records == #[trigger] finished_log(loaded, id, when, Map::<Seq<char>, Seq<char>>::empty().insert("HEAD"@, head))),
        grows(*old(runner), *final(runner)),
        r matches Err(e) ==> !(e is StalePlan),
        r matches Ok(res) ==> res.reference@ == wip_prefix() + res.branch@,
        r matches Ok(res) ==> (dropped_saved_work(old(runner).trace(), final(runner).trace()) <==> (
        res.warning is None || (res.warning matches Some(w) && w@ == park_conflict()))),
{
    let ghost start = runner.trace();
    let got = state::ensure_no_operation(runner);
    proof {
        lemma_reads_keep(start, runner.trace());
    }
    match got {
        Ok(()) => {},
        Err(e) => return Err(e),
    }
    let ghost t = runner.trace();
    let ghost kb = t.len() as int;
    let got = state::read_branch(runner);
    let ghost hb = *runner;
    proof {
        lemma_reads_keep(t, runner.trace());
        lemma_keeps_chain(start, t, runner.trace());
        lemma_reads_chain(start, t, runner.trace());
    }
    let branch = match got {
        Ok(b) => b,
        Err(e) => return Err(e),
    };
    let ghost t = runner.trace();
    let got = plan::read_saved_work(runner, branch.as_str());
    proof {
        lemma_reads_keep(t, runner.trace());
        lemma_keeps_chain(start, t, runner.trace());
        lemma_reads_chain(start, t, runner.trace());
    }
    let saved = match got {
        Ok(Some(s)) => s,
        Ok(None) => return Err(SwitchError::MissingSavedWork(branch)),
        Err(e) => return Err(e),
    };
    let ghost t = runner.trace();
    let got = runner.git_dir();
    proof {
        lemma_reads_keep(t, runner.trace());
        lemma_keeps_chain(start, t, runner.trace());
    }
    let git_dir = match got {
        Ok(d) => d,
        Err(e) => return Err(SwitchError::Git(e)),
    };
    let ghost t = runner.trace();
    let got = Oplog::open(runner, git_dir.as_str());
    proof {
        lemma_keeps_one(t, Effect::FileSystem { path: git_dir@ + seq!['/'] + "githelper"@, creates: true });
        lemma_keeps_chain(start, t, runner.trace());
    }
    let oplog = match got {
        Ok(o) => o,
        Err(e) => return Err(SwitchError::Recording(e.message())),
    };
    let ghost t = runner.trace();
    let got = record::begin_restore(runner, &oplog, &saved);
    proof {
        if got is Ok {
            let (started, pid) = choose|started: Seq<char>, pid: nat|
                got->Ok_0@ == operation_id_spec("restore-saved-work"@, started, pid) && began_with(
                    t,
                    runner.trace(),
                    oplog.path@,
                    started,
                    pid,
                    saved_work_record_view(
                        "restore-saved-work"@,
                        saved,
                        "git stash apply --index "@ + saved.reference@,
                        got->Ok_0@,
                        started,
                    ),
                );
            lemma_began_keeps(
                t,
                runner.trace(),
                oplog.path@,
                started,
                pid,
                saved_work_record_view(
                    "restore-saved-work"@,
                    saved,
                    "git stash apply --index "@ + saved.reference@,
                    got->Ok_0@,
                    started,
                ),
            );
            lemma_keeps_chain(start, t, runner.trace());
        }
    }
    let operation_id = match got {
        Ok(id) => id,
        Err(e) => return Err(e),
    };
    let ghost t = runner.trace();
    let ghost ka = t.len() as int;
    let ghost ha0 = *runner;
    let got = restore_apply::apply(runner, saved.reference.as_str(), operation_id.as_str());
    let ghost ha = *runner;
    proof {
        if got is Ok {
            lemma_keeps_chain(start, t, runner.trace());
        }
    }
    let outcome = match got {
        Ok(o) => o,
        Err(e) => return Err(e),
    };
    let ghost before_settle = runner.trace();
    let got = settle(runner, &saved, outcome.consumed);
    let head = match got {
        Ok(id) => id,
        Err(e) => return Err(e),
    };
    let ghost after_settle = runner.trace();
    let ghost hs = *runner;
    let got = oplog.finish(runner, operation_id.as_str(), single_entry("HEAD", head.as_str()));
    proof {
        if got is Ok {
            lemma_finished_keeps(
                after_settle,
                runner.trace(),
                oplog.path@,
                operation_id@,
                Map::<Seq<char>, Seq<char>>::empty().insert("HEAD"@, head@),
            );
        }
    }
    match got {
        Ok(()) => {},
        Err(e) => return Err(SwitchError::Recording(e.message())),
    }
    proof {
        reveal_strlit("HEAD");
        assert(runner.trace()[kb] == hb.trace()[kb]);
        assert(runner.reply(kb) == hb.reply(kb));
        assert(runner.trace()[ka] == ha.trace()[ka]);
        if outcome.warning is Some {
            assert(restore_warning(outcome.warning->Some_0@, operation_id@));
        }
        let (mid, loaded2, when) = choose|mid: Seq<Effect>, loaded2: Seq<OperationRecordView>, when: Seq<char>|
            read_log(after_settle, mid, oplog.path@, loaded2) && index_of_id(loaded2, operation_id@) >= 0
                && runner.trace() == mid.push(Effect::Clock { time: when }).push(
                Effect::Store {
                    path: oplog.path@,
                    records: finished_log(
                        loaded2,
                        operation_id@,
                        when,
                        Map::<Seq<char>, Seq<char>>::empty().insert("HEAD"@, head@),
                    ),
                },
            );
        assert(runner.trace().last() == Effect::Store {
            path: oplog.path@,
            records: finished_log(
                loaded2,
                operation_id@,
                when,
                Map::<Seq<char>, Seq<char>>::empty().insert("HEAD"@, head@),
            ),
        });
    }
    proof {
        let fin = runner.trace();
        assert(saved.reference@.take(wip_prefix().len() as int) =~= wip_prefix());
        lemma_settle_drops(start, before_settle, after_settle, fin, saved, outcome.consumed);
    }
    Ok(
        RestoreSavedWorkResult {
            branch,
            reference: saved.reference,
            applied_index: outcome.applied_index,
            warning: outcome.warning,
        },
    )
}

/// Over a restore's whole run, Saved work was dropped exactly when the step
/// that settles the apply dropped it, since every other step keeps it.
proof fn lemma_settle_drops(
    start: Seq<Effect>,
    before: Seq<Effect>,
    after: Seq<Effect>,
    fin: Seq<Effect>,
    saved: SavedWork,
    consumed: bool,
)
    requires
        keeps_saved_work(start, before),
        keeps_saved_work(after, fin),
        starts_with_spec(saved.reference@, wip_prefix()),
        after == before + (if consumed {
            seq![delete_saved_effect(saved)]
        } else {
            Seq::empty()
        }) + seq![state::resolve_effect("HEAD"@)],
    ensures
        dropped_saved_work(start, fin) <==> consumed,
{
    reveal_strlit("update-ref");
    reveal_strlit("-d");
    reveal_strlit("rev-parse");
    assert("rev-parse"@.len() != "update-ref"@.len());
    let k = before.len() as int;
    assert(fin[k] == fin.take(after.len() as int)[k]);
    if consumed {
        assert(after[k] == delete_saved_effect(saved));
        assert(drops_saved_work(fin[k]));
    } else {
        assert forall|i: int| start.len() <= i < fin.len() implies !drops_saved_work(#[trigger] fin[i]) by {
            if i < k {
                assert(fin[i] == fin.take(after.len() as int)[i]);
                assert(after[i] == before[i]);
            } else if i == k {
                assert(after[k] == state::resolve_effect("HEAD"@));
            }
        }
    }
}

/// Deletes the Saved work of `branch`.
pub(crate) fn delete<R: GitRunner>(runner: &mut Host<R>, branch: &str) -> (r: Result<DeleteSavedWorkResult, SwitchError>)
    ensures
        r matches Err(SwitchError::MissingSavedWork(_)) ==> reads_only(old(runner).trace(), final(runner).trace()),
        r matches Ok(res) ==> exists|k: int|
            old(runner).trace().len() <= k < final(runner).trace().len() && deletes_saved_ref(
                #[trigger] final(runner).trace()[k],
                res.reference@,
            ),
        grows(*old(runner), *final(runner)),
        r matches Err(e) ==> !(e is StalePlan),
        plainly_invalid_branch(branch@) ==> (r matches Err(SwitchError::InvalidState(m)) && m@
            == "invalid branch name: "@ + branch@),
        r matches Ok(res) ==> res.branch@ == branch@ && res.reference@ == wip_prefix() + branch@,
{
    let ghost t0 = runner.trace();
    match state::validate_branch_name(runner, branch) {
        Ok(()) => {},
        Err(e) => return Err(e),
    }
    let ghost t1 = runner.trace();
    match state::ensure_no_operation(runner) {
        Ok(()) => {},
        Err(e) => return Err(e),
    }
    let ghost t2 = runner.trace();
    let got = plan::read_saved_work(runner, branch);
    proof {
        lemma_reads_chain(t0, t1, t2);
        lemma_reads_chain(t0, t2, runner.trace());
    }
    let saved = match got {
        Ok(Some(s)) => s,
        Ok(None) => return Err(SwitchError::MissingSavedWork(String::from_str(branch))),
        Err(e) => return Err(e),
    };
    let git_dir = match runner.git_dir() {
        Ok(d) => d,
        Err(e) => return Err(SwitchError::Git(e)),
    };
    let oplog = match Oplog::open(runner, git_dir.as_str()) {
        Ok(o) => o,
        Err(e) => return Err(SwitchError::Recording(e.message())),
    };
    let operation_id = match record::begin_delete(runner, &oplog, &saved) {
        Ok(id) => id,
        Err(e) => return Err(e),
    };
    let ghost kd = runner.trace().len() as int;
    match delete_ref(runner, saved.reference.as_str(), &saved.snapshot) {
        Ok(()) => {},
        Err(e) => return Err(e),
    }
    let ghost hd = *runner;
    let got = oplog.finish(runner, operation_id.as_str(), PathMap::new());
    proof {
        if got is Ok {
            assert(runner.trace()[kd] == hd.trace()[kd]);
            assert(hd.trace()[kd] == delete_saved_effect(saved));
            assert(delete_saved_effect(saved)->Run_args.take(4) =~= seq![
                "update-ref"@,
                "-d"@,
                "-m"@,
                "git-helper delete-saved-work"@,
            ]);
        }
    }
    match got {
        Ok(()) => {},
        Err(e) => return Err(SwitchError::Recording(e.message())),
    }
    Ok(DeleteSavedWorkResult { branch: saved.branch, reference: saved.reference })
}

/// The command that deletes Saved work `saved`, only while its ref still
/// holds its snapshot.
pub open spec fn delete_saved_effect(saved: SavedWork) -> Effect {
    Effect::Run {
        args: seq![
            "update-ref"@,
            "-d"@,
            "-m"@,
            "git-helper delete-saved-work"@,
            saved.reference@,
            saved.snapshot@,
        ],
        writes: true,
    }
}

/// `effect` deletes the Saved work ref `reference`, while it still holds the
/// snapshot it names.
pub open spec fn deletes_saved_ref(effect: Effect, reference: Seq<char>) -> bool {
    effect matches Effect::Run { args, writes } && writes && args.len() == 6 && args.take(4) == seq![
        "update-ref"@,
        "-d"@,
        "-m"@,
        "git-helper delete-saved-work"@,
    ] && args[4] == reference
}

/// After a restore's apply: the Saved work ref goes exactly when the apply
/// consumed the snapshot; then `HEAD` is read for the log.
fn settle<R: GitRunner>(runner: &mut Host<R>, saved: &SavedWork, consumed: bool) -> (r: Result<
    ObjectId,
    SwitchError,
>)
    ensures
        r matches Err(e) ==> !(e is MissingSavedWork),
        grows(*old(runner), *final(runner)),
        r matches Err(e) ==> !(e is StalePlan),
        r is Ok ==> final(runner).trace() == old(runner).trace() + (if consumed {
            seq![delete_saved_effect(*saved)]
        } else {
            Seq::empty()
        }) + seq![state::resolve_effect("HEAD"@)],
        r is Err && !consumed ==> final(runner).trace() == old(runner).trace().push(
            state::resolve_effect("HEAD"@),
        ),
        r is Err && consumed ==> final(runner).trace() == old(runner).trace().push(
            delete_saved_effect(*saved),
        ) || final(runner).trace() == old(runner).trace().push(delete_saved_effect(*saved)).push(
            state::resolve_effect("HEAD"@),
        ),
{
    let ghost start = runner.trace();
    if consumed {
        match delete_ref(runner, saved.reference.as_str(), &saved.snapshot) {
            Ok(()) => {},
            Err(e) => return Err(e),
        }
    }
    let r = state::read_id(runner, "HEAD");
    proof {
        reveal_strlit("HEAD");
        if r is Ok {
            if consumed {
                assert(runner.trace() =~= start + seq![delete_saved_effect(*saved)] + seq![
                    state::resolve_effect("HEAD"@),
                ]);
            } else {
                assert(runner.trace() =~= start + Seq::<Effect>::empty() + seq![
                    state::resolve_effect("HEAD"@),
                ]);
            }
        }
    }
    r
}

/// Deletes `reference` only while it still holds `snapshot`.
fn delete_ref<R: GitRunner>(runner: &mut Host<R>, reference: &str, snapshot: &ObjectId) -> (r: Result<
    (),
    SwitchError,
>)
    ensures
        r matches Err(e) ==> !(e is MissingSavedWork),
        grows(*old(runner), *final(runner)),
        r matches Err(e) ==> !(e is StalePlan),
        r matches Err(e) ==> e is Git,
        final(runner).trace() == old(runner).trace().push(
            Effect::Run {
                args: seq![
                    "update-ref"@,
                    "-d"@,
                    "-m"@,
                    "git-helper delete-saved-work"@,
                    reference@,
                    snapshot@,
                ],
                writes: true,
            },
        ),
{
    let mut values = command_args(&["update-ref", "-d", "-m", "git-helper delete-saved-work"]);
    push_arg(&mut values, reference);
    push_arg(&mut values, snapshot.as_str());
    assert(values.deep_view() =~= seq![
        "update-ref"@,
        "-d"@,
        "-m"@,
        "git-helper delete-saved-work"@,
        reference@,
        snapshot@,
    ]);
    match runner.run_unlocked(&GitCommand::write(values)) {
        Ok(_) => Ok(()),
        Err(e) => Err(SwitchError::Git(e)),
    }
}

} // verus!
