//! The entry point: one repository, and every operation on it. Operations that
//! write hold the repository's write lock for their whole run.
use vstd::prelude::*;

use crate::host::{lemma_reads_chain3, reads_only, Effect, Host};
use crate::git::{GitCommand, GitError, GitOutput, GitRunner, RepositoryConfig};
use crate::inspection::{ChangedPath, DirtySubmodule, InspectionError};
use crate::recording::recovery::{self, RecoveryEntry, RecoveryError};
use crate::recording::oplog::{lemma_logged_kept, logged, logged_finished};
use crate::revert::plan::{restore_command_spec, source_spec};
use crate::revert::{RevertError, RevertPlan, RevertRequest, RevertResult};
use crate::rewrite::model::TreeEntryView;
use crate::rewrite::planner::dropped_spec;
use crate::rewrite::{
    ApplyError, ApplyResult, EditMessageRequest, RefName, RewriteAction, RewriteError,
    RewriteOperation, RewritePlan, UncommitRequest,
};
use crate::split::state::plainly_invalid_branch;
use crate::split::{SplitBranchPlan, SplitBranchRequest, SplitBranchResult, SplitError};
use crate::submodule_cleanup::plan::{cleanup_commands_spec, uncommit_selection};
use crate::submodule_cleanup::{
    SubmoduleCleanupError, SubmoduleCleanupPlan, SubmoduleCleanupRequest, SubmoduleCleanupResult,
};
use crate::switch::history_model::{HistorySwitchPlan, HistorySwitchRequest, HistorySwitchResult};
use crate::switch::model::{
    DeleteSavedWorkResult, PullResolution, QuickSwitchPhase, QuickSwitchPlan, QuickSwitchRequest,
    QuickSwitchResult, QuickSwitchStatus, RestoreSavedWorkResult, SavedWork, SavedWorkApplyPreview,
};
use crate::switch::state::wip_prefix;
use crate::switch::SwitchError;
use crate::text::starts_with_spec;

verus! {

/// One repository: its runner, reached only through a `Host` that lists every
/// request made of it.
pub struct GitRepository<R: GitRunner> {
    host: Host<R>,
}

impl<R: GitRunner> GitRepository<R> {
    /// What was asked of the runner so far, oldest first.
    pub closed spec fn trace(&self) -> Seq<Effect> {
        self.host.trace()
    }

    /// What the runner answered to the request at `k`, where it answered.
    pub closed spec fn reply(&self, k: int) -> Option<Seq<u8>> {
        self.host.reply(k)
    }

    /// The host: the runner and what was asked of it.
    pub closed spec fn host_state(&self) -> Host<R> {
        self.host
    }

    /// A repository driven by `runner`, with nothing asked yet.
    pub fn new(runner: R) -> (r: Self)
        ensures
            r.trace() == Seq::<Effect>::empty(),
    {
        GitRepository { host: Host::new(runner) }
    }

    pub fn open(config: RepositoryConfig) -> (r: Result<Self, GitError>)
        ensures
            r matches Ok(repo) ==> repo.trace() == Seq::<Effect>::empty(),
    {
        match R::open(config) {
            Ok(runner) => Ok(GitRepository::new(runner)),
            Err(e) => Err(e),
        }
    }

    /// Runs one Git command as it is.
    pub fn run(&mut self, command: GitCommand) -> (r: Result<GitOutput, GitError>) {
        self.host.run(&command)
    }

    /// Every logged operation with its recovery command.
    pub fn list_operations(&mut self) -> (r: Result<Vec<RecoveryEntry>, RecoveryError>)
        ensures
            r is Ok ==> reads_only(old(self).trace(), final(self).trace()),
            r matches Ok(v) ==> exists|dir: Seq<char>, loaded: Seq<crate::recording::oplog::OperationRecordView>|
                crate::recording::recovery::entries_match(loaded, v@) && crate::recording::oplog::read_log(
                    old(self).trace().push(Effect::Setting).push(Effect::Setting),
                    final(self).trace().drop_last(),
                    crate::recording::recovery::log_path(dir),
                    loaded,
                ),
            r matches Ok(v) ==> exists|loaded: Seq<crate::recording::oplog::OperationRecordView>|
                crate::recording::recovery::entries_match(loaded, v@),
            r matches Ok(v) ==> forall|i: int|
                0 <= i < v@.len() ==> crate::recording::recovery::carries_its_recovery(
                    #[trigger] v@[i],
                ),
    {
        match self.host.lock() {
            Ok(()) => {},
            Err(e) => return Err(RecoveryError::Git(e)),
        }
        let ghost start = old(self).trace();
        let ghost locked = self.host.trace();
        let r = recovery::list(&mut self.host);
        let ghost done = self.host.trace();
        self.host.unlock();
        proof {
            if r is Ok {
                lemma_reads_chain3(start, locked, done, self.host.trace());
                assert(self.host.trace().drop_last() =~= done);
            }
        }
        r
    }

    pub fn plan_uncommit(&mut self, request: UncommitRequest) -> (r: Result<RewritePlan, RewriteError>)
        ensures
            r matches Ok(plan) ==> forall|i: int|
                0 <= i < plan.commits@.len() ==> crate::rewrite::planner::drop_decided(
                    final(self).host_state(),
                    old(self).trace().len() as int,
                    #[trigger] plan.commits@[i],
                    plan.base_entries.map(),
                ),
            r matches Ok(plan) ==> crate::rewrite::preflight::range_listed(
                final(self).host_state(),
                old(self).trace().len() as int,
                plan.source_head@,
                plan.base@,
                crate::rewrite::planner::sources_of(plan.commits@),
            ),
            (request.paths@.len() == 0 || !starts_with_spec(request.base@, "refs/remotes/"@)) ==> final(self).trace() == old(self).trace(),
            request.paths@.len() == 0 ==> (r matches Err(RewriteError::InvalidState(m)) && m@
                == "at least one path is required"@),
            request.paths@.len() > 0 && !starts_with_spec(request.base@, "refs/remotes/"@) ==> (r matches Err(
                RewriteError::InvalidState(m),
            ) && m@ == "Base must be a remote-tracking ref"@),
            r matches Ok(plan) ==> {
                &&& plan.operation == RewriteOperation::Uncommit
                &&& plan.base_ref@ == request.base@
                &&& plan.selected_paths.deep_view() == request.paths.deep_view()
                &&& plan.base_entries.map().dom() == request.paths.deep_view().to_set()
                &&& plan.commits@.len() > 0
                &&& plan.dropped_commits.deep_view() == dropped_spec(plan.commits@)
            },
    {
        crate::rewrite::planner::create(&mut self.host, request)
    }

    pub fn plan_revert(&mut self, request: RevertRequest) -> (r: Result<RevertPlan, RevertError>)
        ensures
            r matches Ok(plan) ==> crate::revert::plan::revert_plan_held(final(self).host_state(), old(self).trace().len() as int, plan),
            request.paths@.len() == 0 ==> final(self).trace() == old(self).trace(),
            request.paths@.len() == 0 ==> (r matches Err(RevertError::InvalidState(m)) && m@
                == "select at least one path to revert"@),
            r matches Ok(plan) ==> {
                &&& plan.paths.deep_view() == request.paths.deep_view()
                &&& plan.target == request.target
                &&& plan.base_ref@ == request.base@
                &&& plan.source@ == source_spec(request.target, request.base@)
                &&& plan.commands.deep_view() == seq![
                    restore_command_spec(plan.source@, request.paths.deep_view()),
                ]
            },
    {
        crate::revert::plan::create(&mut self.host, request)
    }

    pub fn apply_revert(&mut self, plan: &RevertPlan) -> (r: Result<RevertResult, RevertError>)
        ensures
            r is Ok ==> crate::revert::plan::revert_plan_held(final(self).host_state(), old(self).trace().len() as int, *plan),
            r is Ok ==> crate::revert::apply::restored(final(self).trace(), *plan),
            r matches Err(RevertError::StalePlan) ==> reads_only(old(self).trace(), final(self).trace()),
            r matches Ok(result) ==> result.paths.deep_view() == plan.paths.deep_view()
                && result.source@ == plan.source@,
            r is Ok ==> exists|id: Seq<char>, started: Seq<char>|
                logged(final(self).trace(), #[trigger] crate::revert::apply::revert_record_view(*plan, id, started))
                    && logged_finished(final(self).trace(), id, Map::<Seq<char>, Seq<char>>::empty()),
    {
        let ghost start = self.host.trace();
        match self.host.lock() {
            Ok(()) => {},
            Err(e) => return Err(RevertError::Git(e)),
        }
        let ghost locked = self.host.trace();
        let ghost h1 = self.host;
        let r = crate::revert::apply::apply(&mut self.host, plan);
        let ghost h2 = self.host;
        let ghost done = self.host.trace();
        self.host.unlock();
        proof {
            if r is Ok {
                crate::revert::plan::lemma_revert_held_grows(h2, self.host, old(self).trace().len() as int, h1.trace().len() as int, *plan);
                let k = choose|k: int| 0 <= k < done.len() && #[trigger] done[k] == crate::revert::apply::restore_effect(*plan);
                assert(self.host.trace()[k] == done[k]);
                assert(self.trace()[k] == crate::revert::apply::restore_effect(*plan));
                let refs = Map::<Seq<char>, Seq<char>>::empty();
                let (id, started) = choose|id: Seq<char>, started: Seq<char>|
                    logged(done, #[trigger] crate::revert::apply::revert_record_view(*plan, id, started))
                        && logged_finished(done, id, refs);
                lemma_logged_kept(done, self.host.trace(), crate::revert::apply::revert_record_view(*plan, id, started), id, refs);
            }
            if r matches Err(RevertError::StalePlan) {
                lemma_reads_chain3(start, locked, done, self.host.trace());
            }
        }
        r
    }

    pub fn plan_submodule_cleanup(&mut self, request: SubmoduleCleanupRequest) -> (r: Result<
        SubmoduleCleanupPlan,
        SubmoduleCleanupError,
    >)
        ensures
            r is Ok ==> final(self).trace()[old(self).trace().len() as int] == (Effect::Run {
                args: seq!["submodule"@, "status"@],
                writes: false,
            }) && (final(self).reply(old(self).trace().len() as int) matches Some(printed) && forall|i: int|
                0 <= i < request.paths@.len() ==> crate::submodule_cleanup::plan::printed_dirty(
                    printed,
                    #[trigger] request.paths@[i]@,
                )),
            (request.paths@.len() == 0 || !request.uncommit && !request.revert) ==> final(self).trace() == old(self).trace(),
            request.paths@.len() == 0 ==> (r matches Err(SubmoduleCleanupError::InvalidState(m))
                && m@ == "select at least one submodule"@),
            request.paths@.len() > 0 && !request.uncommit && !request.revert ==> (r matches Err(
                SubmoduleCleanupError::InvalidState(m),
            ) && m@ == "select at least one cleanup action"@),
            r matches Ok(plan) ==> {
                &&& plan.paths.deep_view() == request.paths.deep_view()
                &&& plan.uncommit == request.uncommit
                &&& plan.revert == request.revert
                &&& plan.base_ref@ == request.base@
                &&& plan.revert_paths.deep_view() == (if request.revert {
                    request.paths.deep_view()
                } else {
                    Seq::empty()
                })
                &&& plan.commands.deep_view() == cleanup_commands_spec(plan.revert_paths.deep_view())
                &&& !request.uncommit ==> plan.uncommit_paths@.len() == 0
                &&& request.uncommit ==> exists|entries: Seq<(Seq<char>, bool)>|
                    plan.uncommit_paths.deep_view() == #[trigger] uncommit_selection(
                        request.paths.deep_view(),
                        entries,
                    ) && crate::submodule_cleanup::plan::flags_read(
                        final(self).host_state(),
                        old(self).trace().len() as int,
                        request.base@,
                        entries,
                    )
                &&& (plan.uncommit_plan is Some <==> plan.uncommit_paths@.len() > 0)
                &&& plan.uncommit_plan matches Some(p) ==> p.operation == RewriteOperation::Uncommit
                    && p.selected_paths.deep_view() == plan.uncommit_paths.deep_view()
                    && p.base_ref@ == request.base@
            },
    {
        crate::submodule_cleanup::plan::create(&mut self.host, request)
    }

    pub fn apply_submodule_cleanup(&mut self, plan: &SubmoduleCleanupPlan) -> (r: Result<
        SubmoduleCleanupResult,
        SubmoduleCleanupError,
    >)
        ensures
            r is Ok ==> crate::submodule_cleanup::plan::cleanup_plan_held(final(self).host_state(), old(self).trace().len() as int, *plan),
            r is Ok ==> forall|i: int|
                0 <= i < plan.revert_paths@.len() ==> crate::submodule_cleanup::apply::reverted_submodule(
                    final(self).host_state(),
                    old(self).trace().len() as int,
                    #[trigger] plan.revert_paths@[i]@,
                ),
            r is Ok ==> (plan.uncommit_plan matches Some(up) ==> exists|new_head: Seq<char>|
                crate::rewrite::materialize::moved_branch(final(self).trace(), up, new_head)),
            r matches Err(SubmoduleCleanupError::StalePlan) ==> reads_only(old(self).trace(), final(self).trace()),
            r matches Ok(result) ==> result.paths.deep_view() == plan.paths.deep_view()
                && result.reverted == plan.revert_paths@.len(),
            r is Ok ==> exists|id: Seq<char>, started: Seq<char>|
                logged(final(self).trace(), #[trigger] crate::submodule_cleanup::apply::cleanup_record_view(*plan, id, started))
                    && logged_finished(final(self).trace(), id, Map::<Seq<char>, Seq<char>>::empty()),
    {
        let ghost start = self.host.trace();
        match self.host.lock() {
            Ok(()) => {},
            Err(e) => return Err(SubmoduleCleanupError::Git(e)),
        }
        let ghost locked = self.host.trace();
        let ghost h1 = self.host;
        let r = crate::submodule_cleanup::apply::apply(&mut self.host, plan);
        let ghost h2 = self.host;
        let ghost done = self.host.trace();
        self.host.unlock();
        proof {
            if r is Ok {
                crate::submodule_cleanup::plan::lemma_cleanup_held_grows(h2, self.host, old(self).trace().len() as int, h1.trace().len() as int, *plan);
                let refs = Map::<Seq<char>, Seq<char>>::empty();
                let (id, started) = choose|id: Seq<char>, started: Seq<char>|
                    logged(done, #[trigger] crate::submodule_cleanup::apply::cleanup_record_view(*plan, id, started))
                        && logged_finished(done, id, refs);
                lemma_logged_kept(done, self.host.trace(), crate::submodule_cleanup::apply::cleanup_record_view(*plan, id, started), id, refs);
                assert(self.trace() == self.host.trace());
            }
            if r is Ok {
                assert forall|i: int| 0 <= i < plan.revert_paths@.len() implies crate::submodule_cleanup::apply::reverted_submodule(
                    self.host,
                    old(self).trace().len() as int,
                    #[trigger] plan.revert_paths@[i]@,
                ) by {
                    crate::submodule_cleanup::apply::lemma_reverted_grows(h2, self.host, h1.trace().len() as int, plan.revert_paths@[i]@);
                    crate::submodule_cleanup::apply::lemma_reverted_from(self.host, old(self).trace().len() as int, h1.trace().len() as int, plan.revert_paths@[i]@);
                }
                if plan.uncommit_plan is Some {
                    let up = plan.uncommit_plan->Some_0;
                    let nh = choose|nh: Seq<char>| crate::rewrite::materialize::moved_branch(h2.trace(), up, nh);
                    assert(self.host.trace().take(h2.trace().len() as int) =~= h2.trace());
                    crate::rewrite::materialize::lemma_moved_kept(h2.trace(), self.host.trace(), up, nh);
                    assert(self.trace() == self.host.trace());
                    assert(crate::rewrite::materialize::moved_branch(self.trace(), up, nh));
                }
            }
            if r matches Err(SubmoduleCleanupError::StalePlan) {
                lemma_reads_chain3(start, locked, done, self.host.trace());
            }
        }
        r
    }

    pub fn plan_edit_message(&mut self, request: EditMessageRequest) -> (r: Result<
        RewritePlan,
        RewriteError,
    >)
        ensures
            r matches Ok(plan) ==> exists|t: Seq<char>|
                #[trigger] crate::rewrite::planner::target_resolved(
                    final(self).host_state(),
                    old(self).trace().len() as int,
                    request.commit@,
                    t,
                ) && (exists|i: int| 0 <= i < plan.commits@.len() && #[trigger] plan.commits@[i].source@ == t)
                    && forall|i: int|
                    0 <= i < plan.commits@.len() ==> crate::rewrite::planner::message_decided(
                        final(self).host_state(),
                        old(self).trace().len() as int,
                        #[trigger] plan.commits@[i],
                        t,
                        request.message@,
                    ),
            r matches Ok(plan) ==> crate::rewrite::preflight::range_listed(
                final(self).host_state(),
                old(self).trace().len() as int,
                plan.source_head@,
                plan.base@,
                crate::rewrite::planner::sources_of(plan.commits@),
            ),
            !starts_with_spec(request.base@, "refs/remotes/"@) ==> final(self).trace() == old(self).trace(),
            !starts_with_spec(request.base@, "refs/remotes/"@) ==> (r matches Err(
                RewriteError::InvalidState(m),
            ) && m@ == "Base must be a remote-tracking ref"@),
            r matches Ok(plan) ==> {
                &&& plan.operation == RewriteOperation::EditMessage
                &&& plan.base_ref@ == request.base@
                &&& plan.selected_paths@.len() == 0
                &&& plan.base_entries.map() == Map::<Seq<char>, Option<TreeEntryView>>::empty()
                &&& plan.commits@.len() > 0
                &&& plan.dropped_commits@.len() == 0
                &&& forall|i: int| 0 <= i < plan.commits@.len() ==> #[trigger] plan.commits@[i].action
                    == RewriteAction::Rebuild
            },
    {
        let ghost commit = request.commit@;
        let ghost message = request.message@;
        let r = crate::rewrite::planner::create_edit_message(&mut self.host, request);
        proof {
            assert(old(self).host_state() == old(self).host);
            assert(self.host_state() == self.host);
            assert(old(self).trace() == old(self).host.trace());
        }
        r
    }

    pub fn apply_rewrite(&mut self, plan: &RewritePlan) -> (r: Result<ApplyResult, ApplyError>)
        ensures
            r is Ok ==> crate::rewrite::materialize::rewrite_plan_held(final(self).host_state(), old(self).trace().len() as int, *plan),
            r matches Err(ApplyError::StalePlan) ==> reads_only(old(self).trace(), final(self).trace()),
            plan.commits@.len() == 0 ==> (r matches Err(e) && (e is Git || (e matches ApplyError::InvalidPlan(
                m,
            ) && m@ == "plan contains no commits"@))),
            r matches Ok(result) ==> result.old_head@ == plan.source_head@
                && result.dropped_commits.deep_view() == plan.dropped_commits.deep_view(),
            r matches Ok(result) ==> crate::rewrite::materialize::moved_branch(
                final(self).trace(),
                *plan,
                result.new_head@,
            ),
            r matches Ok(result) ==> exists|id: Seq<char>, started: Seq<char>|
                logged(final(self).trace(), #[trigger] crate::rewrite::materialize::rewrite_record_view(*plan, id, started))
                    && logged_finished(
                    final(self).trace(),
                    id,
                    Map::<Seq<char>, Seq<char>>::empty().insert(plan.branch@, result.new_head@),
                ),
    {
        let ghost start = self.host.trace();
        match self.host.lock() {
            Ok(()) => {},
            Err(e) => return Err(ApplyError::Git(e)),
        }
        let ghost locked = self.host.trace();
        let ghost h1 = self.host;
        let r = crate::rewrite::materialize::apply(&mut self.host, plan);
        let ghost h2 = self.host;
        let ghost done = self.host.trace();
        self.host.unlock();
        proof {
            if r matches Err(ApplyError::StalePlan) {
                lemma_reads_chain3(start, locked, done, self.host.trace());
            }
            if r is Ok {
                crate::rewrite::materialize::lemma_rewrite_held_grows(h2, self.host, old(self).trace().len() as int, h1.trace().len() as int, *plan);
                assert(self.host.trace().take(done.len() as int) =~= done);
                crate::rewrite::materialize::lemma_moved_kept(done, self.host.trace(), *plan, r->Ok_0.new_head@);
                let refs = Map::<Seq<char>, Seq<char>>::empty().insert(plan.branch@, r->Ok_0.new_head@);
                let (id, started) = choose|id: Seq<char>, started: Seq<char>|
                    logged(done, #[trigger] crate::rewrite::materialize::rewrite_record_view(*plan, id, started))
                        && logged_finished(done, id, refs);
                lemma_logged_kept(done, self.host.trace(), crate::rewrite::materialize::rewrite_record_view(*plan, id, started), id, refs);
                assert(self.trace() == self.host.trace());
            }
        }
        r
    }

    pub fn plan_quick_switch(&mut self, request: QuickSwitchRequest) -> (r: Result<
        QuickSwitchPlan,
        SwitchError,
    >)
        ensures
            plainly_invalid_branch(request.target_branch@) ==> final(self).trace() == old(self).trace(),
            plainly_invalid_branch(request.target_branch@) ==> (r matches Err(
                SwitchError::InvalidState(m),
            ) && m@ == "invalid branch name: "@ + request.target_branch@),
            r matches Ok(plan) ==> crate::switch::plan::plan_fits_request(plan, request),
            r matches Ok(plan) ==> crate::switch::plan::untracked_checked(
                final(self).host_state(),
                old(self).trace().len() as int,
                crate::switch::plan::plan_tree(plan),
                plan.untracked_conflicts.deep_view(),
            ),
    {
        crate::switch::plan::create(&mut self.host, request)
    }

    pub fn apply_quick_switch(&mut self, plan: &QuickSwitchPlan) -> (r: Result<
        QuickSwitchResult,
        SwitchError,
    >)
        ensures
            r is Ok ==> crate::switch::plan::plan_held(final(self).host_state(), old(self).trace().len() as int, *plan),
            r matches Err(SwitchError::StalePlan) ==> reads_only(old(self).trace(), final(self).trace()),
            r matches Ok(result) ==> crate::switch::apply::result_fits_plan(result, *plan),
            r matches Ok(result) ==> (!result.pull_decision_needed ==> exists|path: Seq<char>, id: Seq<char>|
                crate::switch::apply::finished_after(
                    old(self).host_state(),
                    final(self).host_state(),
                    path,
                    id,
                    crate::switch::model::saved_view(result.saved_work),
                )),
            r matches Ok(result) ==> (result.pull_decision_needed ==> crate::switch::apply::paused_at_pull(
                final(self).host_state(),
                *plan,
            )),
            r is Ok ==> exists|id: Seq<char>, started: Seq<char>|
                logged(final(self).trace(), #[trigger] crate::switch::record::switch_record_view(*plan, id, started)),
    {
        let ghost h0 = self.host;
        let ghost start = self.host.trace();
        match self.host.lock() {
            Ok(()) => {},
            Err(e) => return Err(SwitchError::Git(e)),
        }
        let ghost locked = self.host.trace();
        let ghost h1 = self.host;
        let r = crate::switch::apply::switch(&mut self.host, plan);
        let ghost done = self.host.trace();
        let ghost h2 = self.host;
        self.host.unlock();
        proof {
            if r matches Err(SwitchError::StalePlan) {
                lemma_reads_chain3(start, locked, done, self.host.trace());
            }
            if r is Ok {
                crate::switch::plan::lemma_plan_held_grows(h2, self.host, h1.trace().len() as int, *plan);
                crate::switch::plan::lemma_plan_held_from(self.host, old(self).trace().len() as int, h1.trace().len() as int, *plan);
                let result = r->Ok_0;
                let (rid, rstarted) = choose|id: Seq<char>, started: Seq<char>|
                    logged(done, #[trigger] crate::switch::record::switch_record_view(*plan, id, started));
                lemma_logged_kept(done, self.host.trace(), crate::switch::record::switch_record_view(*plan, rid, rstarted), rid, Map::empty());
                assert(self.trace() == self.host.trace());
                if !result.pull_decision_needed {
                    let (path, id) = choose|path: Seq<char>, id: Seq<char>|
                        crate::switch::apply::finished_after(h1, h2, path, id, crate::switch::model::saved_view(result.saved_work));
                    crate::switch::apply::lemma_finished_after_later(h1, h2, self.host, path, id, crate::switch::model::saved_view(result.saved_work));
                    crate::switch::apply::lemma_finished_after_earlier(h0, h1, self.host, path, id, crate::switch::model::saved_view(result.saved_work));
                    assert(crate::switch::apply::finished_after(
                        old(self).host_state(),
                        self.host_state(),
                        path,
                        id,
                        crate::switch::model::saved_view(result.saved_work),
                    ));
                } else {
                    crate::switch::apply::lemma_paused_later(h2, self.host, *plan);
                }
            }
        }
        r
    }

    pub fn resolve_quick_switch_pull(&mut self, resolution: PullResolution) -> (r: Result<
        QuickSwitchResult,
        SwitchError,
    >)
        ensures
            r matches Ok(result) ==> exists|k: int|
                0 <= k < final(self).trace().len() && (#[trigger] final(self).trace()[k] matches Effect::Load {
                    loaded: Some(loaded),
                    ..
                } && (crate::switch::record::paused_switch(loaded) matches Some(rec) && result.target_branch@
                    == rec.details["target_branch"@])),
            r matches Ok(result) ==> {
                &&& !result.pull_decision_needed
                &&& result.saved_work is None
                &&& result.target_saved_work is None
                &&& resolution == PullResolution::Cancel ==> !result.pulled && result.pull_warning is None
                &&& resolution == PullResolution::ReplaceWithRemote ==> result.pulled
            },
    {
        match self.host.lock() {
            Ok(()) => {},
            Err(e) => return Err(SwitchError::Git(e)),
        }
        let ghost locked = self.host.trace();
        let r = crate::switch::resolve::resolve(&mut self.host, resolution);
        let ghost h2 = self.host;
        self.host.unlock();
        proof {
            if r is Ok {
                let res = r->Ok_0;
                let k = choose|k: int|
                    locked.len() <= k < h2.trace().len() && (#[trigger] h2.trace()[k] matches Effect::Load {
                        loaded: Some(loaded),
                        ..
                    } && (crate::switch::record::paused_switch(loaded) matches Some(rec) && res.target_branch@
                        == rec.details["target_branch"@] && (h2.trace().last() matches Effect::Store {
                        records,
                        ..
                    } && exists|loaded2: Seq<crate::recording::oplog::OperationRecordView>, when: Seq<char>, head: Seq<char>|
                        records == #[trigger] crate::recording::oplog::finished_log(
                            loaded2,
                            rec.id,
                            when,
                            Map::<Seq<char>, Seq<char>>::empty().insert("HEAD"@, head),
                        ))));
                assert(self.host.trace()[k] == h2.trace()[k]);
                assert(0 <= k < self.trace().len() && self.trace()[k] == h2.trace()[k]);
            }
        }
        r
    }

    pub fn quick_switch_status(&mut self) -> (r: Result<Option<QuickSwitchStatus>, SwitchError>)
        ensures
            r matches Ok(found) ==> exists|dir: Seq<char>, loaded: Seq<crate::recording::oplog::OperationRecordView>|
                crate::recording::oplog::read_log(
                    old(self).trace().push(Effect::Setting),
                    final(self).trace(),
                    crate::recording::recovery::log_path(dir),
                    loaded,
                ) && (found is Some <==> crate::switch::record::paused_switch(loaded) is Some) && (found matches Some(
                    st,
                ) ==> crate::switch::resolve::status_of(st, crate::switch::record::paused_switch(loaded)->Some_0)),
            r matches Ok(Some(s)) ==> s.phase == QuickSwitchPhase::PullFastForwardFailed,
    {
        let r = crate::switch::resolve::status(&mut self.host);
        proof {
            if r is Ok {
                let (dir, loaded) = choose|dir: Seq<char>, loaded: Seq<crate::recording::oplog::OperationRecordView>|
                    crate::recording::oplog::read_log(
                        old(self).host.trace().push(Effect::Setting),
                        self.host.trace(),
                        crate::recording::recovery::log_path(dir),
                        loaded,
                    ) && (r->Ok_0 is Some <==> crate::switch::record::paused_switch(loaded) is Some) && (r->Ok_0 matches Some(
                        st,
                    ) ==> crate::switch::resolve::status_of(st, crate::switch::record::paused_switch(loaded)->Some_0));
                assert(old(self).trace() == old(self).host.trace());
                assert(self.trace() == self.host.trace());
            }
        }
        r
    }

    pub fn plan_history_switch(&mut self, request: HistorySwitchRequest) -> (r: Result<
        HistorySwitchPlan,
        SwitchError,
    >)
        ensures
            r matches Ok(plan) ==> plan.target_commit@ != plan.source_head@ && plan.carry_changes
                == request.carry_changes,
            r matches Ok(plan) ==> (request.commit is None ==> (request.until matches Some(u)
                && crate::switch::history_plan::until_resolved(
                final(self).host_state(),
                old(self).trace().len() as int,
                u@,
                plan.target_commit@,
            ))),
            r matches Ok(plan) ==> (request.commit matches Some(c) ==> crate::switch::history_plan::commit_resolved(
                final(self).host_state(),
                old(self).trace().len() as int,
                c@,
                plan.target_commit@,
            )),
            r matches Ok(plan) ==> crate::switch::plan::untracked_checked(
                final(self).host_state(),
                old(self).trace().len() as int,
                plan.target_commit@,
                plan.untracked_conflicts.deep_view(),
            ),
    {
        crate::switch::history_plan::create(&mut self.host, request)
    }

    pub fn apply_history_switch(&mut self, plan: &HistorySwitchPlan) -> (r: Result<
        HistorySwitchResult,
        SwitchError,
    >)
        ensures
            r is Ok ==> crate::switch::history_plan::history_plan_held(final(self).host_state(), old(self).trace().len() as int, *plan),
            r matches Err(SwitchError::StalePlan) ==> reads_only(old(self).trace(), final(self).trace()),
            r matches Ok(result) ==> result.target_commit@ == plan.target_commit@
                && result.present_branch@ == plan.source_branch@
                && result.source_branch@ == plan.source_branch@,
            r matches Ok(result) ==> exists|path: Seq<char>, id: Seq<char>, started: Seq<char>|
                #![trigger crate::switch::history_record::history_record_view(*plan, id, started), crate::switch::apply::finished_after(old(self).host_state(), final(self).host_state(), path, id, crate::switch::model::saved_view(result.saved_work))]
                logged(final(self).trace(), crate::switch::history_record::history_record_view(*plan, id, started))
                    && crate::switch::apply::finished_after(
                    old(self).host_state(),
                    final(self).host_state(),
                    path,
                    id,
                    crate::switch::model::saved_view(result.saved_work),
                ),
    {
        let ghost h0 = self.host;
        let ghost start = self.host.trace();
        match self.host.lock() {
            Ok(()) => {},
            Err(e) => return Err(SwitchError::Git(e)),
        }
        let ghost locked = self.host.trace();
        let ghost h1 = self.host;
        let r = crate::switch::history_apply::apply(&mut self.host, plan);
        let ghost h2 = self.host;
        let ghost done = self.host.trace();
        self.host.unlock();
        proof {
            if r is Ok {
                crate::switch::history_plan::lemma_history_held_grows(h2, self.host, old(self).trace().len() as int, h1.trace().len() as int, *plan);
                let saved = crate::switch::model::saved_view(r->Ok_0.saved_work);
                let (path, id, started) = choose|path: Seq<char>, id: Seq<char>, started: Seq<char>|
                    #![trigger crate::switch::history_record::history_record_view(*plan, id, started), crate::switch::apply::finished_after(h1, h2, path, id, saved)]
                    logged(done, crate::switch::history_record::history_record_view(*plan, id, started))
                        && crate::switch::apply::finished_after(h1, h2, path, id, saved);
                lemma_logged_kept(done, self.host.trace(), crate::switch::history_record::history_record_view(*plan, id, started), id, Map::empty());
                crate::switch::apply::lemma_finished_after_later(h1, h2, self.host, path, id, saved);
                crate::switch::apply::lemma_finished_after_earlier(h0, h1, self.host, path, id, saved);
                assert(self.trace() == self.host.trace());
                assert(old(self).host_state() == h0);
                assert(self.host_state() == self.host);
                assert(logged(self.trace(), crate::switch::history_record::history_record_view(*plan, id, started))
                    && crate::switch::apply::finished_after(old(self).host_state(), self.host_state(), path, id, saved));
            }
            if r matches Err(SwitchError::StalePlan) {
                lemma_reads_chain3(start, locked, done, self.host.trace());
            }
        }
        r
    }

    pub fn plan_split_branch(&mut self, request: SplitBranchRequest) -> (r: Result<
        SplitBranchPlan,
        SplitError,
    >)
        ensures
            r matches Ok(plan) ==> crate::split::plan::split_plan_held(final(self).host_state(), old(self).trace().len() as int, plan),
            r matches Ok(plan) ==> crate::split::plan::plan_fits_request(plan, request),
            r matches Ok(plan) ==> crate::split::plan::changes_read(final(self).host_state(), old(self).trace().len() as int, plan),
            r matches Err(SplitError::NoChanges) ==> crate::split::plan::nothing_covered(
                final(self).host_state(),
                old(self).trace().len() as int,
                request.paths.deep_view(),
            ),
            !crate::split::paths::trimmed_valid(request.paths.deep_view()) || plainly_invalid_branch(
                request.new_branch@,
            ) ==> r is Err,
    {
        crate::split::plan::create(&mut self.host, request)
    }

    pub fn apply_split_branch(&mut self, plan: &SplitBranchPlan) -> (r: Result<
        SplitBranchResult,
        SplitError,
    >)
        ensures
            r is Ok ==> crate::split::plan::split_plan_held(final(self).host_state(), old(self).trace().len() as int, *plan),
            r matches Err(SplitError::StalePlan) ==> reads_only(old(self).trace(), final(self).trace()),
            r matches Ok(result) ==> {
                &&& result.branch@ == plan.new_branch@
                &&& result.reference@ == plan.new_branch_ref@
                &&& result.merge_base@ == plan.merge_base@
                &&& result.paths.deep_view() == plan.changed_paths.deep_view()
            },
            r matches Err(SplitError::ExistingBranch(_)) ==> reads_only(old(self).trace(), final(self).trace()),
            r matches Ok(result) ==> exists|k: int|
                0 <= k < final(self).trace().len() && #[trigger] final(self).trace()[k]
                    == crate::split::apply::branch_create(*plan, result.commit@),
            r matches Ok(result) ==> exists|id: Seq<char>, started: Seq<char>|
                logged(final(self).trace(), #[trigger] crate::split::record::split_record_view(*plan, id, started))
                    && logged_finished(
                    final(self).trace(),
                    id,
                    Map::<Seq<char>, Seq<char>>::empty().insert(plan.new_branch_ref@, result.commit@),
                ),
    {
        let ghost start = self.host.trace();
        match self.host.lock() {
            Ok(()) => {},
            Err(e) => return Err(SplitError::Git(e)),
        }
        let ghost locked = self.host.trace();
        let ghost h1 = self.host;
        let r = crate::split::apply::split(&mut self.host, plan);
        let ghost done = self.host.trace();
        let ghost h2 = self.host;
        self.host.unlock();
        proof {
            if r matches Err(SplitError::StalePlan) {
                lemma_reads_chain3(start, locked, done, self.host.trace());
            }
            if r matches Err(SplitError::ExistingBranch(_)) {
                lemma_reads_chain3(start, locked, done, self.host.trace());
            }
            if r is Ok {
                crate::split::plan::lemma_split_held_grows(h2, self.host, old(self).trace().len() as int, h1.trace().len() as int, *plan);
            }
            if r is Ok {
                let k = choose|k: int|
                    0 <= k < h2.trace().len() && #[trigger] h2.trace()[k]
                        == crate::split::apply::branch_create(*plan, r->Ok_0.commit@);
                assert(self.host.trace()[k] == h2.trace()[k]);
                assert(0 <= k < self.trace().len() && self.trace()[k] == crate::split::apply::branch_create(*plan, r->Ok_0.commit@));
                let refs = Map::<Seq<char>, Seq<char>>::empty().insert(plan.new_branch_ref@, r->Ok_0.commit@);
                let (id, started) = choose|id: Seq<char>, started: Seq<char>|
                    logged(done, #[trigger] crate::split::record::split_record_view(*plan, id, started))
                        && logged_finished(done, id, refs);
                lemma_logged_kept(done, self.host.trace(), crate::split::record::split_record_view(*plan, id, started), id, refs);
            }
        }
        r
    }

    pub fn list_saved_work(&mut self) -> (r: Result<Vec<SavedWork>, SwitchError>)
        ensures
            final(self).trace() == old(self).trace().push(crate::switch::plan::list_saved_effect()),
            r matches Ok(v) ==> (final(self).reply(old(self).trace().len() as int) matches Some(out)
                && v@.len() == crate::text::nonempty_spec(crate::text::split_spec(out, 10)).len()
                && forall|i: int|
                0 <= i < v@.len() ==> crate::switch::plan::saved_work_line_spec(
                    #[trigger] crate::text::nonempty_spec(crate::text::split_spec(out, 10))[i],
                ) == Some((v@[i].branch@, v@[i].reference@, v@[i].snapshot@))),
            r matches Ok(v) ==> forall|i: int|
                0 <= i < v@.len() ==> (#[trigger] v@[i]).reference@ == wip_prefix() + v@[i].branch@
                    && crate::rewrite::model::valid_object_id(v@[i].snapshot@),
    {
        crate::switch::plan::list_saved_work(&mut self.host)
    }

    pub fn restore_saved_work(&mut self) -> (r: Result<RestoreSavedWorkResult, SwitchError>)
        ensures
            r matches Ok(res) ==> res.reference@ == wip_prefix() + res.branch@,
            r matches Err(SwitchError::MissingSavedWork(_)) ==> reads_only(old(self).trace(), final(self).trace()),
            r matches Ok(res) ==> exists|k: int|
                0 <= k < final(self).trace().len() && #[trigger] final(self).trace()[k]
                    == crate::switch::state::branch_effect() && (final(self).reply(k) matches Some(o)
                    && crate::switch::state::branch_read(o, res.branch@)),
            r matches Ok(res) ==> exists|k: int|
                0 <= k < final(self).trace().len() && #[trigger] final(self).trace()[k]
                    == crate::switch::stash::apply_index_effect(res.reference@),
            r matches Ok(res) ==> (res.warning matches Some(w) ==> exists|id: Seq<char>|
                #[trigger] crate::switch::restore_apply::restore_warning(w@, id)),
    {
        let ghost start = self.host.trace();
        match self.host.lock() {
            Ok(()) => {},
            Err(e) => return Err(SwitchError::Git(e)),
        }
        let ghost locked = self.host.trace();
        let r = crate::switch::saved::restore(&mut self.host);
        let ghost done = self.host.trace();
        let ghost h2 = self.host;
        self.host.unlock();
        proof {
            if r matches Err(SwitchError::MissingSavedWork(_)) {
                lemma_reads_chain3(start, locked, done, self.host.trace());
            }
            if r is Ok {
                let res = r->Ok_0;
                let k = choose|k: int|
                    locked.len() <= k < h2.trace().len() && #[trigger] h2.trace()[k]
                        == crate::switch::state::branch_effect() && (h2.reply(k) matches Some(o)
                        && crate::switch::state::branch_read(o, res.branch@));
                assert(self.host.trace()[k] == h2.trace()[k]);
                assert(self.host.reply(k) == h2.reply(k));
                assert(0 <= k < self.trace().len() && self.trace()[k] == crate::switch::state::branch_effect()
                    && self.reply(k) == h2.reply(k));
                let k2 = choose|k: int|
                    locked.len() <= k < h2.trace().len() && #[trigger] h2.trace()[k]
                        == crate::switch::stash::apply_index_effect(res.reference@);
                assert(self.host.trace()[k2] == h2.trace()[k2]);
                assert(0 <= k2 < self.trace().len() && self.trace()[k2] == crate::switch::stash::apply_index_effect(res.reference@));
            }
        }
        r
    }

    pub fn delete_saved_work(&mut self, branch: String) -> (r: Result<DeleteSavedWorkResult, SwitchError>)
        ensures
            r matches Ok(res) ==> res.branch@ == branch@ && res.reference@ == wip_prefix() + branch@,
            r matches Err(SwitchError::MissingSavedWork(_)) ==> reads_only(old(self).trace(), final(self).trace()),
            r matches Ok(res) ==> exists|k: int|
                0 <= k < final(self).trace().len() && crate::switch::saved::deletes_saved_ref(
                    #[trigger] final(self).trace()[k],
                    res.reference@,
                ),
    {
        let ghost start = self.host.trace();
        match self.host.lock() {
            Ok(()) => {},
            Err(e) => return Err(SwitchError::Git(e)),
        }
        let ghost locked = self.host.trace();
        let r = crate::switch::saved::delete(&mut self.host, branch.as_str());
        let ghost done = self.host.trace();
        let ghost h2 = self.host;
        self.host.unlock();
        proof {
            if r matches Err(SwitchError::MissingSavedWork(_)) {
                lemma_reads_chain3(start, locked, done, self.host.trace());
            }
            if r is Ok {
                let k = choose|k: int|
                    locked.len() <= k < h2.trace().len() && crate::switch::saved::deletes_saved_ref(
                        #[trigger] h2.trace()[k],
                        r->Ok_0.reference@,
                    );
                assert(self.host.trace()[k] == h2.trace()[k]);
                assert(0 <= k < self.trace().len() && crate::switch::saved::deletes_saved_ref(
                    self.trace()[k],
                    r->Ok_0.reference@,
                ));
            }
        }
        r
    }

    pub fn preview_saved_work_apply(&mut self, branch: String) -> (r: Result<
        SavedWorkApplyPreview,
        SwitchError,
    >)
        ensures
            r matches Ok(p) ==> p.branch@ == branch@,
            r matches Err(SwitchError::MissingSavedWork(_)) ==> reads_only(old(self).trace(), final(self).trace()),
    {
        crate::switch::preview::preview(&mut self.host, branch.as_str())
    }

    /// The branch the Present marker remembers, while history is checked out.
    /// The branch the Present marker remembers, if there is a marker.
    pub fn present_branch(&mut self) -> (r: Result<Option<String>, SwitchError>)
        ensures
            final(self).trace() == old(self).trace().push(crate::switch::present::read_effect()),
            final(self).reply(old(self).trace().len() as int) is None ==> r matches Ok(None),
            final(self).reply(old(self).trace().len() as int) matches Some(out) ==> (
            vstd::utf8::valid_utf8(out) <==> r is Ok) && (r matches Ok(b)
                ==> crate::switch::present::opt_text(b) == crate::switch::present::present_branch_spec(
                crate::text::trim_spec(vstd::utf8::decode_utf8(out)),
            )),
    {
        crate::switch::present::read(&mut self.host)
    }

    /// The paths that differ between `base` and `HEAD`, as Git's diff lists them.
    pub fn list_changed_paths(&mut self, base: RefName) -> (r: Result<Vec<ChangedPath>, InspectionError>)
        ensures
            final(self).trace() == old(self).trace().push(crate::inspection::changed_paths_effect(base@)),
            r is Ok <==> (final(self).reply(old(self).trace().len() as int) matches Some(out)
                && crate::inspection::changed_from(out) is Some),
            r matches Ok(v) ==> (final(self).reply(old(self).trace().len() as int) matches Some(out)
                && crate::inspection::changed_from(out) == Some(crate::inspection::changed_views(v@))),
    {
        crate::inspection::changed_paths(&mut self.host, &base)
    }

    pub fn list_revert_paths(&mut self, base: RefName) -> (r: Result<Vec<ChangedPath>, RevertError>)
        ensures
            r is Ok ==> final(self).trace() == old(self).trace().push(
                crate::inspection::changed_paths_effect(base@),
            ).push(crate::revert::paths::dirty_effect()),
            r matches Ok(v) ==> (final(self).reply(old(self).trace().len() as int) matches Some(c)
                && final(self).reply(old(self).trace().len() + 1int) matches Some(d)
                && crate::inspection::changed_from(c) matches Some(committed)
                && crate::revert::paths::dirty_read(d) matches Some(local) && crate::map::map_of(
                crate::revert::paths::keyed(v@),
            ) == crate::revert::paths::entries_map(committed + local)),
            r matches Ok(v) ==> crate::order::strictly_sorted(crate::revert::paths::paths_of(v@)),
    {
        crate::revert::paths::revertible_paths(&mut self.host, &base)
    }

    /// The dirty submodules, flagged by whether the commits since `base` touch them.
    pub fn list_dirty_submodules(&mut self, base: Option<RefName>) -> (r: Result<
        Vec<DirtySubmodule>,
        InspectionError,
    >)
        ensures
            old(self).trace().len() < final(self).trace().len(),
            final(self).trace()[old(self).trace().len() as int] == (Effect::Run {
                args: seq!["submodule"@, "status"@],
                writes: false,
            }),
            r matches Ok(v) ==> (final(self).reply(old(self).trace().len() as int) matches Some(printed)
                && v@.len() == crate::inspection::dirty_names_spec(crate::text::split_spec(printed, 10)).len()
                && forall|i: int|
                0 <= i < v@.len() ==> (#[trigger] v@[i]).path@ == vstd::utf8::decode_utf8(
                    crate::inspection::dirty_names_spec(crate::text::split_spec(printed, 10))[i],
                )),
            r matches Ok(v) ==> base is None ==> forall|i: int|
                0 <= i < v@.len() ==> !(#[trigger] v@[i]).in_editable_range,
            r matches Ok(v) ==> base matches Some(b) ==> forall|i: int|
                0 <= i < v@.len() ==> exists|k: int|
                    old(self).trace().len() < k < final(self).trace().len() && final(self).trace()[k]
                        == crate::inspection::range_touch_effect(b@, (#[trigger] v@[i]).path@)
                        && (v@[i].in_editable_range <==> (final(self).reply(k) matches Some(o)
                        && crate::inspection::text_in(o))),
    {
        match &base {
            Some(b) => crate::inspection::dirty_submodules(&mut self.host, Some(b)),
            None => crate::inspection::dirty_submodules(&mut self.host, None),
        }
    }

    /// The worktree's top directory; a failure is reported as its message.
    pub fn worktree_root(&mut self) -> (r: Result<String, InspectionError>)
        ensures
            r matches Err(e) ==> e is Parse,
    {
        match self.host.worktree_root() {
            Ok(root) => Ok(root),
            Err(e) => Err(InspectionError::Parse(e.message())),
        }
    }
}

} // verus!
