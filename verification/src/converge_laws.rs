//! What holds of every convergence.

use vstd::prelude::*;

#[allow(unused_imports)]
use crate::closing::{
    clearing_script, closing_advanced, closing_completed, freeing_script, ClosingModel,
    ClosingStageModel, EndModel, OutcomeModel,
};
#[allow(unused_imports)]
use crate::converge::{from_pass, session_advanced, ConvergenceModel, SessionModel};
#[allow(unused_imports)]
use crate::diff::{difference, hints_applicable};
#[allow(unused_imports)]
use crate::error::ErrorModel;
#[allow(unused_imports)]
use crate::format::{decimal, signed_decimal};
#[allow(unused_imports)]
use crate::entry::{
    entry_advanced, entry_completed, held, migration_key, said, EntryModel, EntryStageModel,
    PassModel, SetupModel,
};
#[allow(unused_imports)]
use crate::introspect::schema_text;
#[allow(unused_imports)]
use crate::options::{ConvergeMode, Duration, Failpoint};
#[allow(unused_imports)]
use crate::policy::{
    destructive_changes, injected, lemma_nothing_violates_nothing, missing_feature,
    policy_violation,
};
#[allow(unused_imports)]
use crate::schema::{Capabilities, SnapshotModel};
#[allow(unused_imports)]
use crate::script::{
    begin_op, fed, fresh, rollback_action, suits, undo_ops, ActionModel, FedModel, ReplyModel,
    ScriptModel,
};
#[allow(unused_imports)]
use crate::text::Text;
#[allow(unused_imports)]
use crate::work::{
    final_mode, probed, version_after, version_in, with_one_applied, work_advanced, work_at,
    work_completed, work_data, work_hook, work_loaded, work_planned, work_preflight, work_probe,
    work_start, ActivityModel, ClaimModel, JobModel, ProgressModel, TallyModel, WorkModel,
    WorkStageModel,
};

verus! {

// ---------------------------------------------------------------------------
// The lease
// ---------------------------------------------------------------------------

/// Where someone holds the lease, it is not taken: the transaction is left, and the
/// convergence ends with an error that says who holds it and for how long.
pub proof fn lemma_held_lease_excludes(
    setup: SetupModel,
    replies: Seq<ReplyModel>,
    reply: ReplyModel,
    recovering: bool,
    then: u64,
    now: u64,
    owner: Text,
    secs: nat,
)
    requires
        held(said(replies[2]), said(replies[3]), then) == Some((owner, secs)),
        suits(rollback_action(), reply),
    ensures
        entry_completed(
            setup,
            EntryStageModel::Lease { recovering, now: then },
            replies,
            now,
        ) matches PassModel::Ask(leaving) && leaving.script.request() == rollback_action()
            && entry_advanced(setup, leaving, reply, now) == PassModel::Refused(
            ErrorModel::MigrationBusy { owner, remaining_secs: secs as u64 },
        ),
{
}

/// A migration that was admitted never ends without its closing: from the lease on, the
/// session asks until it has looked after the lease.
pub proof fn lemma_admitted_goes_on(
    setup: SetupModel,
    lease: Text,
    recovering: bool,
    elapsed: Duration,
)
    ensures
        from_pass(setup, PassModel::Admitted { lease, recovering }, elapsed) is Ask,
{
}

/// No answer ends a session in the middle of its migration: the closing follows.
pub proof fn lemma_migration_leads_to_closing(
    s: SessionModel,
    reply: ReplyModel,
    now: u64,
    elapsed: Duration,
)
    requires
        s.phase is Work,
    ensures
        session_advanced(s, reply, now, elapsed) matches ConvergenceModel::Ask(next)
            && (next.phase is Work || next.phase is Closing),
{
}

/// How the convergence comes out, at a stage of its closing.
pub open spec fn outcome_at(stage: ClosingStageModel) -> OutcomeModel {
    match stage {
        ClosingStageModel::Phase(e) | ClosingStageModel::Owner(e) | ClosingStageModel::Clearing(e)
        | ClosingStageModel::Unclear(e) => Err(e),
        ClosingStageModel::Holder(o) | ClosingStageModel::Freeing(o) => o,
    }
}

/// The closing changes nothing of how a convergence comes out, whatever is answered;
/// and it ends only behind the question who holds the lease.
pub proof fn lemma_closing_keeps_outcome(c: ClosingModel, reply: ReplyModel)
    ensures
        match closing_advanced(c, reply) {
            EndModel::Ask(next) => outcome_at(next.stage) == outcome_at(c.stage) && next.lease
                == c.lease,
            EndModel::Ended(o) => o == outcome_at(c.stage) && (c.stage is Holder || c.stage
                is Freeing),
        },
{
}

/// A lease that is still held is given back: its owner and its expiry are deleted, and
/// then the convergence ends.
pub proof fn lemma_lease_given_back(
    lease: Text,
    outcome: OutcomeModel,
    first: ReplyModel,
    second: ReplyModel,
)
    requires
        suits(ActionModel::DeleteMeta("migration_owner"@), first),
        suits(ActionModel::DeleteMeta("migration_lease_until"@), second),
    ensures
        closing_completed(
            lease,
            ClosingStageModel::Holder(outcome),
            seq![ReplyModel::Text(Some(lease))],
        ) matches EndModel::Ask(freeing) && freeing.script.request() == ActionModel::DeleteMeta(
            "migration_owner"@,
        ) && (closing_advanced(freeing, first) matches EndModel::Ask(last)
            && last.script.request() == ActionModel::DeleteMeta("migration_lease_until"@)
            && closing_advanced(last, second) == EndModel::Ended(outcome)),
{
    let freeing = ClosingModel {
        lease,
        stage: ClosingStageModel::Freeing(outcome),
        script: fresh(freeing_script()),
    };
    let last = ClosingModel {
        script: ScriptModel { ops: freeing_script(), replies: seq![first] },
        ..freeing
    };
    assert(Seq::<ReplyModel>::empty().push(first) =~= seq![first]);
    assert(closing_advanced(freeing, first) == EndModel::Ask(last));
}

// ---------------------------------------------------------------------------
// Marks
// ---------------------------------------------------------------------------

/// A migration that fails before the plan runs clears its marks, where it still holds
/// the lease: the next convergence finds no interrupted one.
pub proof fn lemma_early_failure_clears_marks(lease: Text, e: ErrorModel, phase: Option<Text>)
    requires
        phase != Some("ddl"@) || e == injected(Failpoint::BeforeExecute),
        phase != Some("complete"@),
    ensures
        closing_completed(
            lease,
            ClosingStageModel::Phase(e),
            seq![ReplyModel::Text(phase)],
        ) matches EndModel::Ask(c) && c.stage == ClosingStageModel::Owner(e),
        closing_completed(
            lease,
            ClosingStageModel::Owner(e),
            seq![ReplyModel::Text(Some(lease))],
        ) matches EndModel::Ask(c) && c.script == fresh(clearing_script()),
{
}

/// A migration that fails while or after the plan runs keeps its marks: the next
/// convergence recovers from it.
pub proof fn lemma_late_failure_keeps_marks(lease: Text, e: ErrorModel, phase: Text)
    requires
        phase == "complete"@ || phase == "ddl"@ && e != injected(Failpoint::BeforeExecute),
    ensures
        closing_completed(
            lease,
            ClosingStageModel::Phase(e),
            seq![ReplyModel::Text(Some(phase))],
        ) matches EndModel::Ask(c) && c.stage == ClosingStageModel::Holder(Err(e)),
{
}

// ---------------------------------------------------------------------------
// The fast path
// ---------------------------------------------------------------------------

/// Whether a request changes nothing.
pub open spec fn only_reads(a: ActionModel) -> bool {
    a is GetMeta || a is QueryOnly || a is SchemaCounter
}

/// Whether the entry has not asked for the lease yet.
pub open spec fn before_lease(stage: EntryStageModel) -> bool {
    !(stage is Lease || stage is Held || stage is Taking)
}

/// Whether the entry has its requests from its stage: all of them read, up to the lease,
/// but for the one that makes the state table.
pub open spec fn reads_up_to_lease(g: EntryModel) -> bool {
    &&& g.script.waits()
    &&& before_lease(g.stage) && !(g.stage is Bootstrap) ==> forall|i: int|
        0 <= i < g.script.ops.len() ==> only_reads((#[trigger] g.script.ops[i]).action)
}

/// Up to the lease the entry reads, and once it has asked for the lease it does not come
/// back: so a convergence that finds nothing to do has only read, but for the state
/// table that it made if there was none.
pub proof fn lemma_fast_path_only_reads(
    setup: SetupModel,
    g: EntryModel,
    reply: ReplyModel,
    now: u64,
)
    requires
        reads_up_to_lease(g),
    ensures
        before_lease(g.stage) && !(g.stage is Bootstrap) ==> only_reads(g.script.request()),
        match entry_advanced(setup, g, reply, now) {
            PassModel::Ask(next) => reads_up_to_lease(next) && (before_lease(next.stage)
                ==> before_lease(g.stage)),
            PassModel::Unchanged => before_lease(g.stage),
            _ => true,
        },
{
}

/// Whether the entry can still find that nothing has changed.
pub open spec fn may_skip(stage: EntryStageModel) -> bool {
    match stage {
        EntryStageModel::ReadOnly | EntryStageModel::Bootstrap | EntryStageModel::Markers => true,
        EntryStageModel::Pending { unchanged, .. } => unchanged,
        EntryStageModel::Counter | EntryStageModel::Drift(_) => true,
        _ => false,
    }
}

/// A convergence is skipped only where the stored fingerprint is that of the schema and
/// no interrupted migration is marked.
pub proof fn lemma_changed_schema_not_skipped(
    setup: SetupModel,
    stored: ReplyModel,
    mark: ReplyModel,
    now: u64,
)
    requires
        said(stored) != Some(setup.schema_hash) || said(mark) == Some("1"@),
    ensures
        match entry_completed(setup, EntryStageModel::Markers, seq![stored, mark], now) {
            PassModel::Ask(next) => !may_skip(next.stage),
            PassModel::Unchanged => false,
            _ => true,
        },
{
}

/// A data migration that has not been applied is not skipped, though the schema is
/// unchanged.
pub proof fn lemma_pending_not_skipped(
    setup: SetupModel,
    index: nat,
    unchanged: bool,
    recovering: bool,
    now: u64,
)
    ensures
        entry_completed(
            setup,
            EntryStageModel::Pending { index, unchanged, recovering },
            seq![ReplyModel::Text(None)],
            now,
        ) matches PassModel::Ask(next) && !may_skip(next.stage),
{
}

/// A database whose schema counter is not the one that was stored is not skipped:
/// someone else has changed its schema.
pub proof fn lemma_drift_not_skipped(setup: SetupModel, counter: i64, stored: ReplyModel, now: u64)
    requires
        said(stored) != Some(signed_decimal(counter as int)),
    ensures
        entry_completed(setup, EntryStageModel::Drift(counter), seq![stored], now) matches
            PassModel::Ask(next) && !may_skip(next.stage),
{
}

/// What cannot be skipped stays so: the convergence is admitted under the lease, or
/// refused.
pub proof fn lemma_not_skipped_stays_so(
    setup: SetupModel,
    g: EntryModel,
    reply: ReplyModel,
    now: u64,
)
    requires
        !may_skip(g.stage),
    ensures
        match entry_advanced(setup, g, reply, now) {
            PassModel::Ask(next) => !may_skip(next.stage),
            PassModel::Unchanged => false,
            _ => true,
        },
{
}

/// A migration that follows an interrupted one says so in its report.
pub proof fn lemma_recovery_is_reported(t: TallyModel)
    ensures
        final_mode(t, true) == ConvergeMode::CrashRecovery,
        final_mode(t, false) != ConvergeMode::CrashRecovery,
{
}

// ---------------------------------------------------------------------------
// Permission
// ---------------------------------------------------------------------------

/// Where the policy refuses the difference, the migration fails at once with what the
/// policy says: nothing of it is run.
pub proof fn lemma_policy_comes_first(
    setup: SetupModel,
    c: ClaimModel,
    desired: SnapshotModel,
    actual: SnapshotModel,
    caps: Option<Capabilities>,
)
    requires
        hints_applicable(desired, actual, setup.options.rename_hints),
        policy_violation(
            difference(desired, actual, setup.options.rename_hints),
            setup.options.policy,
        ) is Some,
    ensures
        work_loaded(setup, c, desired, actual, caps) == ProgressModel::Failed(
            policy_violation(
                difference(desired, actual, setup.options.rename_hints),
                setup.options.policy,
            )->0,
        ),
{
    reveal(work_loaded);
    let diff = difference(desired, actual, setup.options.rename_hints);
    if diff.nothing() {
        lemma_nothing_violates_nothing(diff, setup.options.policy);
    }
}

/// Whether no request of a script runs a statement or checks the rows, and none is
/// undone.
pub open spec fn runs_nothing(s: ScriptModel) -> bool {
    forall|i: int|
        0 <= i < s.ops.len() ==> !((#[trigger] s.ops[i]).action is Execute) && !(s.ops[i].action
            is Batch) && !(s.ops[i].action is ForeignKeyCheck) && (s.ops[i].rule is Stop
            || s.ops[i].rule is Ignore)
}

/// Whether a migration only looks: it has run no statement, and its next requests run
/// none.
pub open spec fn looks(w: WorkModel) -> bool {
    match w.activity {
        ActivityModel::Running { .. } => false,
        ActivityModel::Asking { stage, script } => runs_nothing(script) && script.waits() && (
        match stage {
            WorkStageModel::Introspect | WorkStageModel::Preflight | WorkStageModel::Load(_)
            | WorkStageModel::Backup(_) | WorkStageModel::Hook(_) | WorkStageModel::Probe(_) => true,
            WorkStageModel::DryRun(report) => report.mode == ConvergeMode::DryRun,
            _ => false,
        }),
    }
}

spec fn stays_looking(p: ProgressModel) -> bool {
    match p {
        ProgressModel::Ask(w) => looks(w),
        ProgressModel::Done(_) => false,
        ProgressModel::Failed(_) => true,
    }
}

proof fn lemma_dry_planned(
    setup: SetupModel,
    c: ClaimModel,
    job: JobModel,
    caps: Capabilities,
)
    requires
        setup.options.dry_run,
    ensures
        stays_looking(work_planned(setup, c, job, caps)),
{
    reveal(work_planned);
}

proof fn lemma_dry_probe(setup: SetupModel, c: ClaimModel, job: JobModel)
    requires
        setup.options.dry_run,
    ensures
        stays_looking(work_probe(setup, c, job)),
        stays_looking(work_hook(setup, c, job)),
{
    reveal(work_probe);
    reveal(work_hook);
    if let Some(caps) = job.caps {
        lemma_dry_planned(setup, c, job, caps);
    }
}

proof fn lemma_dry_loaded(
    setup: SetupModel,
    c: ClaimModel,
    desired: SnapshotModel,
    actual: SnapshotModel,
    caps: Option<Capabilities>,
)
    requires
        setup.options.dry_run,
    ensures
        stays_looking(work_loaded(setup, c, desired, actual, caps)),
{
    reveal(work_loaded);
    let diff = difference(desired, actual, setup.options.rename_hints);
    lemma_dry_probe(setup, c, JobModel { desired, actual, diff, caps });
}

/// A dry run starts by looking.
pub proof fn lemma_dry_run_starts_looking(setup: SetupModel, c: ClaimModel)
    ensures
        work_start(setup, c) matches ProgressModel::Ask(w) ==> looks(w),
{
}

/// A dry run runs nothing, neither a plan nor a data migration, whether or not there
/// is a difference: it only looks, until it fails or ends with the report of a dry run.
pub proof fn lemma_dry_run_runs_nothing(
    setup: SetupModel,
    w: WorkModel,
    reply: ReplyModel,
    now: u64,
    elapsed: Duration,
)
    requires
        setup.options.dry_run,
        looks(w),
        suits(w.script().request(), reply),
    ensures
        !(w.script().request() is Execute) && !(w.script().request() is Batch),
        match work_advanced(setup, w, reply, now, elapsed) {
            ProgressModel::Ask(next) => looks(next),
            ProgressModel::Done(report) => report.mode == ConvergeMode::DryRun,
            ProgressModel::Failed(_) => true,
        },
{
    let c = w.claim;
    if let ActivityModel::Asking { stage, script } = w.activity {
        let waiting = script.ops[script.replies.len() as int];
        assert(waiting.rule is Stop || waiting.rule is Ignore);
        if let FedModel::Complete(replies) = fed(script, reply) {
            match stage {
                WorkStageModel::Preflight | WorkStageModel::Introspect => {
                    reveal(work_preflight);
                },
                WorkStageModel::Load(caps) => {
                    if let (ReplyModel::Schema(desired), ReplyModel::Schema(actual)) = (
                        replies[0],
                        replies[1],
                    ) {
                        lemma_dry_loaded(setup, c, desired, actual, caps);
                    }
                },
                WorkStageModel::Backup(job) | WorkStageModel::Hook(job) => {
                    lemma_dry_probe(setup, c, job);
                },
                WorkStageModel::Probe(job) => {
                    lemma_dry_planned(setup, c, job, probed(replies[0]));
                },
                _ => {},
            }
        }
    }
}

/// A hook that refuses ends the migration before its plan is made.
pub proof fn lemma_hook_can_refuse(
    setup: SetupModel,
    c: ClaimModel,
    job: JobModel,
    message: Text,
    now: u64,
    elapsed: Duration,
)
    ensures
        work_completed(
            setup,
            c,
            WorkStageModel::Hook(job),
            seq![ReplyModel::Rejected(message)],
            now,
            elapsed,
        ) == ProgressModel::Failed(
            ErrorModel::PreDestructiveHookRejected {
                message,
                blocked_operations: destructive_changes(job.diff).operations(),
            },
        ),
{
}

/// Where data can be lost, the hook is asked before the plan is made.
pub proof fn lemma_hook_is_asked(setup: SetupModel, c: ClaimModel, job: JobModel)
    requires
        destructive_changes(job.diff).has_changes(),
    ensures
        work_hook(setup, c, job) matches ProgressModel::Ask(w) && w.script().request()
            == ActionModel::Hook(destructive_changes(job.diff)),
{
    reveal(work_hook);
}

/// Where data can be lost and a place for backups is given, the schema as it is goes
/// there before anything else is done, and before the hook is asked.
pub proof fn lemma_backup_comes_first(
    setup: SetupModel,
    c: ClaimModel,
    desired: SnapshotModel,
    actual: SnapshotModel,
    caps: Option<Capabilities>,
    path: Text,
    reply: ReplyModel,
    now: u64,
    elapsed: Duration,
)
    requires
        setup.options.backup_before_destructive == Some(path),
        hints_applicable(desired, actual, setup.options.rename_hints),
        destructive_changes(
            difference(desired, actual, setup.options.rename_hints),
        ).has_changes(),
        policy_violation(
            difference(desired, actual, setup.options.rename_hints),
            setup.options.policy,
        ) is None,
        reply is Done,
    ensures
        ({
            let diff = difference(desired, actual, setup.options.rename_hints);
            work_loaded(setup, c, desired, actual, caps) matches ProgressModel::Ask(w)
                && w.script().request() == (ActionModel::Backup {
                path,
                sql: schema_text(actual),
            }) && (work_advanced(setup, w, reply, now, elapsed) matches ProgressModel::Ask(next)
                && next.script().request() == ActionModel::Hook(destructive_changes(diff)))
        }),
{
    reveal(work_loaded);
    reveal(work_hook);
}

/// A schema that needs what the database does not have ends the migration before
/// anything is changed.
pub proof fn lemma_missing_feature_refused(
    setup: SetupModel,
    c: ClaimModel,
    job: JobModel,
    caps: Capabilities,
    message: Text,
)
    requires
        missing_feature(job.desired, caps) == Some(message),
    ensures
        work_planned(setup, c, job, caps) == ProgressModel::Failed(
            ErrorModel::UnsupportedFeature(message),
        ),
{
    reveal(work_planned);
}

/// A plan is run only after the schema as it was has been recorded as the previous
/// one, and the migration as one that changes the schema.
pub proof fn lemma_previous_is_recorded(
    setup: SetupModel,
    c: ClaimModel,
    job: JobModel,
    caps: Capabilities,
    reply: ReplyModel,
    now: u64,
    elapsed: Duration,
)
    requires
        !setup.options.dry_run,
        reply is Done,
    ensures
        match work_planned(setup, c, job, caps) {
            ProgressModel::Ask(w) => {
                &&& w.script().request() == (ActionModel::SetMeta {
                    key: "previous_schema_sql"@,
                    value: schema_text(job.actual),
                })
                &&& work_advanced(setup, w, reply, now, elapsed) matches ProgressModel::Ask(next)
                    && next.script().request() == (ActionModel::SetMeta {
                    key: "migration_phase"@,
                    value: "ddl"@,
                }) && !(next.activity is Running)
            },
            ProgressModel::Done(_) => false,
            ProgressModel::Failed(_) => true,
        },
{
    reveal(work_planned);
}

// ---------------------------------------------------------------------------
// Data migrations and the version
// ---------------------------------------------------------------------------

/// A data migration that has been applied is not applied again: the next one follows,
/// and nothing is counted.
pub proof fn lemma_applied_once(
    setup: SetupModel,
    c: ClaimModel,
    tally: TallyModel,
    index: nat,
    mark: Text,
    now: u64,
    elapsed: Duration,
)
    requires
        index < setup.options.data_migrations.len(),
    ensures
        work_completed(
            setup,
            c,
            WorkStageModel::Asking { tally, index },
            seq![ReplyModel::Text(Some(mark))],
            now,
            elapsed,
        ) == work_data(setup, c, tally, index + 1),
{
}

/// One that has not been applied is run in a transaction, which ends with its mark.
pub proof fn lemma_applied_with_its_mark(
    setup: SetupModel,
    c: ClaimModel,
    tally: TallyModel,
    index: nat,
    replies: Seq<ReplyModel>,
    now: u64,
    elapsed: Duration,
)
    requires
        index < setup.options.data_migrations.len(),
    ensures
        ({
            let m = setup.options.data_migrations[index as int];
            let key = migration_key(m.id);
            &&& work_completed(
                setup,
                c,
                WorkStageModel::Asking { tally, index },
                seq![ReplyModel::Text(None)],
                now,
                elapsed,
            ) == work_at(
                c,
                WorkStageModel::Migrating { tally, index, key },
                seq![begin_op()] + undo_ops(m.statements, "data_migration"@),
            )
            &&& work_completed(
                setup,
                c,
                WorkStageModel::Migrating { tally, index, key },
                replies,
                now,
                elapsed,
            ) matches ProgressModel::Ask(w) && w.script().request() == (ActionModel::SetMeta {
                key,
                value: decimal(now as nat),
            })
            &&& work_completed(
                setup,
                c,
                WorkStageModel::Marking { tally, index },
                replies,
                now,
                elapsed,
            ) == work_data(setup, c, with_one_applied(tally), index + 1)
        }),
{
}

/// Each migration that changes the schema moves the version on by one.
pub proof fn lemma_version_moves_by_one(stored: Option<i64>)
    ensures
        version_after(stored) matches Ok(v) ==> version_in(stored) == Ok::<u32, ErrorModel>(
            (v - 1) as u32,
        ) && v > 0,
{
}

} // verus!
