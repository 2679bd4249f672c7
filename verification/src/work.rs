//! The migration itself, under the lease: look at both schemas, find the difference,
//! ask whether it may be made, make it, and remember that it was made.

use vstd::prelude::*;

use crate::diff::{are_hints_applicable, compute_diff_with_hints, SchemaDiff};
#[allow(unused_imports)]
use crate::diff::{difference, hints_applicable, DiffModel};
use crate::error::MigrateError;
#[allow(unused_imports)]
use crate::error::ErrorModel;
#[allow(unused_imports)]
use crate::execute::{advanced, started, ExecutionModel, RunModel};
use crate::execute::{Execution, Run};
#[allow(unused_imports)]
use crate::format::{decimal, signed_decimal};
use crate::format::{decimal_of, glue2, glue5, signed_decimal_of};
#[allow(unused_imports)]
use crate::entry::{
    blank_id, counted, deleting, getting, migration_key, said, setting, SetupModel,
};
use crate::entry::{
    blank_id_error, data_migration_key, delete_op, get_op, reply_number, reply_text, set_op, Setup,
};
#[allow(unused_imports)]
use crate::introspect::schema_text;
use crate::options::{ConvergeMode, ConvergeReport, Duration, Failpoint};
#[allow(unused_imports)]
use crate::options::ReportModel;
#[allow(unused_imports)]
use crate::plan::{first_refusal, plan_of, PlanModel};
use crate::plan::{generate_plan, MigrationPlan};
#[allow(unused_imports)]
use crate::policy::{
    destructive_changes, injected, mentions_generated, mentions_without_rowid, missing_feature,
    policy_violation, unreadable,
};
use crate::policy::{
    check_failpoint, check_policy, check_schema_text, extract_destructive_changes, scan_features,
    validate_features,
};
#[allow(unused_imports)]
use crate::schema::SnapshotModel;
use crate::schema::{Capabilities, SchemaSnapshot};
#[allow(unused_imports)]
use crate::script::{
    begin_op, commit_action, commit_op, fed, fresh, op, rollback_action, undo_ops, ActionModel,
    FedModel, OpModel, ReplyModel, RuleModel, ScriptModel,
};
use crate::script::{execute_op, push_begin, push_undo_ops, Action, Fed, Op, Reply, Rule, Script};
use crate::text::{is_blank, Text};
#[allow(unused_imports)]
use crate::text::trim;

verus! {

// ---------------------------------------------------------------------------
// The schema version
// ---------------------------------------------------------------------------

/// The schema version for a stored number, or the error where it is none. Nothing stored
/// is version 0.
pub open spec fn version_in(stored: Option<i64>) -> Result<u32, ErrorModel> {
    match stored {
        None => Ok(0),
        Some(v) => if 0 <= v <= u32::MAX {
            Ok(v as u32)
        } else {
            Err(ErrorModel::Schema("invalid schema_version value: "@ + signed_decimal(v as int)))
        },
    }
}

/// The schema version for a stored number.
pub fn version_from(stored: Option<i64>) -> (r: Result<u32, MigrateError>)
    ensures
        match version_in(stored) {
            Ok(v) => r == Ok::<u32, MigrateError>(v),
            Err(e) => r matches Err(x) && x.deep_view() == e,
        },
{
    match stored {
        None => Ok(0),
        Some(v) => if 0 <= v && v <= u32::MAX as i64 {
            Ok(v as u32)
        } else {
            let n = signed_decimal_of(v);
            Err(MigrateError::Schema(glue2("invalid schema_version value: ", n.as_str())))
        },
    }
}

/// The schema version behind a stored one.
pub open spec fn version_after(stored: Option<i64>) -> Result<u32, ErrorModel> {
    match version_in(stored) {
        Ok(v) => if v < u32::MAX {
            Ok((v + 1) as u32)
        } else {
            Err(ErrorModel::Schema("schema_version overflow"@))
        },
        Err(e) => Err(e),
    }
}

/// The schema version behind a stored one.
pub fn next_version(stored: Option<i64>) -> (r: Result<u32, MigrateError>)
    ensures
        match version_after(stored) {
            Ok(v) => r == Ok::<u32, MigrateError>(v),
            Err(e) => r matches Err(x) && x.deep_view() == e,
        },
{
    match version_from(stored) {
        Ok(v) => match v.checked_add(1) {
            Some(n) => Ok(n),
            None => Err(MigrateError::Schema("schema_version overflow".to_owned())),
        },
        Err(e) => Err(e),
    }
}

// ---------------------------------------------------------------------------
// The report
// ---------------------------------------------------------------------------

/// A count as far as a report can hold it.
pub open spec fn capped(n: nat) -> nat {
    if n > usize::MAX {
        usize::MAX as nat
    } else {
        n
    }
}

/// The counters of a difference.
pub open spec fn counts_of(diff: DiffModel, mode: ConvergeMode, sql: Seq<Text>) -> ReportModel {
    ReportModel {
        mode,
        tables_created: diff.tables_to_create.len(),
        tables_rebuilt: diff.tables_to_rebuild.len(),
        tables_dropped: diff.tables_to_drop.len(),
        columns_added: diff.columns_to_add.len(),
        columns_dropped: diff.columns_to_drop.len(),
        columns_renamed: diff.columns_to_rename.len(),
        indexes_changed: capped(diff.indexes_to_create.len() + diff.fts_indexes_to_create.len()),
        views_changed: diff.views_to_create.len(),
        data_migrations_applied: 0,
        duration: Duration { secs: 0, nanos: 0 },
        plan_sql: sql,
    }
}

fn count_changes(diff: &SchemaDiff, mode: ConvergeMode, plan_sql: Vec<String>) -> (r:
    ConvergeReport)
    ensures
        r.deep_view() == counts_of(diff.deep_view(), mode, plan_sql.deep_view()),
{
    ConvergeReport {
        mode,
        tables_created: diff.tables_to_create.len(),
        tables_rebuilt: diff.tables_to_rebuild.len(),
        tables_dropped: diff.tables_to_drop.len(),
        columns_added: diff.columns_to_add.len(),
        columns_dropped: diff.columns_to_drop.len(),
        columns_renamed: diff.columns_to_rename.len(),
        indexes_changed: diff.indexes_to_create.len().saturating_add(
            diff.fts_indexes_to_create.len(),
        ),
        views_changed: diff.views_to_create.len(),
        data_migrations_applied: 0,
        duration: Duration::zero(),
        plan_sql,
    }
}

/// What was done so far.
#[derive(Debug)]
pub struct Tally {
    pub report: ConvergeReport,
    /// Whether the schema was changed.
    pub had_ddl: bool,
}

pub struct TallyModel {
    pub report: ReportModel,
    pub had_ddl: bool,
}

impl DeepView for Tally {
    type V = TallyModel;

    open spec fn deep_view(&self) -> TallyModel {
        TallyModel { report: self.report.deep_view(), had_ddl: self.had_ddl }
    }
}

/// The mode of a migration that came to its end.
pub open spec fn final_mode(t: TallyModel, recovering: bool) -> ConvergeMode {
    if recovering {
        ConvergeMode::CrashRecovery
    } else if t.had_ddl || t.report.data_migrations_applied > 0 {
        ConvergeMode::SlowPath
    } else {
        ConvergeMode::NoOp
    }
}

/// The report of a migration that came to its end.
pub open spec fn final_report(t: TallyModel, recovering: bool, elapsed: Duration) -> ReportModel {
    ReportModel { mode: final_mode(t, recovering), duration: elapsed, ..t.report }
}

/// One more data migration was applied.
pub open spec fn with_one_applied(t: TallyModel) -> TallyModel {
    TallyModel {
        report: ReportModel {
            data_migrations_applied: capped(t.report.data_migrations_applied + 1),
            ..t.report
        },
        ..t
    }
}

// ---------------------------------------------------------------------------
// Stages
// ---------------------------------------------------------------------------

/// A migration that is known and not yet allowed.
#[derive(Debug)]
pub struct Job {
    pub desired: SchemaSnapshot,
    pub actual: SchemaSnapshot,
    pub diff: SchemaDiff,
    /// What the database can do, where it is known.
    pub caps: Option<Capabilities>,
}

pub struct JobModel {
    pub desired: SnapshotModel,
    pub actual: SnapshotModel,
    pub diff: DiffModel,
    pub caps: Option<Capabilities>,
}

impl DeepView for Job {
    type V = JobModel;

    open spec fn deep_view(&self) -> JobModel {
        JobModel {
            desired: self.desired.deep_view(),
            actual: self.actual.deep_view(),
            diff: self.diff.deep_view(),
            caps: self.caps,
        }
    }
}

/// Where a migration is.
#[derive(Debug)]
pub enum WorkStage {
    /// Marking the phase.
    Introspect,
    /// Finding out what the database can do, before the schema text is read.
    Preflight,
    /// Reading both schemas.
    Load(Option<Capabilities>),
    /// Writing the old schema to a file.
    Backup(Job),
    /// Asking the caller's hook.
    Hook(Job),
    /// Finding out what the database can do.
    Probe(Job),
    /// Clearing the marks where nothing is to be run.
    DryRun(ConvergeReport),
    /// Keeping the old schema, and marking the phase.
    Record { plan: MigrationPlan, tally: Tally },
    /// Marking the phase.
    Complete(Tally),
    /// Asking whether a data migration has been applied.
    Asking { tally: Tally, index: usize },
    /// Running the statements of a data migration.
    Migrating { tally: Tally, index: usize, key: String },
    /// Remembering a data migration.
    Marking { tally: Tally, index: usize },
    /// Writing the fingerprint, clearing the marks, and reading the version.
    State(Tally),
    /// Writing the version.
    Version(Tally),
    /// Reading the schema counter of the database.
    Counter(Tally),
    /// Writing the schema counter.
    Store(Tally),
    /// Committing the state.
    Commit(Tally),
    /// Rolling back; then the migration fails with the error.
    Undoing(MigrateError),
}

pub enum WorkStageModel {
    Introspect,
    Preflight,
    Load(Option<Capabilities>),
    Backup(JobModel),
    Hook(JobModel),
    Probe(JobModel),
    DryRun(ReportModel),
    Record { plan: PlanModel, tally: TallyModel },
    Complete(TallyModel),
    Asking { tally: TallyModel, index: nat },
    Migrating { tally: TallyModel, index: nat, key: Text },
    Marking { tally: TallyModel, index: nat },
    State(TallyModel),
    Version(TallyModel),
    Counter(TallyModel),
    Store(TallyModel),
    Commit(TallyModel),
    Undoing(ErrorModel),
}

impl DeepView for WorkStage {
    type V = WorkStageModel;

    open spec fn deep_view(&self) -> WorkStageModel {
        match self {
            WorkStage::Introspect => WorkStageModel::Introspect,
            WorkStage::Preflight => WorkStageModel::Preflight,
            WorkStage::Load(c) => WorkStageModel::Load(*c),
            WorkStage::Backup(j) => WorkStageModel::Backup(j.deep_view()),
            WorkStage::Hook(j) => WorkStageModel::Hook(j.deep_view()),
            WorkStage::Probe(j) => WorkStageModel::Probe(j.deep_view()),
            WorkStage::DryRun(r) => WorkStageModel::DryRun(r.deep_view()),
            WorkStage::Record { plan, tally } => WorkStageModel::Record {
                plan: plan.deep_view(),
                tally: tally.deep_view(),
            },
            WorkStage::Complete(t) => WorkStageModel::Complete(t.deep_view()),
            WorkStage::Asking { tally, index } => WorkStageModel::Asking {
                tally: tally.deep_view(),
                index: *index as nat,
            },
            WorkStage::Migrating { tally, index, key } => WorkStageModel::Migrating {
                tally: tally.deep_view(),
                index: *index as nat,
                key: key@,
            },
            WorkStage::Marking { tally, index } => WorkStageModel::Marking {
                tally: tally.deep_view(),
                index: *index as nat,
            },
            WorkStage::State(t) => WorkStageModel::State(t.deep_view()),
            WorkStage::Version(t) => WorkStageModel::Version(t.deep_view()),
            WorkStage::Counter(t) => WorkStageModel::Counter(t.deep_view()),
            WorkStage::Store(t) => WorkStageModel::Store(t.deep_view()),
            WorkStage::Commit(t) => WorkStageModel::Commit(t.deep_view()),
            WorkStage::Undoing(e) => WorkStageModel::Undoing(e.deep_view()),
        }
    }
}

/// The lease that a migration holds, and whether it follows an interrupted one.
#[derive(Debug)]
pub struct Claim {
    pub lease: String,
    pub recovering: bool,
}

pub struct ClaimModel {
    pub lease: Text,
    pub recovering: bool,
}

impl DeepView for Claim {
    type V = ClaimModel;

    open spec fn deep_view(&self) -> ClaimModel {
        ClaimModel { lease: self.lease@, recovering: self.recovering }
    }
}

/// What a migration is doing: running a script of its own, or the plan.
#[derive(Debug)]
pub enum Activity {
    Asking { stage: WorkStage, script: Script },
    Running { tally: Tally, execution: Execution },
}

pub enum ActivityModel {
    Asking { stage: WorkStageModel, script: ScriptModel },
    Running { tally: TallyModel, execution: ExecutionModel },
}

impl DeepView for Activity {
    type V = ActivityModel;

    open spec fn deep_view(&self) -> ActivityModel {
        match self {
            Activity::Asking { stage, script } => ActivityModel::Asking {
                stage: stage.deep_view(),
                script: script.deep_view(),
            },
            Activity::Running { tally, execution } => ActivityModel::Running {
                tally: tally.deep_view(),
                execution: execution.deep_view(),
            },
        }
    }
}

/// A migration on its way. A request waits for its answer.
#[derive(Debug)]
pub struct Work {
    claim: Claim,
    activity: Activity,
}

pub struct WorkModel {
    pub claim: ClaimModel,
    pub activity: ActivityModel,
}

impl DeepView for Work {
    type V = WorkModel;

    closed spec fn deep_view(&self) -> WorkModel {
        WorkModel { claim: self.claim.deep_view(), activity: self.activity.deep_view() }
    }
}

impl WorkModel {
    /// The script whose request waits.
    pub open spec fn script(self) -> ScriptModel {
        match self.activity {
            ActivityModel::Asking { script, .. } => script,
            ActivityModel::Running { execution, .. } => execution.script,
        }
    }
}

/// A migration: on its way, or at its end.
#[derive(Debug)]
pub enum Progress {
    Ask(Work),
    Done(ConvergeReport),
    Failed(MigrateError),
}

pub enum ProgressModel {
    Ask(WorkModel),
    Done(ReportModel),
    Failed(ErrorModel),
}

impl DeepView for Progress {
    type V = ProgressModel;

    open spec fn deep_view(&self) -> ProgressModel {
        match self {
            Progress::Ask(w) => ProgressModel::Ask(w.deep_view()),
            Progress::Done(r) => ProgressModel::Done(r.deep_view()),
            Progress::Failed(e) => ProgressModel::Failed(e.deep_view()),
        }
    }
}

// ---------------------------------------------------------------------------
// From stage to stage
// ---------------------------------------------------------------------------

pub open spec fn work_at(c: ClaimModel, stage: WorkStageModel, ops: Seq<OpModel>) -> ProgressModel {
    ProgressModel::Ask(
        WorkModel { claim: c, activity: ActivityModel::Asking { stage, script: fresh(ops) } },
    )
}

/// The start of a migration.
pub open spec fn work_start(setup: SetupModel, c: ClaimModel) -> ProgressModel {
    if setup.options.failpoint == Some(Failpoint::BeforeIntrospect) {
        ProgressModel::Failed(injected(Failpoint::BeforeIntrospect))
    } else {
        work_at(
            c,
            WorkStageModel::Introspect,
            seq![setting("migration_phase"@, "introspect"@, RuleModel::Stop)],
        )
    }
}

/// What an answer says of the database; the least where it says nothing.
pub open spec fn probed(r: ReplyModel) -> Capabilities {
    match r {
        ReplyModel::Capabilities(c) => c,
        _ => Capabilities {
            database_version: (3, 45, 0),
            supports_drop_column: true,
            supports_rename_column: true,
            has_fts_module: false,
            has_vector_module: false,
            has_materialized_views: false,
            supports_without_rowid: false,
            supports_generated_columns: false,
            has_triggers: false,
        },
    }
}

pub open spec fn work_load(c: ClaimModel, caps: Option<Capabilities>) -> ProgressModel {
    work_at(
        c,
        WorkStageModel::Load(caps),
        seq![
            op(ActionModel::LoadDesired, RuleModel::Stop),
            op(ActionModel::LoadActual, RuleModel::Stop),
        ],
    )
}

/// The text of the schema is held against what the database can do.
#[verifier::opaque]
pub open spec fn work_preflight(setup: SetupModel, c: ClaimModel, caps: Capabilities) -> ProgressModel {
    match unreadable(setup.schema_sql, caps) {
        Some(m) => ProgressModel::Failed(ErrorModel::UnsupportedFeature(m)),
        None => work_load(c, Some(caps)),
    }
}

/// Rename hints that contradict each other name no difference.
pub open spec fn contradicting_hints() -> ErrorModel {
    ErrorModel::Schema("rename hints contradict each other"@)
}

/// The data migrations from `index` on, one by one; behind the last one, the state.
#[verifier::opaque]
pub open spec fn work_data(
    setup: SetupModel,
    c: ClaimModel,
    tally: TallyModel,
    index: nat,
) -> ProgressModel {
    let migrations = setup.options.data_migrations;
    if index >= migrations.len() {
        work_state(setup, c, tally)
    } else if trim(migrations[index as int].id).len() == 0 {
        ProgressModel::Failed(blank_id())
    } else {
        work_at(
            c,
            WorkStageModel::Asking { tally, index },
            seq![getting(migration_key(migrations[index as int].id), RuleModel::Stop)],
        )
    }
}

/// The script that writes the state, up to the version.
pub open spec fn state_script(hash: Text, had_ddl: bool) -> Seq<OpModel> {
    seq![
        begin_op(),
        setting("schema_hash"@, hash, RuleModel::Undo),
        deleting("migration_in_progress"@, RuleModel::Undo),
        deleting("migration_phase"@, RuleModel::Undo),
    ] + (if had_ddl {
        seq![
            op(
                ActionModel::Execute(
                    "CREATE TABLE IF NOT EXISTS schema_version (version INTEGER NOT NULL, updated_at TEXT NOT NULL)"@,
                ),
                RuleModel::Undo,
            ),
            op(ActionModel::StoredVersion, RuleModel::Undo),
        ]
    } else {
        Seq::empty()
    })
}

#[verifier::opaque]
pub open spec fn work_state(setup: SetupModel, c: ClaimModel, tally: TallyModel) -> ProgressModel {
    work_at(c, WorkStageModel::State(tally), state_script(setup.schema_hash, tally.had_ddl))
}

/// The statement that stores a version with the time at which it was reached.
pub open spec fn version_statement(version: u32, now: u64) -> Text {
    "INSERT INTO schema_version (version, updated_at) VALUES ("@ + decimal(version as nat) + ", '"@
        + decimal(now as nat) + "')"@
}

pub open spec fn version_script(version: u32, now: u64) -> Seq<OpModel> {
    seq![
        op(ActionModel::Execute("DELETE FROM schema_version"@), RuleModel::Undo),
        op(ActionModel::Execute(version_statement(version, now)), RuleModel::Undo),
    ]
}

pub open spec fn work_counter(c: ClaimModel, tally: TallyModel) -> ProgressModel {
    work_at(
        c,
        WorkStageModel::Counter(tally),
        seq![op(ActionModel::SchemaCounter, RuleModel::Ignore)],
    )
}

pub open spec fn work_commit(c: ClaimModel, tally: TallyModel) -> ProgressModel {
    work_at(c, WorkStageModel::Commit(tally), seq![op(commit_action(), RuleModel::Stop)])
}

pub open spec fn work_undo(c: ClaimModel, e: ErrorModel) -> ProgressModel {
    work_at(
        c,
        WorkStageModel::Undoing(e),
        seq![op(rollback_action(), RuleModel::Ignore)],
    )
}

/// Where nothing is to be run, the marks are cleared, and the report tells what would
/// have been run.
pub open spec fn work_preview(c: ClaimModel, diff: DiffModel, sql: Seq<Text>) -> ProgressModel {
    work_at(
        c,
        WorkStageModel::DryRun(counts_of(diff, ConvergeMode::DryRun, sql)),
        seq![
            deleting("migration_in_progress"@, RuleModel::Stop),
            deleting("migration_phase"@, RuleModel::Stop),
        ],
    )
}

/// Both schemas are there: the difference is found, and held against the policy.
#[verifier::opaque]
pub open spec fn work_loaded(
    setup: SetupModel,
    c: ClaimModel,
    desired: SnapshotModel,
    actual: SnapshotModel,
    caps: Option<Capabilities>,
) -> ProgressModel {
    let hints = setup.options.rename_hints;
    let diff = difference(desired, actual, hints);
    let job = JobModel { desired, actual, diff, caps };
    if !hints_applicable(desired, actual, hints) {
        ProgressModel::Failed(contradicting_hints())
    } else if diff.nothing() && setup.options.dry_run {
        work_preview(c, diff, Seq::empty())
    } else if diff.nothing() {
        work_data(
            setup,
            c,
            TallyModel {
                report: counts_of(diff, ConvergeMode::NoOp, Seq::empty()),
                had_ddl: false,
            },
            0,
        )
    } else {
        match policy_violation(diff, setup.options.policy) {
            Some(e) => ProgressModel::Failed(e),
            None => match setup.options.backup_before_destructive {
                Some(path) if destructive_changes(diff).has_changes() => work_at(
                    c,
                    WorkStageModel::Backup(job),
                    seq![
                        op(
                            ActionModel::Backup { path, sql: schema_text(actual) },
                            RuleModel::Stop,
                        ),
                    ],
                ),
                _ => work_hook(setup, c, job),
            },
        }
    }
}

/// The caller's hook is asked where data can be lost.
#[verifier::opaque]
pub open spec fn work_hook(setup: SetupModel, c: ClaimModel, job: JobModel) -> ProgressModel {
    let changes = destructive_changes(job.diff);
    if changes.has_changes() {
        work_at(
            c,
            WorkStageModel::Hook(job),
            seq![op(ActionModel::Hook(changes), RuleModel::Ignore)],
        )
    } else {
        work_probe(setup, c, job)
    }
}

#[verifier::opaque]
pub open spec fn work_probe(setup: SetupModel, c: ClaimModel, job: JobModel) -> ProgressModel {
    match job.caps {
        Some(caps) => work_planned(setup, c, job, caps),
        None => work_at(
            c,
            WorkStageModel::Probe(job),
            seq![op(ActionModel::Probe, RuleModel::Ignore)],
        ),
    }
}

/// The plan is made, where the database has what the schema uses and no rebuild would
/// leave a column without a value.
#[verifier::opaque]
pub open spec fn work_planned(
    setup: SetupModel,
    c: ClaimModel,
    job: JobModel,
    caps: Capabilities,
) -> ProgressModel {
    let plan = plan_of(job.diff, job.desired, job.actual);
    match missing_feature(job.desired, caps) {
        Some(m) => ProgressModel::Failed(ErrorModel::UnsupportedFeature(m)),
        None => match first_refusal(job.diff.tables_to_rebuild, job.desired, job.actual, 0) {
            Some(m) => ProgressModel::Failed(ErrorModel::Schema(m)),
            None => if setup.options.dry_run {
                work_preview(c, job.diff, plan.transactional_stmts + plan.non_transactional_stmts)
            } else {
                work_at(
                    c,
                    WorkStageModel::Record {
                        plan,
                        tally: TallyModel {
                            report: counts_of(job.diff, ConvergeMode::SlowPath, Seq::empty()),
                            had_ddl: true,
                        },
                    },
                    seq![
                        setting("previous_schema_sql"@, schema_text(job.actual), RuleModel::Stop),
                        setting("migration_phase"@, "ddl"@, RuleModel::Stop),
                    ],
                )
            },
        },
    }
}

/// What a run of the plan leads to.
#[verifier::opaque]
pub open spec fn work_run(
    setup: SetupModel,
    c: ClaimModel,
    tally: TallyModel,
    run: RunModel,
) -> ProgressModel {
    match run {
        RunModel::Ask(execution) => ProgressModel::Ask(
            WorkModel { claim: c, activity: ActivityModel::Running { tally, execution } },
        ),
        RunModel::Broke(e) => ProgressModel::Failed(e),
        RunModel::Succeeded => if setup.options.failpoint == Some(
            Failpoint::AfterExecuteBeforeState,
        ) {
            ProgressModel::Failed(injected(Failpoint::AfterExecuteBeforeState))
        } else {
            work_at(
                c,
                WorkStageModel::Complete(tally),
                seq![setting("migration_phase"@, "complete"@, RuleModel::Stop)],
            )
        },
    }
}

/// What follows a stage whose requests are answered, at a time.
pub open spec fn work_completed(
    setup: SetupModel,
    c: ClaimModel,
    stage: WorkStageModel,
    replies: Seq<ReplyModel>,
    now: u64,
    elapsed: Duration,
) -> ProgressModel {
    let migrations = setup.options.data_migrations;
    match stage {
        WorkStageModel::Introspect => if mentions_without_rowid(setup.schema_sql)
            || mentions_generated(setup.schema_sql) {
            match setup.options.capabilities {
                Some(caps) => work_preflight(setup, c, caps),
                None => work_at(
                    c,
                    WorkStageModel::Preflight,
                    seq![op(ActionModel::Probe, RuleModel::Ignore)],
                ),
            }
        } else {
            work_load(c, setup.options.capabilities)
        },
        WorkStageModel::Preflight => work_preflight(setup, c, probed(replies[0])),
        WorkStageModel::Load(caps) => match (replies[0], replies[1]) {
            (ReplyModel::Schema(desired), ReplyModel::Schema(actual)) => work_loaded(
                setup,
                c,
                desired,
                actual,
                caps,
            ),
            _ => ProgressModel::Failed(ErrorModel::Schema("no schema was read"@)),
        },
        WorkStageModel::Backup(job) => work_hook(setup, c, job),
        WorkStageModel::Hook(job) => match replies[0] {
            ReplyModel::Rejected(message) => ProgressModel::Failed(
                ErrorModel::PreDestructiveHookRejected {
                    message,
                    blocked_operations: destructive_changes(job.diff).operations(),
                },
            ),
            _ => work_probe(setup, c, job),
        },
        WorkStageModel::Probe(job) => work_planned(setup, c, job, probed(replies[0])),
        WorkStageModel::DryRun(report) => ProgressModel::Done(
            ReportModel { duration: elapsed, ..report },
        ),
        WorkStageModel::Record { plan, tally } => if setup.options.failpoint == Some(
            Failpoint::BeforeExecute,
        ) {
            ProgressModel::Failed(injected(Failpoint::BeforeExecute))
        } else {
            work_run(setup, c, tally, started(plan, setup.options.busy_timeout, c.lease))
        },
        WorkStageModel::Complete(tally) => work_data(setup, c, tally, 0),
        WorkStageModel::Asking { tally, index } => if index >= migrations.len() {
            work_state(setup, c, tally)
        } else if said(replies[0]) is Some {
            work_data(setup, c, tally, index + 1)
        } else {
            let m = migrations[index as int];
            work_at(
                c,
                WorkStageModel::Migrating { tally, index, key: migration_key(m.id) },
                seq![begin_op()] + undo_ops(m.statements, "data_migration"@),
            )
        },
        WorkStageModel::Migrating { tally, index, key } => work_at(
            c,
            WorkStageModel::Marking { tally, index },
            seq![setting(key, decimal(now as nat), RuleModel::Undo), commit_op()],
        ),
        WorkStageModel::Marking { tally, index } => work_data(
            setup,
            c,
            with_one_applied(tally),
            index + 1,
        ),
        WorkStageModel::State(tally) => if tally.had_ddl {
            match version_after(counted(replies.last())) {
                Ok(v) => work_at(c, WorkStageModel::Version(tally), version_script(v, now)),
                Err(e) => work_undo(c, e),
            }
        } else {
            work_counter(c, tally)
        },
        WorkStageModel::Version(tally) => work_counter(c, tally),
        WorkStageModel::Counter(tally) => match counted(replies[0]) {
            Some(n) => work_at(
                c,
                WorkStageModel::Store(tally),
                seq![setting("sqlite_schema_version"@, signed_decimal(n as int), RuleModel::Undo)],
            ),
            None => work_commit(c, tally),
        },
        WorkStageModel::Store(tally) => work_commit(c, tally),
        WorkStageModel::Commit(tally) => ProgressModel::Done(
            final_report(tally, c.recovering, elapsed),
        ),
        WorkStageModel::Undoing(e) => ProgressModel::Failed(e),
    }
}

/// What an answer leads to, at a time.
pub open spec fn work_advanced(
    setup: SetupModel,
    w: WorkModel,
    reply: ReplyModel,
    now: u64,
    elapsed: Duration,
) -> ProgressModel {
    match w.activity {
        ActivityModel::Running { tally, execution } => work_run(
            setup,
            w.claim,
            tally,
            advanced(execution, reply),
        ),
        ActivityModel::Asking { stage, script } => match fed(script, reply) {
            FedModel::More(script) => ProgressModel::Ask(
                WorkModel { activity: ActivityModel::Asking { stage, script }, ..w },
            ),
            FedModel::Broken(b) => if b.rollback {
                work_undo(w.claim, b.error)
            } else {
                ProgressModel::Failed(b.error)
            },
            FedModel::Complete(replies) => work_completed(
                setup,
                w.claim,
                stage,
                replies,
                now,
                elapsed,
            ),
        },
    }
}

// ---------------------------------------------------------------------------
// The machine
// ---------------------------------------------------------------------------

/// How many requests a stage makes at least.
spec fn least_requests(stage: WorkStageModel) -> nat {
    match stage {
        WorkStageModel::Load(_) => 2,
        _ => 1,
    }
}

fn begin_stage(claim: Claim, stage: WorkStage, ops: Vec<Op>) -> (r: Progress)
    requires
        ops.len() >= least_requests(stage.deep_view()),
        stage is Asking ==> ops.len() == 1,
    ensures
        r.deep_view() == work_at(claim.deep_view(), stage.deep_view(), ops.deep_view()),
{
    assert(ops.deep_view().len() == ops.len());
    let script = Script::new(ops);
    Progress::Ask(Work { claim, activity: Activity::Asking { stage, script } })
}

fn begin_single(claim: Claim, stage: WorkStage, o: Op) -> (r: Progress)
    requires
        least_requests(stage.deep_view()) == 1,
    ensures
        r.deep_view() == work_at(claim.deep_view(), stage.deep_view(), seq![o.deep_view()]),
{
    let ghost only = o.deep_view();
    let mut ops: Vec<Op> = Vec::new();
    ops.push(o);
    assert(ops.deep_view() =~= seq![only]);
    begin_stage(claim, stage, ops)
}

fn begin_pair(claim: Claim, stage: WorkStage, first: Op, second: Op) -> (r: Progress)
    requires
        !(stage is Asking),
    ensures
        r.deep_view() == work_at(
            claim.deep_view(),
            stage.deep_view(),
            seq![first.deep_view(), second.deep_view()],
        ),
{
    let ghost pair = seq![first.deep_view(), second.deep_view()];
    let mut ops: Vec<Op> = Vec::new();
    ops.push(first);
    ops.push(second);
    assert(ops.deep_view() =~= pair);
    begin_stage(claim, stage, ops)
}

fn read_capabilities(r: &Reply) -> (c: Capabilities)
    ensures
        c == probed(r.deep_view()),
{
    match r {
        Reply::Capabilities(c) => *c,
        _ => Capabilities::default(),
    }
}

fn load(claim: Claim, caps: Option<Capabilities>) -> (r: Progress)
    ensures
        r.deep_view() == work_load(claim.deep_view(), caps),
{
    begin_pair(
        claim,
        WorkStage::Load(caps),
        Op { action: Action::LoadDesired, rule: Rule::Stop },
        Op { action: Action::LoadActual, rule: Rule::Stop },
    )
}

fn preflight(setup: &Setup, claim: Claim, caps: Capabilities) -> (r: Progress)
    ensures
        r.deep_view() == work_preflight(setup.deep_view(), claim.deep_view(), caps),
{
    proof {
        reveal(work_preflight);
    }
    match check_schema_text(setup.schema_sql.as_str(), &caps) {
        Err(e) => Progress::Failed(e),
        Ok(_) => load(claim, Some(caps)),
    }
}

fn write_state(setup: &Setup, claim: Claim, tally: Tally) -> (r: Progress)
    ensures
        r.deep_view() == work_state(setup.deep_view(), claim.deep_view(), tally.deep_view()),
{
    proof {
        reveal(work_state);
    }
    let mut ops: Vec<Op> = Vec::new();
    ops.push(execute_op("BEGIN IMMEDIATE", Rule::Stop));
    ops.push(set_op("schema_hash", setup.schema_hash.as_str(), Rule::Undo));
    ops.push(delete_op("migration_in_progress", Rule::Undo));
    ops.push(delete_op("migration_phase", Rule::Undo));
    if tally.had_ddl {
        ops.push(
            execute_op(
                "CREATE TABLE IF NOT EXISTS schema_version (version INTEGER NOT NULL, updated_at TEXT NOT NULL)",
                Rule::Undo,
            ),
        );
        ops.push(Op { action: Action::StoredVersion, rule: Rule::Undo });
    }
    assert(ops.deep_view() =~= state_script(setup.schema_hash@, tally.had_ddl));
    begin_stage(claim, WorkStage::State(tally), ops)
}

fn migrate_data(setup: &Setup, claim: Claim, tally: Tally, index: usize) -> (r: Progress)
    ensures
        r.deep_view() == work_data(
            setup.deep_view(),
            claim.deep_view(),
            tally.deep_view(),
            index as nat,
        ),
{
    proof {
        reveal(work_data);
    }
    let migrations = &setup.options.data_migrations;
    if index >= migrations.len() {
        return write_state(setup, claim, tally);
    }
    assert(setup.deep_view().options.data_migrations[index as int]
        == migrations@[index as int].deep_view());
    let id = migrations[index].id.as_str();
    if is_blank(id) {
        return Progress::Failed(blank_id_error());
    }
    let key = data_migration_key(id);
    begin_single(claim, WorkStage::Asking { tally, index }, get_op(key.as_str(), Rule::Stop))
}

fn answer_data(
    setup: &Setup,
    claim: Claim,
    tally: Tally,
    index: usize,
    reply: &Reply,
) -> (r: Progress)
    ensures
        forall|now: u64, elapsed: Duration|
            r.deep_view() == #[trigger] work_completed(
                setup.deep_view(),
                claim.deep_view(),
                WorkStageModel::Asking { tally: tally.deep_view(), index: index as nat },
                seq![reply.deep_view()],
                now,
                elapsed,
            ),
{
    let migrations = &setup.options.data_migrations;
    if index >= migrations.len() {
        return write_state(setup, claim, tally);
    }
    assert(setup.deep_view().options.data_migrations[index as int]
        == migrations@[index as int].deep_view());
    if reply_text(reply).is_some() {
        return migrate_data(setup, claim, tally, index + 1);
    }
    let m = &migrations[index];
    let key = data_migration_key(m.id.as_str());
    let mut ops: Vec<Op> = Vec::new();
    push_begin(&mut ops);
    push_undo_ops(&mut ops, &m.statements, "data_migration");
    assert(ops.deep_view() =~= seq![begin_op()] + undo_ops(
        m.statements.deep_view(),
        "data_migration"@,
    ));
    assert(ops.deep_view().len() >= 1);
    begin_stage(claim, WorkStage::Migrating { tally, index, key }, ops)
}

fn undo(claim: Claim, e: MigrateError) -> (r: Progress)
    ensures
        r.deep_view() == work_undo(claim.deep_view(), e.deep_view()),
{
    begin_single(claim, WorkStage::Undoing(e), execute_op("ROLLBACK", Rule::Ignore))
}

fn read_counter(claim: Claim, tally: Tally) -> (r: Progress)
    ensures
        r.deep_view() == work_counter(claim.deep_view(), tally.deep_view()),
{
    begin_single(
        claim,
        WorkStage::Counter(tally),
        Op { action: Action::SchemaCounter, rule: Rule::Ignore },
    )
}

fn commit_state(claim: Claim, tally: Tally) -> (r: Progress)
    ensures
        r.deep_view() == work_commit(claim.deep_view(), tally.deep_view()),
{
    begin_single(claim, WorkStage::Commit(tally), execute_op("COMMIT", Rule::Stop))
}

fn advance_version(claim: Claim, tally: Tally, stored: Option<i64>, now: u64) -> (r: Progress)
    ensures
        r.deep_view() == match version_after(stored) {
            Ok(v) => work_at(
                claim.deep_view(),
                WorkStageModel::Version(tally.deep_view()),
                version_script(v, now),
            ),
            Err(e) => work_undo(claim.deep_view(), e),
        },
{
    match next_version(stored) {
        Ok(v) => {
            let version = decimal_of(v as u64);
            let time = decimal_of(now);
            let insert = glue5(
                "INSERT INTO schema_version (version, updated_at) VALUES (",
                version.as_str(),
                ", '",
                time.as_str(),
                "')",
            );
            begin_pair(
                claim,
                WorkStage::Version(tally),
                execute_op("DELETE FROM schema_version", Rule::Undo),
                execute_op(insert.as_str(), Rule::Undo),
            )
        },
        Err(e) => undo(claim, e),
    }
}

fn follow_run(setup: &Setup, claim: Claim, tally: Tally, run: Run) -> (r: Progress)
    ensures
        r.deep_view() == work_run(
            setup.deep_view(),
            claim.deep_view(),
            tally.deep_view(),
            run.deep_view(),
        ),
{
    proof {
        reveal(work_run);
    }
    match run {
        Run::Ask(execution) => Progress::Ask(
            Work { claim, activity: Activity::Running { tally, execution } },
        ),
        Run::Ended(Err(e)) => Progress::Failed(e),
        Run::Ended(Ok(_)) => match check_failpoint(
            setup.options.failpoint,
            Failpoint::AfterExecuteBeforeState,
        ) {
            Err(e) => Progress::Failed(e),
            Ok(_) => begin_single(
                claim,
                WorkStage::Complete(tally),
                set_op("migration_phase", "complete", Rule::Stop),
            ),
        },
    }
}

fn make_plan(setup: &Setup, claim: Claim, job: Job, caps: Capabilities) -> (r: Progress)
    ensures
        r.deep_view() == work_planned(
            setup.deep_view(),
            claim.deep_view(),
            job.deep_view(),
            caps,
        ),
{
    proof {
        reveal(work_planned);
    }
    if let Err(e) = validate_features(&job.desired, &caps) {
        return Progress::Failed(e);
    }
    match generate_plan(&job.diff, &job.desired, &job.actual) {
        Err(e) => Progress::Failed(e),
        Ok(plan) => if setup.options.dry_run {
            let ghost model = plan.deep_view();
            let mut all = plan.transactional_stmts;
            let mut rest = plan.non_transactional_stmts;
            let ghost first = all.deep_view();
            let ghost second = rest.deep_view();
            all.append(&mut rest);
            assert(all.deep_view() =~= first + second);
            preview(claim, &job.diff, all)
        } else {
            let none: Vec<String> = Vec::new();
            assert(none.deep_view() =~= Seq::empty());
            let tally = Tally {
                report: count_changes(&job.diff, ConvergeMode::SlowPath, none),
                had_ddl: true,
            };
            let previous = job.actual.to_sql();
            begin_pair(
                claim,
                WorkStage::Record { plan, tally },
                set_op("previous_schema_sql", previous.as_str(), Rule::Stop),
                set_op("migration_phase", "ddl", Rule::Stop),
            )
        },
    }
}

fn preview(claim: Claim, diff: &SchemaDiff, sql: Vec<String>) -> (r: Progress)
    ensures
        r.deep_view() == work_preview(claim.deep_view(), diff.deep_view(), sql.deep_view()),
{
    begin_pair(
        claim,
        WorkStage::DryRun(count_changes(diff, ConvergeMode::DryRun, sql)),
        delete_op("migration_in_progress", Rule::Stop),
        delete_op("migration_phase", Rule::Stop),
    )
}

fn probe(setup: &Setup, claim: Claim, job: Job) -> (r: Progress)
    ensures
        r.deep_view() == work_probe(setup.deep_view(), claim.deep_view(), job.deep_view()),
{
    proof {
        reveal(work_probe);
    }
    match job.caps {
        Some(caps) => make_plan(setup, claim, job, caps),
        None => begin_single(
            claim,
            WorkStage::Probe(job),
            Op { action: Action::Probe, rule: Rule::Ignore },
        ),
    }
}

fn ask_hook(setup: &Setup, claim: Claim, job: Job) -> (r: Progress)
    ensures
        r.deep_view() == work_hook(setup.deep_view(), claim.deep_view(), job.deep_view()),
{
    proof {
        reveal(work_hook);
    }
    let changes = extract_destructive_changes(&job.diff);
    if changes.has_changes() {
        begin_single(
            claim,
            WorkStage::Hook(job),
            Op { action: Action::Hook(changes), rule: Rule::Ignore },
        )
    } else {
        probe(setup, claim, job)
    }
}

fn compare(
    setup: &Setup,
    claim: Claim,
    desired: SchemaSnapshot,
    actual: SchemaSnapshot,
    caps: Option<Capabilities>,
) -> (r: Progress)
    ensures
        r.deep_view() == work_loaded(
            setup.deep_view(),
            claim.deep_view(),
            desired.deep_view(),
            actual.deep_view(),
            caps,
        ),
{
    proof {
        reveal(work_loaded);
    }
    let hints = &setup.options.rename_hints;
    if !are_hints_applicable(&desired, &actual, hints) {
        return Progress::Failed(
            MigrateError::Schema("rename hints contradict each other".to_owned()),
        );
    }
    let diff = compute_diff_with_hints(&desired, &actual, hints);
    if diff.is_empty() {
        let none: Vec<String> = Vec::new();
        assert(none.deep_view() =~= Seq::empty());
        if setup.options.dry_run {
            return preview(claim, &diff, none);
        }
        let tally = Tally {
            report: count_changes(&diff, ConvergeMode::NoOp, none),
            had_ddl: false,
        };
        return migrate_data(setup, claim, tally, 0);
    }
    if let Err(e) = check_policy(&diff, &setup.options.policy) {
        return Progress::Failed(e);
    }
    let changes = extract_destructive_changes(&diff);
    let sql = actual.to_sql();
    let job = Job { desired, actual, diff, caps };
    match &setup.options.backup_before_destructive {
        Some(path) => if changes.has_changes() {
            let action = Action::Backup { path: path.clone(), sql };
            begin_single(claim, WorkStage::Backup(job), Op { action, rule: Rule::Stop })
        } else {
            ask_hook(setup, claim, job)
        },
        None => ask_hook(setup, claim, job),
    }
}

/// What follows a stage whose requests are answered.
fn complete(
    setup: &Setup,
    claim: Claim,
    stage: WorkStage,
    replies: Vec<Reply>,
    now: u64,
    elapsed: Duration,
) -> (r: Progress)
    requires
        replies.len() >= least_requests(stage.deep_view()),
        !(stage is Asking) || replies.len() == 1,
    ensures
        r.deep_view() == work_completed(
            setup.deep_view(),
            claim.deep_view(),
            stage.deep_view(),
            replies.deep_view(),
            now,
            elapsed,
        ),
{
    let ghost answers = replies.deep_view();
    assert(forall|i: int| 0 <= i < replies.len() ==> answers[i] == replies@[i].deep_view());
    match stage {
        WorkStage::Introspect => {
            let (without_rowid, generated) = scan_features(setup.schema_sql.as_str());
            if without_rowid || generated {
                match setup.options.capabilities {
                    Some(caps) => preflight(setup, claim, caps),
                    None => begin_single(
                        claim,
                        WorkStage::Preflight,
                        Op { action: Action::Probe, rule: Rule::Ignore },
                    ),
                }
            } else {
                load(claim, setup.options.capabilities)
            }
        },
        WorkStage::Preflight => preflight(setup, claim, read_capabilities(&replies[0])),
        WorkStage::Load(caps) => {
            let mut replies = replies;
            let second = replies.remove(1);
            let first = replies.remove(0);
            match (first, second) {
                (Reply::Schema(desired), Reply::Schema(actual)) => compare(
                    setup,
                    claim,
                    desired,
                    actual,
                    caps,
                ),
                _ => Progress::Failed(MigrateError::Schema("no schema was read".to_owned())),
            }
        },
        WorkStage::Backup(job) => ask_hook(setup, claim, job),
        WorkStage::Hook(job) => match &replies[0] {
            Reply::Rejected(message) => {
                let changes = extract_destructive_changes(&job.diff);
                Progress::Failed(
                    MigrateError::PreDestructiveHookRejected {
                        message: message.clone(),
                        blocked_operations: changes.blocked_operations(),
                    },
                )
            },
            _ => probe(setup, claim, job),
        },
        WorkStage::Probe(job) => make_plan(setup, claim, job, read_capabilities(&replies[0])),
        WorkStage::DryRun(report) => {
            let mut report = report;
            report.duration = elapsed;
            Progress::Done(report)
        },
        WorkStage::Record { plan, tally } => match check_failpoint(
            setup.options.failpoint,
            Failpoint::BeforeExecute,
        ) {
            Err(e) => Progress::Failed(e),
            Ok(_) => {
                let run = Execution::start(
                    &plan,
                    setup.options.busy_timeout,
                    claim.lease.as_str(),
                );
                follow_run(setup, claim, tally, run)
            },
        },
        WorkStage::Complete(tally) => migrate_data(setup, claim, tally, 0),
        WorkStage::Asking { tally, index } => {
            assert(answers =~= seq![replies@[0].deep_view()]);
            answer_data(setup, claim, tally, index, &replies[0])
        },
        WorkStage::Migrating { tally, index, key } => {
            let time = decimal_of(now);
            begin_pair(
                claim,
                WorkStage::Marking { tally, index },
                set_op(key.as_str(), time.as_str(), Rule::Undo),
                execute_op("COMMIT", Rule::Undo),
            )
        },
        WorkStage::Marking { tally, index } => {
            let mut tally = tally;
            tally.report.data_migrations_applied = tally.report.data_migrations_applied.saturating_add(1);
            if index < setup.options.data_migrations.len() {
                migrate_data(setup, claim, tally, index + 1)
            } else {
                proof {
                    reveal(work_data);
                }
                write_state(setup, claim, tally)
            }
        },
        WorkStage::State(tally) => if tally.had_ddl {
            let last: usize = replies.len() - 1;
            assert(answers.last() == replies@[last as int].deep_view());
            advance_version(claim, tally, reply_number(&replies[last]), now)
        } else {
            read_counter(claim, tally)
        },
        WorkStage::Version(tally) => read_counter(claim, tally),
        WorkStage::Counter(tally) => match reply_number(&replies[0]) {
            Some(n) => {
                let counter = signed_decimal_of(n);
                begin_single(
                    claim,
                    WorkStage::Store(tally),
                    set_op("sqlite_schema_version", counter.as_str(), Rule::Undo),
                )
            },
            None => commit_state(claim, tally),
        },
        WorkStage::Store(tally) => commit_state(claim, tally),
        WorkStage::Commit(tally) => {
            let mode = if claim.recovering {
                ConvergeMode::CrashRecovery
            } else if tally.had_ddl || tally.report.data_migrations_applied > 0 {
                ConvergeMode::SlowPath
            } else {
                ConvergeMode::NoOp
            };
            let mut report = tally.report;
            report.mode = mode;
            report.duration = elapsed;
            Progress::Done(report)
        },
        WorkStage::Undoing(e) => Progress::Failed(e),
    }
}

impl Work {
    #[verifier::type_invariant]
    spec fn well_formed(self) -> bool {
        match self.activity {
            Activity::Asking { stage, script } => {
                &&& script.deep_view().ops.len() >= least_requests(stage.deep_view())
                &&& stage is Asking ==> script.deep_view().ops.len() == 1
            },
            Activity::Running { .. } => true,
        }
    }

    /// Starts a migration under a lease.
    pub fn start(setup: &Setup, claim: Claim) -> (r: Progress)
        ensures
            r.deep_view() == work_start(setup.deep_view(), claim.deep_view()),
    {
        match check_failpoint(setup.options.failpoint, Failpoint::BeforeIntrospect) {
            Err(e) => Progress::Failed(e),
            Ok(_) => begin_single(
                claim,
                WorkStage::Introspect,
                set_op("migration_phase", "introspect", Rule::Stop),
            ),
        }
    }

    /// The lease that the migration holds.
    pub fn lease(&self) -> (r: String)
        ensures
            r@ == self.deep_view().claim.lease,
    {
        self.claim.lease.clone()
    }

    /// The request that waits for its answer.
    pub fn request(&self) -> (r: &Action)
        ensures
            self.deep_view().script().waits(),
            r.deep_view() == self.deep_view().script().request(),
    {
        match &self.activity {
            Activity::Asking { script, .. } => script.request(),
            Activity::Running { execution, .. } => execution.request(),
        }
    }

    /// Goes on with the answer to the request, at a time.
    pub fn advance(self, setup: &Setup, reply: Reply, now: u64, elapsed: Duration) -> (r: Progress)
        ensures
            r.deep_view() == work_advanced(
                setup.deep_view(),
                self.deep_view(),
                reply.deep_view(),
                now,
                elapsed,
            ),
    {
        proof {
            use_type_invariant(&self);
        }
        let Work { claim, activity } = self;
        match activity {
            Activity::Running { tally, execution } => {
                let run = execution.advance(reply);
                follow_run(setup, claim, tally, run)
            },
            Activity::Asking { stage, script } => match script.feed(reply) {
                Fed::More(script) => Progress::Ask(
                    Work { claim, activity: Activity::Asking { stage, script } },
                ),
                Fed::Broken(b) => if b.rollback {
                    undo(claim, b.error)
                } else {
                    Progress::Failed(b.error)
                },
                Fed::Complete(replies) => {
                    assert(replies.deep_view().len() == replies.len());
                    complete(setup, claim, stage, replies, now, elapsed)
                },
            },
        }
    }
}

} // verus!
