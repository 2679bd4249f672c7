//! What a report tells: its counters are the changes between the two schemas that were
//! read, from the moment both are there up to the end of the convergence.

use vstd::prelude::*;

#[allow(unused_imports)]
use crate::closing::{ClosingStageModel, OutcomeModel};
#[allow(unused_imports)]
use crate::converge::{from_pass, session_advanced, ConvergenceModel, PhaseModel, SessionModel};
#[allow(unused_imports)]
use crate::diff::{difference, DiffModel};
#[allow(unused_imports)]
use crate::entry::{PassModel, SetupModel};
#[allow(unused_imports)]
use crate::options::{ConvergeMode, Duration, ReportModel};
#[allow(unused_imports)]
use crate::plan::plan_of;
#[allow(unused_imports)]
use crate::schema::{Capabilities, SnapshotModel};
#[allow(unused_imports)]
use crate::script::{fed, FedModel, ReplyModel};
#[allow(unused_imports)]
use crate::statement_laws::{groups, lemma_column_statements};
#[allow(unused_imports)]
use crate::work::{
    work_advanced, work_completed, work_data, work_hook, work_loaded, work_planned, work_probe,
    work_run, work_state, ActivityModel, ClaimModel, JobModel, ProgressModel, TallyModel,
    WorkModel, WorkStageModel,
};

verus! {

// ---------------------------------------------------------------------------
// Words of the laws
// ---------------------------------------------------------------------------

/// The counters of the report are the numbers of changes of the difference, kind by kind.
pub open spec fn counts_the_changes(r: ReportModel, d: DiffModel) -> bool {
    let indexes = d.indexes_to_create.len() + d.fts_indexes_to_create.len();
    &&& r.tables_created == d.tables_to_create.len()
    &&& r.tables_rebuilt == d.tables_to_rebuild.len()
    &&& r.tables_dropped == d.tables_to_drop.len()
    &&& r.columns_added == d.columns_to_add.len()
    &&& r.columns_dropped == d.columns_to_drop.len()
    &&& r.columns_renamed == d.columns_to_rename.len()
    &&& indexes <= usize::MAX ==> r.indexes_changed == indexes
    &&& indexes > usize::MAX ==> r.indexes_changed == usize::MAX
    &&& r.views_changed == d.views_to_create.len()
}

/// Whether the two schemas differ in anything.
pub open spec fn differs(d: DiffModel) -> bool {
    ||| d.tables_to_create.len() > 0
    ||| d.tables_to_drop.len() > 0
    ||| d.tables_to_rebuild.len() > 0
    ||| d.columns_to_add.len() > 0
    ||| d.columns_to_drop.len() > 0
    ||| d.columns_to_rename.len() > 0
    ||| d.indexes_to_create.len() > 0
    ||| d.indexes_to_drop.len() > 0
    ||| d.fts_indexes_to_create.len() > 0
    ||| d.fts_indexes_to_drop.len() > 0
    ||| d.views_to_create.len() > 0
    ||| d.views_to_drop.len() > 0
    ||| d.triggers_to_create.len() > 0
    ||| d.triggers_to_drop.len() > 0
}

/// A convergence between two schemas.
pub struct Course {
    pub setup: SetupModel,
    pub recovering: bool,
    pub desired: SnapshotModel,
    pub actual: SnapshotModel,
}

impl Course {
    /// The changes that lead from the one schema to the other.
    #[verifier::opaque]
    pub open spec fn changes(self) -> DiffModel {
        difference(self.desired, self.actual, self.setup.options.rename_hints)
    }

    /// What has been counted on the way, where the changes are run.
    pub open spec fn counted(self, t: TallyModel) -> bool {
        &&& counts_the_changes(t.report, self.changes())
        &&& t.report.plan_sql.len() == 0
        &&& t.had_ddl == differs(self.changes())
        &&& !self.setup.options.dry_run
    }

    /// What the report of a dry run tells: the counters, and the statements of the plan.
    pub open spec fn previewed(self, r: ReportModel) -> bool {
        let plan = plan_of(self.changes(), self.desired, self.actual);
        &&& counts_the_changes(r, self.changes())
        &&& r.mode == ConvergeMode::DryRun
        &&& r.data_migrations_applied == 0
        &&& differs(self.changes()) ==> r.plan_sql == plan.transactional_stmts
            + plan.non_transactional_stmts
        &&& !differs(self.changes()) ==> r.plan_sql.len() == 0
        &&& self.setup.options.dry_run
    }

    /// What the last report tells.
    pub open spec fn reported(self, r: ReportModel) -> bool {
        let d = self.changes();
        let g = groups(d, self.desired, self.actual);
        &&& counts_the_changes(r, d)
        &&& r.columns_renamed == g[5].len()
        &&& r.columns_added == g[6].len()
        &&& r.columns_dropped == g[7].len()
        &&& if self.setup.options.dry_run {
            self.previewed(r)
        } else {
            &&& r.plan_sql.len() == 0
            &&& r.mode == if self.recovering {
                ConvergeMode::CrashRecovery
            } else if differs(d) || r.data_migrations_applied > 0 {
                ConvergeMode::SlowPath
            } else {
                ConvergeMode::NoOp
            }
        }
    }

    pub open spec fn works_on(self, job: JobModel) -> bool {
        &&& job.desired == self.desired
        &&& job.actual == self.actual
        &&& job.diff == self.changes()
        &&& differs(self.changes())
    }

    pub open spec fn in_stage(self, stage: WorkStageModel) -> bool {
        match stage {
            WorkStageModel::Introspect | WorkStageModel::Preflight | WorkStageModel::Load(_) => {
                false
            },
            WorkStageModel::Backup(job) | WorkStageModel::Hook(job) | WorkStageModel::Probe(
                job,
            ) => self.works_on(job),
            WorkStageModel::DryRun(r) => self.previewed(r),
            WorkStageModel::Record { plan, tally } => self.counted(tally) && plan == plan_of(
                self.changes(),
                self.desired,
                self.actual,
            ),
            WorkStageModel::Complete(tally) => self.counted(tally),
            WorkStageModel::Asking { tally, .. } => self.counted(tally),
            WorkStageModel::Migrating { tally, .. } => self.counted(tally),
            WorkStageModel::Marking { tally, .. } => self.counted(tally),
            WorkStageModel::State(tally) | WorkStageModel::Version(tally)
            | WorkStageModel::Counter(tally) | WorkStageModel::Store(tally)
            | WorkStageModel::Commit(tally) => self.counted(tally),
            WorkStageModel::Undoing(_) => true,
        }
    }

    /// Whether a migration is on this course behind the reading of the schemas.
    pub open spec fn follows(self, p: ProgressModel) -> bool {
        match p {
            ProgressModel::Done(r) => self.reported(r),
            ProgressModel::Failed(_) => true,
            ProgressModel::Ask(w) => {
                &&& w.claim.recovering == self.recovering
                &&& match w.activity {
                    ActivityModel::Running { tally, .. } => self.counted(tally),
                    ActivityModel::Asking { stage, .. } => self.in_stage(stage),
                }
            },
        }
    }

    /// Whether an outcome is one of this course.
    pub open spec fn comes_out(self, o: OutcomeModel) -> bool {
        match o {
            Ok(r) => self.reported(r),
            Err(_) => true,
        }
    }

    /// Whether a convergence is on this course behind the reading of the schemas.
    pub open spec fn leads(self, c: ConvergenceModel) -> bool {
        match c {
            ConvergenceModel::Ended(o) => self.comes_out(o),
            ConvergenceModel::Ask(s) => {
                &&& s.setup == self.setup
                &&& match s.phase {
                    PhaseModel::Entry(_) => false,
                    PhaseModel::Work(w) => self.follows(ProgressModel::Ask(w)),
                    PhaseModel::Closing(c) => match c.stage {
                        ClosingStageModel::Holder(o) | ClosingStageModel::Freeing(o) => {
                            self.comes_out(o)
                        },
                        _ => true,
                    },
                }
            },
        }
    }
}

// ---------------------------------------------------------------------------
// The course of a migration
// ---------------------------------------------------------------------------

proof fn lemma_data_follows(x: Course, c: ClaimModel, tally: TallyModel, index: nat)
    requires
        x.counted(tally),
        c.recovering == x.recovering,
    ensures
        x.follows(work_data(x.setup, c, tally, index)),
        !(work_data(x.setup, c, tally, index) is Done),
{
    reveal(work_data);
    if index >= x.setup.options.data_migrations.len() {
        reveal(work_state);
        assert(x.in_stage(WorkStageModel::State(tally)));
    } else {
        assert(x.in_stage(WorkStageModel::Asking { tally, index }));
    }
}

proof fn lemma_planned_follows(x: Course, c: ClaimModel, job: JobModel, caps: Capabilities)
    requires
        x.works_on(job),
        c.recovering == x.recovering,
    ensures
        x.follows(work_planned(x.setup, c, job, caps)),
        !(work_planned(x.setup, c, job, caps) is Done),
{
    reveal(work_planned);
}

proof fn lemma_probe_follows(x: Course, c: ClaimModel, job: JobModel)
    requires
        x.works_on(job),
        c.recovering == x.recovering,
    ensures
        x.follows(work_probe(x.setup, c, job)),
        !(work_probe(x.setup, c, job) is Done),
{
    reveal(work_probe);
    if job.caps is Some {
        lemma_planned_follows(x, c, job, job.caps->0);
    }
}

proof fn lemma_hook_follows(x: Course, c: ClaimModel, job: JobModel)
    requires
        x.works_on(job),
        c.recovering == x.recovering,
    ensures
        x.follows(work_hook(x.setup, c, job)),
        !(work_hook(x.setup, c, job) is Done),
{
    reveal(work_hook);
    lemma_probe_follows(x, c, job);
}

proof fn lemma_loaded_follows(x: Course, c: ClaimModel, caps: Option<Capabilities>)
    requires
        c.recovering == x.recovering,
    ensures
        x.follows(work_loaded(x.setup, c, x.desired, x.actual, caps)),
{
    reveal(work_loaded);
    reveal(Course::changes);
    let d = x.changes();
    assert(d.nothing() == !differs(d));
    let job = JobModel { desired: x.desired, actual: x.actual, diff: d, caps };
    if differs(d) {
        lemma_hook_follows(x, c, job);
    } else {
        let tally = TallyModel {
            report: crate::work::counts_of(d, ConvergeMode::NoOp, Seq::empty()),
            had_ddl: false,
        };
        if !x.setup.options.dry_run {
            lemma_data_follows(x, c, tally, 0);
        }
    }
}

proof fn lemma_run_follows(
    x: Course,
    c: ClaimModel,
    tally: TallyModel,
    run: crate::execute::RunModel,
)
    requires
        x.counted(tally),
        c.recovering == x.recovering,
    ensures
        x.follows(work_run(x.setup, c, tally, run)),
        !(work_run(x.setup, c, tally, run) is Done),
{
    reveal(work_run);
}

/// One more answer leaves a migration on its course.
pub proof fn lemma_step_follows(
    x: Course,
    w: WorkModel,
    reply: ReplyModel,
    now: u64,
    elapsed: Duration,
)
    requires
        x.follows(ProgressModel::Ask(w)),
    ensures
        x.follows(work_advanced(x.setup, w, reply, now, elapsed)),
        work_advanced(x.setup, w, reply, now, elapsed) matches ProgressModel::Done(r) ==> r.duration
            == elapsed,
{
    match w.activity {
        ActivityModel::Running { tally, execution } => {
            lemma_run_follows(x, w.claim, tally, crate::execute::advanced(execution, reply));
        },
        ActivityModel::Asking { stage, script } => {
            if let FedModel::Complete(replies) = fed(script, reply) {
                lemma_completed_follows(x, w.claim, stage, replies, now, elapsed);
            }
        },
    }
}

proof fn lemma_completed_follows(
    x: Course,
    c: ClaimModel,
    stage: WorkStageModel,
    replies: Seq<ReplyModel>,
    now: u64,
    elapsed: Duration,
)
    requires
        x.in_stage(stage),
        c.recovering == x.recovering,
    ensures
        x.follows(work_completed(x.setup, c, stage, replies, now, elapsed)),
        work_completed(x.setup, c, stage, replies, now, elapsed) matches ProgressModel::Done(r)
            ==> r.duration == elapsed,
{
    match stage {
        WorkStageModel::Backup(job) => {
            lemma_hook_follows(x, c, job);
        },
        WorkStageModel::Hook(job) => {
            lemma_probe_follows(x, c, job);
        },
        WorkStageModel::Probe(job) => {
            lemma_planned_follows(x, c, job, crate::work::probed(replies[0]));
        },
        WorkStageModel::Record { plan, tally } => {
            lemma_run_follows(
                x,
                c,
                tally,
                crate::execute::started(plan, x.setup.options.busy_timeout, c.lease),
            );
        },
        WorkStageModel::Complete(tally) => {
            lemma_data_follows(x, c, tally, 0);
        },
        WorkStageModel::Asking { tally, index } => {
            reveal(work_state);
            lemma_data_follows(x, c, tally, index + 1);
        },
        WorkStageModel::Marking { tally, index } => {
            lemma_data_follows(x, c, crate::work::with_one_applied(tally), index + 1);
        },
        WorkStageModel::DryRun(_) | WorkStageModel::Commit(_) => {
            lemma_column_statements(x.changes(), x.desired, x.actual);
        },
        _ => {},
    }
}

// ---------------------------------------------------------------------------
// The course of a convergence
// ---------------------------------------------------------------------------

/// From the answer on that brings the second of the two schemas, a convergence is on its
/// course between them.
pub proof fn lemma_schemas_set_the_course(
    x: Course,
    s: SessionModel,
    w: WorkModel,
    caps: Option<Capabilities>,
    script: crate::script::ScriptModel,
    reply: ReplyModel,
    replies: Seq<ReplyModel>,
    now: u64,
    elapsed: Duration,
)
    requires
        s.setup == x.setup,
        s.phase == PhaseModel::Work(w),
        w.claim.recovering == x.recovering,
        w.activity == (ActivityModel::Asking { stage: WorkStageModel::Load(caps), script }),
        fed(script, reply) == FedModel::Complete(replies),
        replies[0] == ReplyModel::Schema(x.desired),
        replies[1] == ReplyModel::Schema(x.actual),
    ensures
        x.leads(session_advanced(s, reply, now, elapsed)),
{
    lemma_loaded_follows(x, w.claim, caps);
}

/// A convergence that is on its course stays on it, whatever the database answers. So the
/// report at its end counts the changes between the two schemas, each kind by its own
/// counter; the columns that it counts as renamed, added and dropped are as many as the
/// plan has statements for it.
pub proof fn lemma_report_counts_the_changes(
    x: Course,
    s: SessionModel,
    reply: ReplyModel,
    now: u64,
    elapsed: Duration,
)
    requires
        x.leads(ConvergenceModel::Ask(s)),
    ensures
        x.leads(session_advanced(s, reply, now, elapsed)),
{
    match s.phase {
        PhaseModel::Entry(_) => {},
        PhaseModel::Work(w) => {
            lemma_step_follows(x, w, reply, now, elapsed);
        },
        PhaseModel::Closing(c) => {},
    }
}

// ---------------------------------------------------------------------------
// Data migrations
// ---------------------------------------------------------------------------

/// The number of data migrations that a migration on its way has counted.
pub open spec fn counted_migrations(p: ProgressModel) -> Option<nat> {
    match p {
        ProgressModel::Done(r) => Some(r.data_migrations_applied),
        ProgressModel::Failed(_) => None,
        ProgressModel::Ask(w) => match w.activity {
            ActivityModel::Running { tally, .. } => Some(tally.report.data_migrations_applied),
            ActivityModel::Asking { stage, .. } => match stage {
                WorkStageModel::DryRun(r) => Some(r.data_migrations_applied),
                WorkStageModel::Record { tally, .. } => Some(tally.report.data_migrations_applied),
                WorkStageModel::Complete(tally) => Some(tally.report.data_migrations_applied),
                WorkStageModel::Asking { tally, .. } => Some(tally.report.data_migrations_applied),
                WorkStageModel::Migrating { tally, .. } => {
                    Some(tally.report.data_migrations_applied)
                },
                WorkStageModel::Marking { tally, .. } => {
                    Some(tally.report.data_migrations_applied)
                },
                WorkStageModel::State(tally) | WorkStageModel::Version(tally)
                | WorkStageModel::Counter(tally) | WorkStageModel::Store(tally)
                | WorkStageModel::Commit(tally) => Some(tally.report.data_migrations_applied),
                _ => None,
            },
        },
    }
}

/// A data migration counts once it has been run and remembered, each one once; nothing
/// else counts as one.
pub proof fn lemma_data_migrations_counted(
    setup: SetupModel,
    w: WorkModel,
    reply: ReplyModel,
    now: u64,
    elapsed: Duration,
)
    requires
        counted_migrations(ProgressModel::Ask(w)) is Some,
    ensures
        ({
            let before = counted_migrations(ProgressModel::Ask(w))->0;
            let remembered = w.activity matches ActivityModel::Asking {
                stage: WorkStageModel::Marking { .. },
                script,
            } && fed(script, reply) is Complete;
            match counted_migrations(work_advanced(setup, w, reply, now, elapsed)) {
                Some(n) => n == if remembered && before < usize::MAX {
                    before + 1
                } else if remembered {
                    usize::MAX as nat
                } else {
                    before
                },
                None => true,
            }
        }),
{
    reveal(work_data);
    reveal(work_state);
    reveal(work_run);
}

// ---------------------------------------------------------------------------
// Nothing to do
// ---------------------------------------------------------------------------

/// A convergence that finds nothing to do says so at once: its report counts nothing and
/// holds no plan.
pub proof fn lemma_fast_path_report(setup: SetupModel, elapsed: Duration)
    ensures
        from_pass(setup, PassModel::Unchanged, elapsed) matches ConvergenceModel::Ended(o)
            && o matches Ok(r) && r.mode == ConvergeMode::FastPath && r.duration == elapsed
            && r.tables_created == 0 && r.tables_rebuilt == 0 && r.tables_dropped == 0
            && r.columns_added == 0 && r.columns_dropped == 0 && r.columns_renamed == 0
            && r.indexes_changed == 0 && r.views_changed == 0 && r.data_migrations_applied == 0
            && r.plan_sql.len() == 0,
{
}

} // verus!
