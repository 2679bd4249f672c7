//! The end of a migration: clear the marks of one that failed before it changed
//! anything, and give the lease back.

use vstd::prelude::*;

use crate::error::MigrateError;
#[allow(unused_imports)]
use crate::error::ErrorModel;
#[allow(unused_imports)]
use crate::entry::{deleting, getting, said};
use crate::entry::{delete_op, get_op, reply_is, reply_text};
use crate::options::{ConvergeReport, Failpoint};
#[allow(unused_imports)]
use crate::options::ReportModel;
#[allow(unused_imports)]
use crate::policy::injected;
#[allow(unused_imports)]
use crate::script::{
    begin_op, commit_action, fed, fresh, op, rollback_action, BreakModel, FedModel, OpModel,
    ReplyModel, RuleModel, ScriptModel,
};
use crate::script::{execute_op, Action, Fed, Op, Reply, Rule, Script};
use crate::text::{str_equal, Text};

verus! {

/// How a convergence comes out.
pub type Outcome = Result<ConvergeReport, MigrateError>;

#[allow(dead_code)]
pub type OutcomeModel = Result<ReportModel, ErrorModel>;

/// How a convergence comes out, by its models.
pub open spec fn outcome_model(o: Outcome) -> OutcomeModel {
    match o {
        Ok(r) => Ok(r.deep_view()),
        Err(e) => Err(e.deep_view()),
    }
}

/// Whether a migration failed before it changed the schema, by the phase that it had
/// marked.
pub open spec fn failed_early(e: ErrorModel, phase: Option<Text>) -> bool {
    match phase {
        Some(p) => if p == "complete"@ {
            false
        } else if p == "ddl"@ {
            e == injected(Failpoint::BeforeExecute)
        } else {
            true
        },
        None => true,
    }
}

/// Whether a migration failed before it changed the schema.
pub fn is_pre_ddl_failure(err: &MigrateError, phase: Option<&String>) -> (r: bool)
    ensures
        r == failed_early(err.deep_view(), phase.deep_view()),
{
    match phase {
        Some(p) => if str_equal(p.as_str(), "complete") {
            false
        } else if str_equal(p.as_str(), "ddl") {
            match err {
                MigrateError::InjectedFailure { failpoint } => str_equal(
                    failpoint.as_str(),
                    Failpoint::BeforeExecute.as_str(),
                ),
                _ => false,
            }
        } else {
            true
        },
        None => true,
    }
}

// ---------------------------------------------------------------------------
// Stages
// ---------------------------------------------------------------------------

/// Where the end is.
#[derive(Debug)]
pub enum ClosingStage {
    /// Reading the phase in which the migration failed.
    Phase(MigrateError),
    /// Reading whether the lease is still held, before the marks are cleared.
    Owner(MigrateError),
    /// Clearing the marks.
    Clearing(MigrateError),
    /// The marks could not be cleared: rolling back.
    Unclear(MigrateError),
    /// Reading whether the lease is still held, before it is given back.
    Holder(Outcome),
    /// Giving the lease back.
    Freeing(Outcome),
}

pub enum ClosingStageModel {
    Phase(ErrorModel),
    Owner(ErrorModel),
    Clearing(ErrorModel),
    Unclear(ErrorModel),
    Holder(OutcomeModel),
    Freeing(OutcomeModel),
}

impl DeepView for ClosingStage {
    type V = ClosingStageModel;

    open spec fn deep_view(&self) -> ClosingStageModel {
        match self {
            ClosingStage::Phase(e) => ClosingStageModel::Phase(e.deep_view()),
            ClosingStage::Owner(e) => ClosingStageModel::Owner(e.deep_view()),
            ClosingStage::Clearing(e) => ClosingStageModel::Clearing(e.deep_view()),
            ClosingStage::Unclear(e) => ClosingStageModel::Unclear(e.deep_view()),
            ClosingStage::Holder(o) => ClosingStageModel::Holder(outcome_model(*o)),
            ClosingStage::Freeing(o) => ClosingStageModel::Freeing(outcome_model(*o)),
        }
    }
}

/// A convergence behind its migration. A request waits for its answer.
#[derive(Debug)]
pub struct Closing {
    lease: String,
    stage: ClosingStage,
    script: Script,
}

pub struct ClosingModel {
    pub lease: Text,
    pub stage: ClosingStageModel,
    pub script: ScriptModel,
}

impl DeepView for Closing {
    type V = ClosingModel;

    closed spec fn deep_view(&self) -> ClosingModel {
        ClosingModel {
            lease: self.lease@,
            stage: self.stage.deep_view(),
            script: self.script.deep_view(),
        }
    }
}

/// The end: on its way, or reached.
#[derive(Debug)]
pub enum End {
    Ask(Closing),
    Ended(Outcome),
}

pub enum EndModel {
    Ask(ClosingModel),
    Ended(OutcomeModel),
}

impl DeepView for End {
    type V = EndModel;

    open spec fn deep_view(&self) -> EndModel {
        match self {
            End::Ask(c) => EndModel::Ask(c.deep_view()),
            End::Ended(o) => EndModel::Ended(outcome_model(*o)),
        }
    }
}

pub open spec fn closing_at(lease: Text, stage: ClosingStageModel, ops: Seq<OpModel>) -> EndModel {
    EndModel::Ask(ClosingModel { lease, stage, script: fresh(ops) })
}

/// The lease is given back.
pub open spec fn release(lease: Text, outcome: OutcomeModel) -> EndModel {
    closing_at(
        lease,
        ClosingStageModel::Holder(outcome),
        seq![getting("migration_owner"@, RuleModel::Ignore)],
    )
}

/// The end of a migration.
pub open spec fn closing_start(lease: Text, outcome: OutcomeModel) -> EndModel {
    match outcome {
        Ok(_) => release(lease, outcome),
        Err(e) => closing_at(
            lease,
            ClosingStageModel::Phase(e),
            seq![getting("migration_phase"@, RuleModel::Ignore)],
        ),
    }
}

/// The script that clears the marks.
pub open spec fn clearing_script() -> Seq<OpModel> {
    seq![
        begin_op(),
        deleting("migration_in_progress"@, RuleModel::Undo),
        deleting("migration_phase"@, RuleModel::Undo),
        op(commit_action(), RuleModel::Ignore),
    ]
}

/// The script that gives the lease back.
pub open spec fn freeing_script() -> Seq<OpModel> {
    seq![
        deleting("migration_owner"@, RuleModel::Ignore),
        deleting("migration_lease_until"@, RuleModel::Ignore),
    ]
}

/// What follows a stage whose requests are answered.
pub open spec fn closing_completed(
    lease: Text,
    stage: ClosingStageModel,
    replies: Seq<ReplyModel>,
) -> EndModel {
    match stage {
        ClosingStageModel::Phase(e) => if failed_early(e, said(replies[0])) {
            closing_at(
                lease,
                ClosingStageModel::Owner(e),
                seq![getting("migration_owner"@, RuleModel::Ignore)],
            )
        } else {
            release(lease, Err(e))
        },
        ClosingStageModel::Owner(e) => if said(replies[0]) == Some(lease) {
            closing_at(lease, ClosingStageModel::Clearing(e), clearing_script())
        } else {
            release(lease, Err(e))
        },
        ClosingStageModel::Clearing(e) | ClosingStageModel::Unclear(e) => release(lease, Err(e)),
        ClosingStageModel::Holder(outcome) => if said(replies[0]) == Some(lease) {
            closing_at(lease, ClosingStageModel::Freeing(outcome), freeing_script())
        } else {
            EndModel::Ended(outcome)
        },
        ClosingStageModel::Freeing(outcome) => EndModel::Ended(outcome),
    }
}

/// What follows a stage that broke: what cannot be cleared or given back stays.
pub open spec fn closing_broken(
    lease: Text,
    stage: ClosingStageModel,
    b: BreakModel,
) -> EndModel {
    match stage {
        ClosingStageModel::Clearing(e) if b.rollback => closing_at(
            lease,
            ClosingStageModel::Unclear(e),
            seq![op(rollback_action(), RuleModel::Ignore)],
        ),
        ClosingStageModel::Phase(e) | ClosingStageModel::Owner(e) | ClosingStageModel::Clearing(e)
        | ClosingStageModel::Unclear(e) => release(lease, Err(e)),
        ClosingStageModel::Holder(outcome) | ClosingStageModel::Freeing(outcome) => {
            EndModel::Ended(outcome)
        },
    }
}

/// What an answer leads to.
pub open spec fn closing_advanced(c: ClosingModel, reply: ReplyModel) -> EndModel {
    match fed(c.script, reply) {
        FedModel::More(script) => EndModel::Ask(ClosingModel { script, ..c }),
        FedModel::Broken(b) => closing_broken(c.lease, c.stage, b),
        FedModel::Complete(replies) => closing_completed(c.lease, c.stage, replies),
    }
}

// ---------------------------------------------------------------------------
// The machine
// ---------------------------------------------------------------------------

fn begin_single(lease: String, stage: ClosingStage, o: Op) -> (r: End)
    ensures
        r.deep_view() == closing_at(lease@, stage.deep_view(), seq![o.deep_view()]),
{
    let script = Script::single(o.action, o.rule);
    End::Ask(Closing { lease, stage, script })
}

fn release_lease(lease: String, outcome: Outcome) -> (r: End)
    ensures
        r.deep_view() == release(lease@, outcome_model(outcome)),
{
    begin_single(lease, ClosingStage::Holder(outcome), get_op("migration_owner", Rule::Ignore))
}

fn clear_marks(lease: String, e: MigrateError) -> (r: End)
    ensures
        r.deep_view() == closing_at(
            lease@,
            ClosingStageModel::Clearing(e.deep_view()),
            clearing_script(),
        ),
{
    let mut ops: Vec<Op> = Vec::new();
    ops.push(execute_op("BEGIN IMMEDIATE", Rule::Stop));
    ops.push(delete_op("migration_in_progress", Rule::Undo));
    ops.push(delete_op("migration_phase", Rule::Undo));
    ops.push(execute_op("COMMIT", Rule::Ignore));
    assert(ops.deep_view() =~= clearing_script());
    let script = Script::new(ops);
    End::Ask(Closing { lease, stage: ClosingStage::Clearing(e), script })
}

fn free_lease(lease: String, outcome: Outcome) -> (r: End)
    ensures
        r.deep_view() == closing_at(
            lease@,
            ClosingStageModel::Freeing(outcome_model(outcome)),
            freeing_script(),
        ),
{
    let mut ops: Vec<Op> = Vec::new();
    ops.push(delete_op("migration_owner", Rule::Ignore));
    ops.push(delete_op("migration_lease_until", Rule::Ignore));
    assert(ops.deep_view() =~= freeing_script());
    let script = Script::new(ops);
    End::Ask(Closing { lease, stage: ClosingStage::Freeing(outcome), script })
}

fn complete(lease: String, stage: ClosingStage, replies: Vec<Reply>) -> (r: End)
    requires
        replies.len() >= 1,
    ensures
        r.deep_view() == closing_completed(lease@, stage.deep_view(), replies.deep_view()),
{
    assert(replies.deep_view()[0] == replies@[0].deep_view());
    match stage {
        ClosingStage::Phase(e) => if is_pre_ddl_failure(&e, reply_text(&replies[0])) {
            begin_single(
                lease,
                ClosingStage::Owner(e),
                get_op("migration_owner", Rule::Ignore),
            )
        } else {
            release_lease(lease, Err(e))
        },
        ClosingStage::Owner(e) => if reply_is(&replies[0], lease.as_str()) {
            clear_marks(lease, e)
        } else {
            release_lease(lease, Err(e))
        },
        ClosingStage::Clearing(e) => release_lease(lease, Err(e)),
        ClosingStage::Unclear(e) => release_lease(lease, Err(e)),
        ClosingStage::Holder(outcome) => if reply_is(&replies[0], lease.as_str()) {
            free_lease(lease, outcome)
        } else {
            End::Ended(outcome)
        },
        ClosingStage::Freeing(outcome) => End::Ended(outcome),
    }
}

impl Closing {
    /// Starts the end of a migration.
    pub fn start(lease: String, outcome: Outcome) -> (r: End)
        ensures
            r.deep_view() == closing_start(lease@, outcome_model(outcome)),
    {
        match outcome {
            Ok(report) => release_lease(lease, Ok(report)),
            Err(e) => begin_single(
                lease,
                ClosingStage::Phase(e),
                get_op("migration_phase", Rule::Ignore),
            ),
        }
    }

    /// The request that waits for its answer.
    pub fn request(&self) -> (r: &Action)
        ensures
            self.deep_view().script.waits(),
            r.deep_view() == self.deep_view().script.request(),
    {
        self.script.request()
    }

    /// Goes on with the answer to the request.
    pub fn advance(self, reply: Reply) -> (r: End)
        ensures
            r.deep_view() == closing_advanced(self.deep_view(), reply.deep_view()),
    {
        let Closing { lease, stage, script } = self;
        match script.feed(reply) {
            Fed::More(script) => End::Ask(Closing { lease, stage, script }),
            Fed::Broken(b) => match stage {
                ClosingStage::Clearing(e) => if b.rollback {
                    begin_single(
                        lease,
                        ClosingStage::Unclear(e),
                        execute_op("ROLLBACK", Rule::Ignore),
                    )
                } else {
                    release_lease(lease, Err(e))
                },
                ClosingStage::Phase(e) => release_lease(lease, Err(e)),
                ClosingStage::Owner(e) => release_lease(lease, Err(e)),
                ClosingStage::Unclear(e) => release_lease(lease, Err(e)),
                ClosingStage::Holder(outcome) => End::Ended(outcome),
                ClosingStage::Freeing(outcome) => End::Ended(outcome),
            },
            Fed::Complete(replies) => {
                assert(replies.deep_view().len() == replies.len());
                complete(lease, stage, replies)
            },
        }
    }
}

} // verus!
