//! Convergence from start to end.
//!
//! A session decides what to ask of the database; whoever holds the connection asks
//! it, and hands the answers back.

use vstd::prelude::*;

use crate::closing::{Closing, End, Outcome};
#[allow(unused_imports)]
use crate::closing::{
    closing_advanced, closing_start, outcome_model, ClosingModel, EndModel, OutcomeModel,
};
use crate::error::MigrateError;
#[allow(unused_imports)]
use crate::error::ErrorModel;
#[allow(unused_imports)]
use crate::format::{decimal, joined};
use crate::format::{decimal_of, glue2, glue3, join};
use crate::entry::{Entry, Pass, Setup};
#[allow(unused_imports)]
use crate::entry::{entry_advanced, entry_start, EntryModel, PassModel, SetupModel};
#[allow(unused_imports)]
use crate::hash::schema_digest;
use crate::options::{ConvergeOptions, ConvergeReport, Duration};
#[allow(unused_imports)]
use crate::options::{OptionsModel, ReportModel};
#[allow(unused_imports)]
use crate::script::{ReplyModel, ScriptModel};
use crate::script::{Action, Reply};
use crate::text::{is_blank, Text};
#[allow(unused_imports)]
use crate::text::trim;
#[allow(unused_imports)]
use crate::work::{
    work_advanced, work_start, ClaimModel, ProgressModel, WorkModel,
};
use crate::work::{Claim, Progress, Work};

verus! {

// ---------------------------------------------------------------------------
// Around a convergence
// ---------------------------------------------------------------------------

pub open spec fn empty_schema() -> ErrorModel {
    ErrorModel::Schema("empty schema SQL"@)
}

/// Whether there is a schema text at all.
pub fn check_schema_given(schema_sql: &str) -> (r: Result<(), MigrateError>)
    ensures
        if trim(schema_sql@).len() == 0 {
            r matches Err(e) && e.deep_view() == empty_schema()
        } else {
            r is Ok
        },
{
    if is_blank(schema_sql) {
        Err(MigrateError::Schema("empty schema SQL".to_owned()))
    } else {
        Ok(())
    }
}

/// The error of a schema that the database does not take, from what it said.
pub fn validation_error(cause: &MigrateError) -> (r: MigrateError)
    ensures
        r.deep_view() == ErrorModel::Schema(
            "Schema validation failed: "@ + cause.deep_view().message(),
        ),
{
    let m = cause.to_string();
    MigrateError::Schema(glue2("Schema validation failed: ", m.as_str()))
}

/// The schema text that several parts make up.
pub fn combine_schema_parts(parts: &Vec<String>) -> (r: String)
    ensures
        r@ == joined(parts.deep_view(), "\n"@),
{
    join(parts, "\n")
}

pub open spec fn no_previous_schema() -> ErrorModel {
    ErrorModel::Schema(
        "No previous schema stored. Rollback requires at least one prior migration."@,
    )
}

/// The schema to go back to, from what is stored.
pub fn previous_schema(stored: Option<String>) -> (r: Result<String, MigrateError>)
    ensures
        match stored {
            Some(sql) => if trim(sql@).len() > 0 {
                r matches Ok(s) && s@ == sql@
            } else {
                r matches Err(e) && e.deep_view() == no_previous_schema()
            },
            None => r matches Err(e) && e.deep_view() == no_previous_schema(),
        },
{
    if let Some(sql) = stored {
        if !is_blank(sql.as_str()) {
            return Ok(sql);
        }
    }
    Err(
        MigrateError::Schema(
            "No previous schema stored. Rollback requires at least one prior migration.".to_owned(),
        ),
    )
}

/// The name of a backup file that is written at a time.
pub fn backup_file_name(now: u64) -> (r: String)
    ensures
        r@ == "turso_converge_backup_"@ + decimal(now as nat) + ".sql"@,
{
    let n = decimal_of(now);
    glue3("turso_converge_backup_", n.as_str(), ".sql")
}

// ---------------------------------------------------------------------------
// Sessions
// ---------------------------------------------------------------------------

/// Where a session is.
#[derive(Debug)]
pub enum Phase {
    /// Before the migration.
    Entry(Entry),
    /// In the migration.
    Work(Work),
    /// Behind the migration.
    Closing(Closing),
}

pub enum PhaseModel {
    Entry(EntryModel),
    Work(WorkModel),
    Closing(ClosingModel),
}

impl DeepView for Phase {
    type V = PhaseModel;

    open spec fn deep_view(&self) -> PhaseModel {
        match self {
            Phase::Entry(g) => PhaseModel::Entry(g.deep_view()),
            Phase::Work(w) => PhaseModel::Work(w.deep_view()),
            Phase::Closing(c) => PhaseModel::Closing(c.deep_view()),
        }
    }
}

/// A convergence on its way. A request waits for its answer.
#[derive(Debug)]
pub struct Session {
    setup: Setup,
    phase: Phase,
}

pub struct SessionModel {
    pub setup: SetupModel,
    pub phase: PhaseModel,
}

impl DeepView for Session {
    type V = SessionModel;

    closed spec fn deep_view(&self) -> SessionModel {
        SessionModel { setup: self.setup.deep_view(), phase: self.phase.deep_view() }
    }
}

impl SessionModel {
    /// The script whose request waits.
    pub open spec fn script(self) -> ScriptModel {
        match self.phase {
            PhaseModel::Entry(g) => g.script,
            PhaseModel::Work(w) => w.script(),
            PhaseModel::Closing(c) => c.script,
        }
    }
}

/// A convergence: on its way, or at its end.
#[derive(Debug)]
pub enum Convergence {
    Ask(Session),
    Ended(Outcome),
}

pub enum ConvergenceModel {
    Ask(SessionModel),
    Ended(OutcomeModel),
}

impl DeepView for Convergence {
    type V = ConvergenceModel;

    open spec fn deep_view(&self) -> ConvergenceModel {
        match self {
            Convergence::Ask(s) => ConvergenceModel::Ask(s.deep_view()),
            Convergence::Ended(o) => ConvergenceModel::Ended(outcome_model(*o)),
        }
    }
}

/// What the end of a migration leads to.
pub open spec fn from_end(setup: SetupModel, end: EndModel) -> ConvergenceModel {
    match end {
        EndModel::Ask(c) => ConvergenceModel::Ask(
            SessionModel { setup, phase: PhaseModel::Closing(c) },
        ),
        EndModel::Ended(o) => ConvergenceModel::Ended(o),
    }
}

/// What a migration under a lease leads to: whatever its result, the end follows.
pub open spec fn from_progress(
    setup: SetupModel,
    lease: Text,
    progress: ProgressModel,
) -> ConvergenceModel {
    match progress {
        ProgressModel::Ask(w) => ConvergenceModel::Ask(
            SessionModel { setup, phase: PhaseModel::Work(w) },
        ),
        ProgressModel::Done(r) => from_end(setup, closing_start(lease, Ok(r))),
        ProgressModel::Failed(e) => from_end(setup, closing_start(lease, Err(e))),
    }
}

/// What the entry leads to.
pub open spec fn from_pass(
    setup: SetupModel,
    pass: PassModel,
    elapsed: Duration,
) -> ConvergenceModel {
    match pass {
        PassModel::Ask(g) => ConvergenceModel::Ask(
            SessionModel { setup, phase: PhaseModel::Entry(g) },
        ),
        PassModel::Refused(e) => ConvergenceModel::Ended(Err(e)),
        PassModel::Unchanged => ConvergenceModel::Ended(Ok(ReportModel::idle(elapsed))),
        PassModel::Admitted { lease, recovering } => from_progress(
            setup,
            lease,
            work_start(setup, ClaimModel { lease, recovering }),
        ),
    }
}

/// What a convergence goes by.
pub open spec fn setup_of(schema_sql: Text, options: OptionsModel, process_id: u32) -> SetupModel {
    SetupModel { schema_sql, schema_hash: schema_digest(schema_sql), options, process_id }
}

/// The start of a convergence.
pub open spec fn session_start(
    schema_sql: Text,
    options: OptionsModel,
    process_id: u32,
) -> ConvergenceModel {
    let setup = setup_of(schema_sql, options, process_id);
    if trim(schema_sql).len() == 0 {
        ConvergenceModel::Ended(Err(empty_schema()))
    } else {
        from_pass(setup, entry_start(), Duration { secs: 0, nanos: 0 })
    }
}

/// What an answer leads to, at a time.
pub open spec fn session_advanced(
    s: SessionModel,
    reply: ReplyModel,
    now: u64,
    elapsed: Duration,
) -> ConvergenceModel {
    match s.phase {
        PhaseModel::Entry(g) => from_pass(
            s.setup,
            entry_advanced(s.setup, g, reply, now),
            elapsed,
        ),
        PhaseModel::Work(w) => from_progress(
            s.setup,
            w.claim.lease,
            work_advanced(s.setup, w, reply, now, elapsed),
        ),
        PhaseModel::Closing(c) => from_end(s.setup, closing_advanced(c, reply)),
    }
}

fn follow_end(setup: Setup, end: End) -> (r: Convergence)
    ensures
        r.deep_view() == from_end(setup.deep_view(), end.deep_view()),
{
    match end {
        End::Ask(c) => Convergence::Ask(Session { setup, phase: Phase::Closing(c) }),
        End::Ended(o) => Convergence::Ended(o),
    }
}

fn follow_progress(setup: Setup, lease: String, progress: Progress) -> (r: Convergence)
    ensures
        r.deep_view() == from_progress(setup.deep_view(), lease@, progress.deep_view()),
{
    match progress {
        Progress::Ask(w) => Convergence::Ask(Session { setup, phase: Phase::Work(w) }),
        Progress::Done(report) => {
            let end = Closing::start(lease, Ok(report));
            follow_end(setup, end)
        },
        Progress::Failed(e) => {
            let end = Closing::start(lease, Err(e));
            follow_end(setup, end)
        },
    }
}

fn follow_pass(setup: Setup, pass: Pass, elapsed: Duration) -> (r: Convergence)
    ensures
        r.deep_view() == from_pass(setup.deep_view(), pass.deep_view(), elapsed),
{
    match pass {
        Pass::Ask(g) => Convergence::Ask(Session { setup, phase: Phase::Entry(g) }),
        Pass::Refused(e) => Convergence::Ended(Err(e)),
        Pass::Unchanged => Convergence::Ended(Ok(ConvergeReport::fast_path(elapsed))),
        Pass::Admitted { lease, recovering } => {
            let claim = Claim { lease: lease.clone(), recovering };
            let progress = Work::start(&setup, claim);
            follow_progress(setup, lease, progress)
        },
    }
}

impl Session {
    /// Starts a convergence to the schema text, by a process.
    pub fn start(schema_sql: &str, options: ConvergeOptions, process_id: u32) -> (r: Convergence)
        ensures
            r.deep_view() == session_start(schema_sql@, options.deep_view(), process_id),
    {
        if let Err(e) = check_schema_given(schema_sql) {
            return Convergence::Ended(Err(e));
        }
        let setup = Setup::new(schema_sql, options, process_id);
        follow_pass(setup, Entry::start(), Duration::zero())
    }

    /// The request that waits for its answer.
    pub fn request(&self) -> (r: &Action)
        ensures
            self.deep_view().script().waits(),
            r.deep_view() == self.deep_view().script().request(),
    {
        match &self.phase {
            Phase::Entry(g) => g.request(),
            Phase::Work(w) => w.request(),
            Phase::Closing(c) => c.request(),
        }
    }

    /// Goes on with the answer to the request, at the time `now` in seconds, when
    /// `elapsed` has passed since the start.
    pub fn advance(self, reply: Reply, now: u64, elapsed: Duration) -> (r: Convergence)
        ensures
            r.deep_view() == session_advanced(
                self.deep_view(),
                reply.deep_view(),
                now,
                elapsed,
            ),
    {
        let Session { setup, phase } = self;
        match phase {
            Phase::Entry(g) => {
                let pass = g.advance(&setup, reply, now);
                follow_pass(setup, pass, elapsed)
            },
            Phase::Work(w) => {
                let lease = w.lease();
                let progress = w.advance(&setup, reply, now, elapsed);
                follow_progress(setup, lease, progress)
            },
            Phase::Closing(c) => {
                let end = c.advance(reply);
                follow_end(setup, end)
            },
        }
    }
}

} // verus!
