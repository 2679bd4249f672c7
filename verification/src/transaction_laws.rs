//! A convergence and the transactions of the database.

use vstd::prelude::*;

#[allow(unused_imports)]
use crate::closing::{clearing_script, closing_advanced, ClosingModel, ClosingStageModel, EndModel};
#[allow(unused_imports)]
use crate::converge::{
    from_progress, session_advanced, session_start, ConvergenceModel, PhaseModel, SessionModel,
};
#[allow(unused_imports)]
use crate::diff::difference;
#[allow(unused_imports)]
use crate::execute::{advanced, busy_statement, started, RunModel};
#[allow(unused_imports)]
use crate::execute_laws::{
    in_transaction, leaves, lemma_starts_outside, lemma_transactions_tracked, sound,
};
#[allow(unused_imports)]
use crate::entry::{
    ask_lease, bootstrap_statement, entry_advanced, entry_decided, entry_pending, getting,
    EntryModel, EntryStageModel, PassModel, SetupModel,
};
#[allow(unused_imports)]
use crate::options::{ConvergeMode, Duration, OptionsModel};
#[allow(unused_imports)]
use crate::schema::{Capabilities, SnapshotModel};
#[allow(unused_imports)]
use crate::script::{
    begin_action, begin_op, commit_action, commit_op, fed, lemma_begin_is_not_commit, op,
    open_behind, plain_statements, rollback_action, suits, undo_ops, undoes, ActionModel, FedModel,
    OpModel, ReplyModel, RuleModel,
};
#[allow(unused_imports)]
use crate::text::Text;
#[allow(unused_imports)]
use crate::work::{
    counts_of, probed, state_script, version_after, version_script, version_statement,
    with_one_applied, work_advanced, work_completed, work_data, work_hook, work_loaded,
    work_planned, work_preflight, work_probe, work_run, work_start, work_state, ActivityModel,
    ClaimModel, JobModel, ProgressModel, TallyModel, WorkModel, WorkStageModel,
};

verus! {

// ---------------------------------------------------------------------------
// Scripts
// ---------------------------------------------------------------------------

/// Whether a request begins or ends no transaction.
pub open spec fn plain(a: ActionModel) -> bool {
    a != begin_action() && a != commit_action() && a != rollback_action()
}

/// Requests outside of transactions.
pub open spec fn quiet(ops: Seq<OpModel>) -> bool {
    forall|i: int|
        0 <= i < ops.len() ==> plain((#[trigger] ops[i]).action) && !undoes(ops[i].rule)
            && !(ops[i].action is ForeignKeyCheck)
}

/// Requests inside a transaction, whose failures roll it back.
pub open spec fn undoing(ops: Seq<OpModel>) -> bool {
    forall|i: int|
        0 <= i < ops.len() ==> plain((#[trigger] ops[i]).action) && (ops[i].rule is Undo
            || ops[i].rule is UndoAt) && !(ops[i].action is Backup)
}

proof fn lemma_literals()
    ensures
        "BEGIN IMMEDIATE"@.len() == 15,
        "BEGIN IMMEDIATE"@[0] == 'B',
        "COMMIT"@.len() == 6,
        "COMMIT"@[0] == 'C',
        "ROLLBACK"@.len() == 8,
        "ROLLBACK"@[0] == 'R',
{
    reveal_strlit("BEGIN IMMEDIATE");
    reveal_strlit("COMMIT");
    reveal_strlit("ROLLBACK");
}

// ---------------------------------------------------------------------------
// The entry
// ---------------------------------------------------------------------------

/// Whether a transaction is open before the request of the entry.
pub open spec fn entry_open(g: EntryModel) -> bool {
    match g.stage {
        EntryStageModel::Lease { .. } => g.script.replies.len() >= 2,
        EntryStageModel::Held(_) | EntryStageModel::Taking { .. } => true,
        _ => false,
    }
}

pub open spec fn entry_sound(g: EntryModel) -> bool {
    let ops = g.script.ops;
    &&& g.script.waits()
    &&& match g.stage {
        EntryStageModel::Lease { .. } => {
            &&& ops.len() == 4
            &&& plain(ops[0].action) && ops[0].rule is StopAt && ops[0].action is Execute
            &&& ops[1] == begin_op()
            &&& ops[2] == getting("migration_owner"@, RuleModel::Stop)
            &&& ops[3] == getting("migration_lease_until"@, RuleModel::Stop)
        },
        EntryStageModel::Held(_) => ops == seq![op(rollback_action(), RuleModel::Ignore)],
        EntryStageModel::Taking { .. } => {
            &&& ops.len() == 4
            &&& ops[0].action is SetMeta && ops[1].action is SetMeta && ops[2].action is SetMeta
            &&& ops[0].rule is Stop && ops[1].rule is Stop && ops[2].rule is Stop
            &&& ops[3] == op(commit_action(), RuleModel::Stop)
        },
        _ => quiet(ops),
    }
}

/// Whether the entry is on its way with a transaction open or not; and where it has
/// ended, none is open.
pub open spec fn entry_leaves(p: PassModel, open: bool) -> bool {
    match p {
        PassModel::Ask(g) => entry_sound(g) && entry_open(g) == open,
        _ => !open,
    }
}

proof fn lemma_ask_lease_outside(setup: SetupModel, recovering: bool, now: u64)
    ensures
        entry_leaves(ask_lease(setup, recovering, now), false),
{
    lemma_literals();
    reveal_strlit("PRAGMA busy_timeout = ");
    let t = busy_statement(setup.options.busy_timeout);
    assert(t[0] == 'P');
}

proof fn lemma_pending_outside(
    setup: SetupModel,
    index: nat,
    pending: bool,
    unchanged: bool,
    recovering: bool,
    now: u64,
)
    ensures
        entry_leaves(entry_pending(setup, index, unchanged, recovering, now), false),
        entry_leaves(entry_decided(setup, pending, unchanged, recovering, now), false),
{
    lemma_ask_lease_outside(setup, recovering, now);
}

/// The entry knows whether a transaction is open, and leaves none open, but where the
/// database refuses a request while the lease is read or taken.
pub proof fn lemma_entry_tracks(setup: SetupModel, g: EntryModel, reply: ReplyModel, now: u64)
    requires
        entry_sound(g),
        suits(g.script.request(), reply),
        reply is Failed && entry_open(g) ==> g.stage is Held,
    ensures
        entry_leaves(
            entry_advanced(setup, g, reply, now),
            open_behind(entry_open(g), g.script.request(), reply),
        ),
{
    lemma_begin_is_not_commit();
    let k = g.script.replies.len() as int;
    let o = g.script.ops[k];
    match g.stage {
        EntryStageModel::ReadOnly => {
            assert(plain(o.action));
            lemma_literals();
            reveal_strlit(
                "CREATE TABLE IF NOT EXISTS _schema_meta (key TEXT PRIMARY KEY, value TEXT NOT NULL)",
            );
            assert(bootstrap_statement().len() > 20);
        },
        EntryStageModel::Markers => {
            assert(plain(o.action));
            if let FedModel::Complete(replies) = fed(g.script, reply) {
                let recovering = crate::entry::said(replies[1]) == Some("1"@);
                let unchanged = crate::entry::said(replies[0]) == Some(setup.schema_hash)
                    && !recovering;
                lemma_pending_outside(setup, 0, false, unchanged, recovering, now);
            }
        },
        EntryStageModel::Pending { index, unchanged, recovering } => {
            assert(plain(o.action));
            lemma_pending_outside(setup, index + 1, true, unchanged, recovering, now);
        },
        EntryStageModel::Drift(_) => {
            assert(plain(o.action));
            lemma_ask_lease_outside(setup, false, now);
        },
        EntryStageModel::Lease { .. } | EntryStageModel::Held(_) | EntryStageModel::Taking { .. } => {},
        _ => {
            assert(plain(o.action));
        },
    }
}

// ---------------------------------------------------------------------------
// The migration
// ---------------------------------------------------------------------------

/// Whether a transaction is open before the request of the migration.
pub open spec fn work_open(w: WorkModel) -> bool {
    match w.activity {
        ActivityModel::Running { execution, .. } => in_transaction(execution),
        ActivityModel::Asking { stage, script } => match stage {
            WorkStageModel::Migrating { .. } | WorkStageModel::State(_) => script.replies.len() > 0,
            WorkStageModel::Marking { .. } | WorkStageModel::Version(_) => true,
            WorkStageModel::Counter(_) | WorkStageModel::Store(_) | WorkStageModel::Commit(_)
            | WorkStageModel::Undoing(_) => true,
            _ => false,
        },
    }
}

pub open spec fn work_sound(w: WorkModel) -> bool {
    match w.activity {
        ActivityModel::Running { execution, .. } => sound(execution),
        ActivityModel::Asking { stage, script } => {
            let ops = script.ops;
            &&& script.waits()
            &&& match stage {
                WorkStageModel::Migrating { .. } | WorkStageModel::State(_) => ops[0] == begin_op()
                    && undoing(ops.skip(1)),
                WorkStageModel::Marking { .. } => ops.len() == 2 && ops[0].action is SetMeta
                    && ops[0].rule is Undo && ops[1] == commit_op(),
                WorkStageModel::Version(_) | WorkStageModel::Store(_) => undoing(ops),
                WorkStageModel::Counter(_) => ops == seq![
                    op(ActionModel::SchemaCounter, RuleModel::Ignore),
                ],
                WorkStageModel::Commit(_) => ops == seq![op(commit_action(), RuleModel::Stop)],
                WorkStageModel::Undoing(_) => ops == seq![
                    op(rollback_action(), RuleModel::Ignore),
                ],
                _ => quiet(ops),
            }
        },
    }
}

/// Whether the migration is on its way with a transaction open or not; and where it has
/// ended, none is open.
pub open spec fn work_leaves(p: ProgressModel, open: bool) -> bool {
    match p {
        ProgressModel::Ask(w) => work_sound(w) && work_open(w) == open,
        _ => !open,
    }
}

/// Whether no data migration begins or ends a transaction by itself.
pub open spec fn plain_migrations(setup: SetupModel) -> bool {
    forall|i: int|
        0 <= i < setup.options.data_migrations.len() ==> plain_statements(
            (#[trigger] setup.options.data_migrations[i]).statements,
        )
}

/// Whether the plan that the migration is about to run begins and ends no transaction by
/// itself.
pub open spec fn plain_plan(w: WorkModel) -> bool {
    w.activity matches ActivityModel::Asking { stage: WorkStageModel::Record { plan, .. }, .. }
        ==> plain_statements(plan.transactional_stmts)
}

proof fn lemma_state_outside(setup: SetupModel, c: ClaimModel, tally: TallyModel)
    ensures
        work_leaves(work_state(setup, c, tally), false),
{
    reveal(work_state);
    lemma_literals();
    reveal_strlit(
        "CREATE TABLE IF NOT EXISTS schema_version (version INTEGER NOT NULL, updated_at TEXT NOT NULL)",
    );
    let s = state_script(setup.schema_hash, tally.had_ddl);
    let rest = s.skip(1);
    assert(rest[0] == s[1]);
    assert(rest[1] == s[2]);
    assert(rest[2] == s[3]);
    if tally.had_ddl {
        assert(rest.len() == 5);
        assert(rest[3] == s[4]);
        assert(rest[4] == s[5]);
    } else {
        assert(rest.len() == 3);
    }
}

proof fn lemma_data_outside(setup: SetupModel, c: ClaimModel, tally: TallyModel, index: nat)
    ensures
        work_leaves(work_data(setup, c, tally, index), false),
{
    reveal(work_data);
    lemma_state_outside(setup, c, tally);
}

proof fn lemma_planned_outside(
    setup: SetupModel,
    c: ClaimModel,
    job: JobModel,
    caps: Capabilities,
)
    ensures
        work_leaves(work_planned(setup, c, job, caps), false),
{
    reveal(work_planned);
}

proof fn lemma_probe_outside(setup: SetupModel, c: ClaimModel, job: JobModel)
    ensures
        work_leaves(work_probe(setup, c, job), false),
        work_leaves(work_hook(setup, c, job), false),
{
    reveal(work_probe);
    reveal(work_hook);
    if let Some(caps) = job.caps {
        lemma_planned_outside(setup, c, job, caps);
    }
}

proof fn lemma_loaded_outside(
    setup: SetupModel,
    c: ClaimModel,
    desired: SnapshotModel,
    actual: SnapshotModel,
    caps: Option<Capabilities>,
)
    ensures
        work_leaves(work_loaded(setup, c, desired, actual, caps), false),
{
    reveal(work_loaded);
    let diff = difference(desired, actual, setup.options.rename_hints);
    let tally = TallyModel {
        report: counts_of(diff, ConvergeMode::NoOp, Seq::empty()),
        had_ddl: false,
    };
    lemma_data_outside(setup, c, tally, 0);
    lemma_probe_outside(setup, c, JobModel { desired, actual, diff, caps });
}

proof fn lemma_run_leaves(
    setup: SetupModel,
    c: ClaimModel,
    tally: TallyModel,
    run: RunModel,
    open: bool,
)
    requires
        leaves(run, open),
    ensures
        work_leaves(work_run(setup, c, tally, run), open),
{
    reveal(work_run);
}

proof fn lemma_migrating_sound(stmts: Seq<Text>)
    requires
        plain_statements(stmts),
    ensures
        ({
            let ops = seq![begin_op()] + undo_ops(stmts, "data_migration"@);
            ops[0] == begin_op() && undoing(ops.skip(1))
        }),
{
    let ops = seq![begin_op()] + undo_ops(stmts, "data_migration"@);
    let rest = ops.skip(1);
    assert forall|i: int| 0 <= i < rest.len() implies plain((#[trigger] rest[i]).action) && (
    rest[i].rule is Undo || rest[i].rule is UndoAt) && !(rest[i].action is Backup) by {
        assert(rest[i] == undo_ops(stmts, "data_migration"@)[i]);
        assert(stmts[i] != "COMMIT"@);
    }
}

proof fn lemma_version_plain(version: u32, now: u64)
    ensures
        undoing(version_script(version, now)),
{
    lemma_literals();
    reveal_strlit("INSERT INTO schema_version (version, updated_at) VALUES (");
    reveal_strlit("DELETE FROM schema_version");
    assert(version_statement(version, now)[0] == 'I');
    assert("DELETE FROM schema_version"@[0] == 'D');
}

proof fn lemma_completed_tracks(
    setup: SetupModel,
    c: ClaimModel,
    stage: WorkStageModel,
    replies: Seq<ReplyModel>,
    now: u64,
    elapsed: Duration,
)
    requires
        plain_migrations(setup),
        stage matches WorkStageModel::Record { plan, .. } ==> plain_statements(
            plan.transactional_stmts,
        ),
    ensures
        work_leaves(
            work_completed(setup, c, stage, replies, now, elapsed),
            stage is Migrating || stage is State || stage is Version || stage is Counter || stage
                is Store,
        ),
{
    match stage {
        WorkStageModel::Introspect | WorkStageModel::Preflight => {
            reveal(work_preflight);
        },
        WorkStageModel::Load(caps) => {
            if let (ReplyModel::Schema(desired), ReplyModel::Schema(actual)) = (
                replies[0],
                replies[1],
            ) {
                lemma_loaded_outside(setup, c, desired, actual, caps);
            }
        },
        WorkStageModel::Backup(job) | WorkStageModel::Hook(job) => {
            lemma_probe_outside(setup, c, job);
        },
        WorkStageModel::Probe(job) => {
            lemma_planned_outside(setup, c, job, probed(replies[0]));
        },
        WorkStageModel::Record { plan, tally } => {
            lemma_starts_outside(plan, setup.options.busy_timeout, c.lease);
            lemma_run_leaves(
                setup,
                c,
                tally,
                started(plan, setup.options.busy_timeout, c.lease),
                false,
            );
        },
        WorkStageModel::Complete(tally) => {
            lemma_data_outside(setup, c, tally, 0);
        },
        WorkStageModel::Asking { tally, index } => {
            lemma_state_outside(setup, c, tally);
            lemma_data_outside(setup, c, tally, index + 1);
            if index < setup.options.data_migrations.len() {
                lemma_migrating_sound(setup.options.data_migrations[index as int].statements);
            }
        },
        WorkStageModel::Marking { tally, index } => {
            lemma_data_outside(setup, c, with_one_applied(tally), index + 1);
        },
        WorkStageModel::State(tally) => {
            if tally.had_ddl {
                if let Ok(v) = version_after(crate::entry::counted(replies.last())) {
                    lemma_version_plain(v, now);
                }
            }
        },
        _ => {},
    }
}

/// The migration knows whether a transaction is open, and leaves none open, but where
/// the database refuses to commit the state.
pub proof fn lemma_work_tracks(
    setup: SetupModel,
    w: WorkModel,
    reply: ReplyModel,
    now: u64,
    elapsed: Duration,
)
    requires
        work_sound(w),
        plain_migrations(setup),
        plain_plan(w),
        suits(w.script().request(), reply),
        !(reply is Failed && (w.activity matches ActivityModel::Asking { stage, .. } && stage
            is Commit)),
    ensures
        work_leaves(
            work_advanced(setup, w, reply, now, elapsed),
            open_behind(work_open(w), w.script().request(), reply),
        ),
{
    lemma_begin_is_not_commit();
    match w.activity {
        ActivityModel::Running { tally, execution } => {
            lemma_transactions_tracked(execution, reply);
            lemma_run_leaves(
                setup,
                w.claim,
                tally,
                advanced(execution, reply),
                open_behind(work_open(w), w.script().request(), reply),
            );
        },
        ActivityModel::Asking { stage, script } => {
            let k = script.replies.len() as int;
            let o = script.ops[k];
            match stage {
                WorkStageModel::Migrating { .. } | WorkStageModel::State(_) => {
                    if k > 0 {
                        assert(o == script.ops.skip(1)[k - 1]);
                    }
                },
                WorkStageModel::Marking { .. } | WorkStageModel::Counter(_)
                | WorkStageModel::Commit(_) | WorkStageModel::Undoing(_) => {},
                _ => {
                    assert(plain(o.action));
                },
            }
            if let FedModel::Complete(replies) = fed(script, reply) {
                lemma_completed_tracks(setup, w.claim, stage, replies, now, elapsed);
            }
        },
    }
}

// ---------------------------------------------------------------------------
// The closing
// ---------------------------------------------------------------------------

/// Whether a transaction is open before the request of the closing.
pub open spec fn closing_open(c: ClosingModel) -> bool {
    match c.stage {
        ClosingStageModel::Clearing(_) => c.script.replies.len() > 0,
        ClosingStageModel::Unclear(_) => true,
        _ => false,
    }
}

pub open spec fn closing_sound(c: ClosingModel) -> bool {
    &&& c.script.waits()
    &&& match c.stage {
        ClosingStageModel::Clearing(_) => c.script.ops == clearing_script(),
        ClosingStageModel::Unclear(_) => c.script.ops == seq![
            op(rollback_action(), RuleModel::Ignore),
        ],
        _ => quiet(c.script.ops),
    }
}

pub open spec fn closing_leaves(e: EndModel, open: bool) -> bool {
    match e {
        EndModel::Ask(c) => closing_sound(c) && closing_open(c) == open,
        EndModel::Ended(_) => !open,
    }
}

/// The closing knows whether a transaction is open, and leaves none open, but where the
/// database refuses to commit the cleared marks.
pub proof fn lemma_closing_tracks(c: ClosingModel, reply: ReplyModel)
    requires
        closing_sound(c),
        suits(c.script.request(), reply),
        !(reply is Failed && c.stage is Clearing && c.script.replies.len() == 3),
    ensures
        closing_leaves(
            closing_advanced(c, reply),
            open_behind(closing_open(c), c.script.request(), reply),
        ),
{
    lemma_begin_is_not_commit();
    let o = c.script.ops[c.script.replies.len() as int];
    if !(c.stage is Clearing || c.stage is Unclear) {
        assert(plain(o.action));
    }
}

// ---------------------------------------------------------------------------
// Sessions
// ---------------------------------------------------------------------------

/// Whether a transaction is open before the request of the session.
pub open spec fn session_open(s: SessionModel) -> bool {
    match s.phase {
        PhaseModel::Entry(g) => entry_open(g),
        PhaseModel::Work(w) => work_open(w),
        PhaseModel::Closing(c) => closing_open(c),
    }
}

/// What every session keeps.
pub open spec fn session_sound(s: SessionModel) -> bool {
    match s.phase {
        PhaseModel::Entry(g) => entry_sound(g),
        PhaseModel::Work(w) => work_sound(w),
        PhaseModel::Closing(c) => closing_sound(c),
    }
}

/// Whether the convergence is on its way with a transaction open or not; and where it
/// has ended, none is open.
pub open spec fn session_leaves(c: ConvergenceModel, open: bool) -> bool {
    match c {
        ConvergenceModel::Ask(s) => session_sound(s) && session_open(s) == open,
        ConvergenceModel::Ended(_) => !open,
    }
}

/// Whether the request is one whose refusal leaves a transaction open: a read or write
/// of the lease behind the start of its transaction, and the end of the transactions
/// that write the state and clear the marks.
pub open spec fn unguarded(s: SessionModel) -> bool {
    match s.phase {
        PhaseModel::Entry(g) => entry_open(g) && !(g.stage is Held),
        PhaseModel::Work(w) => w.activity matches ActivityModel::Asking { stage, .. } && stage
            is Commit,
        PhaseModel::Closing(c) => c.stage is Clearing && c.script.replies.len() == 3,
    }
}

/// A convergence starts outside of transactions.
pub proof fn lemma_session_starts_outside(schema_sql: Text, options: OptionsModel, process_id: u32)
    ensures
        session_leaves(session_start(schema_sql, options, process_id), false),
{
}

proof fn lemma_closing_starts_outside(setup: SetupModel, lease: Text, p: ProgressModel, open: bool)
    requires
        work_leaves(p, open),
    ensures
        session_leaves(from_progress(setup, lease, p), open),
{
}

/// A session knows at each request whether a transaction of the database is open, and
/// when it ends, with a report or with an error, none is; but where the database
/// refuses one of the unguarded requests.
pub proof fn lemma_session_tracks(
    s: SessionModel,
    reply: ReplyModel,
    now: u64,
    elapsed: Duration,
)
    requires
        session_sound(s),
        plain_migrations(s.setup),
        s.phase matches PhaseModel::Work(w) ==> plain_plan(w),
        suits(s.script().request(), reply),
        !(reply is Failed && unguarded(s)),
    ensures
        session_leaves(
            session_advanced(s, reply, now, elapsed),
            open_behind(session_open(s), s.script().request(), reply),
        ),
{
    let open = open_behind(session_open(s), s.script().request(), reply);
    match s.phase {
        PhaseModel::Entry(g) => {
            lemma_entry_tracks(s.setup, g, reply, now);
            if let PassModel::Admitted { lease, recovering } = entry_advanced(
                s.setup,
                g,
                reply,
                now,
            ) {
                let c = ClaimModel { lease, recovering };
                assert(work_leaves(work_start(s.setup, c), false));
                lemma_closing_starts_outside(s.setup, lease, work_start(s.setup, c), false);
            }
        },
        PhaseModel::Work(w) => {
            lemma_work_tracks(s.setup, w, reply, now, elapsed);
            lemma_closing_starts_outside(
                s.setup,
                w.claim.lease,
                work_advanced(s.setup, w, reply, now, elapsed),
                open,
            );
        },
        PhaseModel::Closing(c) => {
            lemma_closing_tracks(c, reply);
        },
    }
}

} // verus!
