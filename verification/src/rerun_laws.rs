//! A convergence that succeeded leaves nothing to do for the next one, whatever the
//! database answered on the way.

use vstd::prelude::*;

#[allow(unused_imports)]
use crate::closing::{closing_advanced, freeing_script, ClosingModel, ClosingStageModel, EndModel};
#[allow(unused_imports)]
use crate::converge::{
    session_advanced, session_start, setup_of, ConvergenceModel, PhaseModel, SessionModel,
};
#[allow(unused_imports)]
use crate::diff::difference;
#[allow(unused_imports)]
use crate::entry::{
    entry_advanced, entry_pending, getting, migration_key, said, setting, EntryModel,
    EntryStageModel, PassModel, SetupModel,
};
#[allow(unused_imports)]
use crate::format::signed_decimal;
#[allow(unused_imports)]
use crate::options::{ConvergeMode, Duration, OptionsModel, ReportModel};
#[allow(unused_imports)]
use crate::schema::{Capabilities, SnapshotModel};
#[allow(unused_imports)]
use crate::script::{
    begin_action, begin_op, commit_action, commit_op, fed, fresh, op, rollback_action, suits,
    undo_ops, ActionModel, FedModel, OpModel, ReplyModel, RuleModel, ScriptModel,
};
#[allow(unused_imports)]
use crate::settled_laws::{
    all_applied, effect, lemma_keys_differ, lemma_settled_is_skipped, said_of, session_run, settled,
    StateModel,
};
#[allow(unused_imports)]
use crate::text::{trim, Text};
#[allow(unused_imports)]
use crate::work::{
    counts_of, probed, state_script, version_script, version_statement, with_one_applied,
    work_advanced, work_completed, work_data, work_hook, work_loaded, work_planned, work_preflight,
    work_probe, work_run, work_state, ActivityModel, ClaimModel, JobModel, ProgressModel,
    TallyModel, WorkModel, WorkStageModel,
};

verus! {

// ---------------------------------------------------------------------------
// A database and its answers
// ---------------------------------------------------------------------------

/// A database: its state and, inside a transaction, the state table as it was before.
pub struct WorldModel {
    pub state: StateModel,
    pub begun: Option<Map<Text, Text>>,
}

/// Whether the key is one by which a convergence knows that there is nothing to do.
pub open spec fn is_mark(key: Text) -> bool {
    ||| key == "schema_hash"@
    ||| key == "migration_in_progress"@
    ||| key == "sqlite_schema_version"@
    ||| "data_migration:"@.is_prefix_of(key)
}

/// Whether two state tables have the same marks.
pub open spec fn same_marks(a: Map<Text, Text>, b: Map<Text, Text>) -> bool {
    forall|k: Text| #[trigger]
        is_mark(k) ==> a.contains_key(k) == b.contains_key(k) && (a.contains_key(k) ==> a[k]
            == b[k])
}

/// Whether an answer tells the truth, and the database is what the request makes of it.
/// A request may be refused, but for the schema counter, which can be read. Statements
/// other than those of transactions leave the marks alone; of a statement that is refused
/// nothing is said.
pub open spec fn faithful(
    w: WorldModel,
    a: ActionModel,
    reply: ReplyModel,
    after: WorldModel,
) -> bool {
    &&& suits(a, reply)
    &&& match a {
        ActionModel::GetMeta(k) => after == w && (reply is Failed || reply == ReplyModel::Text(
            said_of(w.state, k),
        )),
        ActionModel::SetMeta { .. } | ActionModel::DeleteMeta(_) => if reply is Failed {
            after == w
        } else {
            after == (WorldModel { state: effect(w.state, a), ..w })
        },
        ActionModel::SchemaCounter => after == w && reply == ReplyModel::Number(
            Some(w.state.counter),
        ),
        ActionModel::Execute(_) => reply is Failed || if a == begin_action() {
            w.begun is None && after.state == w.state && after.begun == Some(w.state.meta)
        } else if a == commit_action() {
            after.state == w.state && after.begun is None
        } else if a == rollback_action() {
            after.begun is None && after.state.meta == match w.begun {
                Some(m) => m,
                None => w.state.meta,
            }
        } else {
            same_marks(w.state.meta, after.state.meta) && after.begun == w.begun
        },
        ActionModel::Batch(_) => reply is Failed || same_marks(w.state.meta, after.state.meta)
            && after.begun == w.begun,
        ActionModel::RefreshLease(_) | ActionModel::Probe => same_marks(
            w.state.meta,
            after.state.meta,
        ) && after.begun == w.begun,
        _ => after == w,
    }
}

/// A step of a convergence: an answer, the database after it, and the time.
pub struct StepModel {
    pub reply: ReplyModel,
    pub after: WorldModel,
    pub now: u64,
    pub elapsed: Duration,
}

/// The convergence after the steps.
pub open spec fn session_after(c: ConvergenceModel, steps: Seq<StepModel>) -> ConvergenceModel
    decreases steps.len(),
{
    if steps.len() == 0 {
        c
    } else {
        let last = steps.last();
        match session_after(c, steps.drop_last()) {
            ConvergenceModel::Ask(s) => session_advanced(s, last.reply, last.now, last.elapsed),
            ended => ended,
        }
    }
}

/// The database after the steps.
pub open spec fn world_after(w: WorldModel, steps: Seq<StepModel>) -> WorldModel {
    if steps.len() == 0 {
        w
    } else {
        steps.last().after
    }
}

/// Whether every step answers the request that waits, and answers it faithfully.
pub open spec fn faithful_run(c: ConvergenceModel, w: WorldModel, steps: Seq<StepModel>) -> bool
    decreases steps.len(),
{
    steps.len() == 0 || {
        let before = steps.drop_last();
        let last = steps.last();
        &&& faithful_run(c, w, before)
        &&& session_after(c, before) matches ConvergenceModel::Ask(s) && faithful(
            world_after(w, before),
            s.script().request(),
            last.reply,
            last.after,
        )
    }
}

// ---------------------------------------------------------------------------
// What is known on the way
// ---------------------------------------------------------------------------

/// Whether the first `n` data migrations have been applied.
spec fn applied_to(setup: SetupModel, meta: Map<Text, Text>, n: nat) -> bool {
    forall|i: int|
        0 <= i < n && i < setup.options.data_migrations.len() ==> trim(
            (#[trigger] setup.options.data_migrations[i]).id,
        ).len() > 0 && meta.contains_key(migration_key(setup.options.data_migrations[i].id))
}

/// Whether the fingerprint is that of the schema, and no migration is under way.
spec fn unmarked(setup: SetupModel, db: StateModel) -> bool {
    &&& said_of(db, "schema_hash"@) == Some(setup.schema_hash)
    &&& said_of(db, "migration_in_progress"@) != Some("1"@)
}

/// Whether only the schema counter is open.
spec fn ready(setup: SetupModel, db: StateModel) -> bool {
    unmarked(setup, db) && all_applied(setup, db)
}

spec fn marker_ops() -> Seq<OpModel> {
    seq![
        getting("schema_hash"@, RuleModel::Stop),
        getting("migration_in_progress"@, RuleModel::Stop),
    ]
}

spec fn entry_knows(setup: SetupModel, g: EntryModel, w: WorldModel) -> bool {
    let migrations = setup.options.data_migrations;
    let script = g.script;
    match g.stage {
        EntryStageModel::Markers => script.ops == marker_ops() && script.replies.len() <= 1 && (
        script.replies.len() == 1 ==> script.replies[0] == ReplyModel::Text(
            said_of(w.state, "schema_hash"@),
        )),
        EntryStageModel::Pending { index, unchanged, recovering } => {
            &&& index < migrations.len()
            &&& script == fresh(seq![getting(migration_key(migrations[index as int].id), RuleModel::Stop)])
            &&& trim(migrations[index as int].id).len() > 0
            &&& applied_to(setup, w.state.meta, index)
            &&& unchanged ==> unmarked(setup, w.state)
        },
        EntryStageModel::Counter => script == fresh(
            seq![op(ActionModel::SchemaCounter, RuleModel::Ignore)],
        ) && ready(setup, w.state),
        EntryStageModel::Drift(n) => script == fresh(
            seq![getting("sqlite_schema_version"@, RuleModel::Stop)],
        ) && ready(setup, w.state) && n == w.state.counter,
        _ => true,
    }
}

/// Whether the statement is none of a transaction.
spec fn is_plain(o: OpModel) -> bool {
    &&& o.action is Execute
    &&& o.action != begin_action()
    &&& o.action != commit_action()
    &&& o.action != rollback_action()
    &&& o.rule == RuleModel::Undo
}

spec fn stage_knows(
    setup: SetupModel,
    stage: WorkStageModel,
    script: ScriptModel,
    w: WorldModel,
) -> bool {
    let migrations = setup.options.data_migrations;
    let done = script.replies.len();
    let meta = w.state.meta;
    match stage {
        WorkStageModel::DryRun(_) => false,
        WorkStageModel::Asking { tally, index } => {
            &&& index < migrations.len()
            &&& script == fresh(seq![getting(migration_key(migrations[index as int].id), RuleModel::Stop)])
            &&& trim(migrations[index as int].id).len() > 0
            &&& applied_to(setup, meta, index)
        },
        WorkStageModel::Migrating { tally, index, key } => {
            &&& index < migrations.len()
            &&& key == migration_key(migrations[index as int].id)
            &&& trim(migrations[index as int].id).len() > 0
            &&& script.ops == seq![begin_op()] + undo_ops(
                migrations[index as int].statements,
                "data_migration"@,
            )
            &&& done < script.ops.len()
            &&& applied_to(setup, meta, index)
            &&& done > 0 ==> (w.begun matches Some(m) ==> applied_to(setup, m, index))
        },
        WorkStageModel::Marking { tally, index } => {
            &&& index < migrations.len()
            &&& trim(migrations[index as int].id).len() > 0
            &&& script.ops.len() == 2
            &&& script.ops[0].action is SetMeta
            &&& script.ops[0].action->key == migration_key(migrations[index as int].id)
            &&& script.ops[0].rule == RuleModel::Undo
            &&& script.ops[1] == commit_op()
            &&& done < 2
            &&& applied_to(setup, meta, if done > 0 { index + 1 } else { index })
        },
        WorkStageModel::State(tally) => {
            &&& script.ops == state_script(setup.schema_hash, tally.had_ddl)
            &&& done < script.ops.len()
            &&& all_applied(setup, w.state)
            &&& done >= 2 ==> said_of(w.state, "schema_hash"@) == Some(setup.schema_hash)
            &&& done >= 3 ==> unmarked(setup, w.state)
        },
        WorkStageModel::Version(tally) => {
            &&& script.ops.len() == 2
            &&& is_plain(script.ops[0])
            &&& is_plain(script.ops[1])
            &&& done < 2
            &&& ready(setup, w.state)
        },
        WorkStageModel::Counter(tally) => script == fresh(
            seq![op(ActionModel::SchemaCounter, RuleModel::Ignore)],
        ) && ready(setup, w.state),
        WorkStageModel::Store(tally) => script == fresh(
            seq![
                setting(
                    "sqlite_schema_version"@,
                    signed_decimal(w.state.counter as int),
                    RuleModel::Undo,
                ),
            ],
        ) && ready(setup, w.state),
        WorkStageModel::Commit(tally) => script == fresh(
            seq![op(commit_action(), RuleModel::Stop)],
        ) && settled(setup, w.state),
        _ => true,
    }
}

spec fn work_knows(setup: SetupModel, p: ProgressModel, w: WorldModel) -> bool {
    match p {
        ProgressModel::Ask(m) => match m.activity {
            ActivityModel::Running { .. } => true,
            ActivityModel::Asking { stage, script } => stage_knows(setup, stage, script, w),
        },
        ProgressModel::Done(_) => settled(setup, w.state),
        ProgressModel::Failed(_) => true,
    }
}

spec fn closing_knows(setup: SetupModel, end: EndModel, w: WorldModel) -> bool {
    match end {
        EndModel::Ask(c) => match c.stage {
            ClosingStageModel::Holder(Ok(_)) => c.script == fresh(
                seq![getting("migration_owner"@, RuleModel::Ignore)],
            ) && settled(setup, w.state),
            ClosingStageModel::Freeing(Ok(_)) => c.script.ops == freeing_script()
                && c.script.replies.len() < 2 && settled(setup, w.state),
            _ => true,
        },
        EndModel::Ended(Ok(_)) => settled(setup, w.state),
        EndModel::Ended(Err(_)) => true,
    }
}

spec fn pass_knows(setup: SetupModel, p: PassModel, w: WorldModel) -> bool {
    match p {
        PassModel::Ask(g) => entry_knows(setup, g, w),
        PassModel::Unchanged => settled(setup, w.state),
        _ => true,
    }
}

spec fn knows(setup: SetupModel, c: ConvergenceModel, w: WorldModel) -> bool {
    match c {
        ConvergenceModel::Ask(s) => s.setup == setup && match s.phase {
            PhaseModel::Entry(g) => entry_knows(setup, g, w),
            PhaseModel::Work(m) => work_knows(setup, ProgressModel::Ask(m), w),
            PhaseModel::Closing(c) => closing_knows(setup, EndModel::Ask(c), w),
        },
        ConvergenceModel::Ended(Ok(_)) => settled(setup, w.state),
        ConvergenceModel::Ended(Err(_)) => true,
    }
}

// ---------------------------------------------------------------------------
// Marks
// ---------------------------------------------------------------------------

proof fn lemma_key_is_mark(id: Text)
    ensures
        is_mark(migration_key(id)),
        migration_key(id).len() > 0,
        migration_key(id)[0] == 'd',
{
    reveal_strlit("data_migration:");
    let key = migration_key(id);
    assert("data_migration:"@ =~= key.subrange(0, 15));
}

proof fn lemma_applied_kept(setup: SetupModel, a: Map<Text, Text>, b: Map<Text, Text>, n: nat)
    requires
        applied_to(setup, a, n),
        same_marks(a, b),
    ensures
        applied_to(setup, b, n),
{
    assert forall|i: int|
        0 <= i < n && i < setup.options.data_migrations.len() implies trim(
        (#[trigger] setup.options.data_migrations[i]).id,
    ).len() > 0 && b.contains_key(migration_key(setup.options.data_migrations[i].id)) by {
        lemma_key_is_mark(setup.options.data_migrations[i].id);
    }
}

/// Deleting a key that starts otherwise deletes no data migration.
proof fn lemma_applied_removed(setup: SetupModel, a: Map<Text, Text>, key: Text, n: nat)
    requires
        applied_to(setup, a, n),
        key[0] != 'd',
    ensures
        applied_to(setup, a.remove(key), n),
{
    assert forall|i: int|
        0 <= i < n && i < setup.options.data_migrations.len() implies trim(
        (#[trigger] setup.options.data_migrations[i]).id,
    ).len() > 0 && a.remove(key).contains_key(
        migration_key(setup.options.data_migrations[i].id),
    ) by {
        lemma_key_is_mark(setup.options.data_migrations[i].id);
    }
}

proof fn lemma_ready_kept(setup: SetupModel, a: StateModel, b: StateModel)
    requires
        same_marks(a.meta, b.meta),
    ensures
        said_of(a, "schema_hash"@) == said_of(b, "schema_hash"@),
        said_of(a, "migration_in_progress"@) == said_of(b, "migration_in_progress"@),
        all_applied(setup, a) ==> all_applied(setup, b),
        ready(setup, a) ==> ready(setup, b),
{
    assert(is_mark("schema_hash"@));
    assert(is_mark("migration_in_progress"@));
    if all_applied(setup, a) {
        lemma_applied_kept(setup, a.meta, b.meta, setup.options.data_migrations.len());
    }
}

// ---------------------------------------------------------------------------
// The entry
// ---------------------------------------------------------------------------

proof fn lemma_pending_knows(
    setup: SetupModel,
    index: nat,
    unchanged: bool,
    recovering: bool,
    now: u64,
    w: WorldModel,
)
    requires
        applied_to(setup, w.state.meta, index),
        unchanged ==> unmarked(setup, w.state),
    ensures
        pass_knows(setup, entry_pending(setup, index, unchanged, recovering, now), w),
{
}

proof fn lemma_entry_knows(
    setup: SetupModel,
    g: EntryModel,
    w: WorldModel,
    reply: ReplyModel,
    after: WorldModel,
    now: u64,
)
    requires
        entry_knows(setup, g, w),
        faithful(w, g.script.request(), reply, after),
    ensures
        pass_knows(setup, entry_advanced(setup, g, reply, now), after),
{
    let script = g.script;
    match g.stage {
        EntryStageModel::Markers => {
            if script.replies.len() == 1 {
                let said_hash = script.replies[0];
                assert(script.replies.push(reply) =~= seq![said_hash, reply]);
                if !(reply is Failed) {
                    let recovering = said(reply) == Some("1"@);
                    let unchanged = said(said_hash) == Some(setup.schema_hash) && !recovering;
                    lemma_pending_knows(setup, 0, unchanged, recovering, now, after);
                }
            }
        },
        EntryStageModel::Pending { index, unchanged, recovering } => {
            assert(script.replies.push(reply) =~= seq![reply]);
            if !(reply is Failed) && said(reply) is Some {
                assert(applied_to(setup, after.state.meta, index + 1));
                lemma_pending_knows(setup, index + 1, unchanged, recovering, now, after);
            }
        },
        EntryStageModel::Counter => {
            assert(script.replies.push(reply) =~= seq![reply]);
        },
        EntryStageModel::Drift(n) => {
            assert(script.replies.push(reply) =~= seq![reply]);
        },
        _ => {
            lemma_other_entry(setup, g, w, reply, after, now);
        },
    }
}

proof fn lemma_other_entry(
    setup: SetupModel,
    g: EntryModel,
    w: WorldModel,
    reply: ReplyModel,
    after: WorldModel,
    now: u64,
)
    requires
        !(g.stage is Markers) && !(g.stage is Pending) && !(g.stage is Counter) && !(g.stage
            is Drift),
    ensures
        pass_knows(setup, entry_advanced(setup, g, reply, now), after),
{
    if let FedModel::Complete(replies) = fed(g.script, reply) {
        if g.stage is Bootstrap && !(replies[0] is Failed) {
            assert(marker_ops() =~= seq![
                getting("schema_hash"@, RuleModel::Stop),
                getting("migration_in_progress"@, RuleModel::Stop),
            ]);
        }
    }
}

// ---------------------------------------------------------------------------
// The migration
// ---------------------------------------------------------------------------

proof fn lemma_data_knows(
    setup: SetupModel,
    c: ClaimModel,
    tally: TallyModel,
    index: nat,
    w: WorldModel,
)
    requires
        applied_to(setup, w.state.meta, index),
    ensures
        work_knows(setup, work_data(setup, c, tally, index), w),
{
    reveal(work_data);
    reveal(work_state);
}

proof fn lemma_planned_knows(
    setup: SetupModel,
    c: ClaimModel,
    job: JobModel,
    caps: Capabilities,
    w: WorldModel,
)
    requires
        !setup.options.dry_run,
    ensures
        work_knows(setup, work_planned(setup, c, job, caps), w),
{
    reveal(work_planned);
}

proof fn lemma_probe_knows(setup: SetupModel, c: ClaimModel, job: JobModel, w: WorldModel)
    requires
        !setup.options.dry_run,
    ensures
        work_knows(setup, work_probe(setup, c, job), w),
        work_knows(setup, work_hook(setup, c, job), w),
{
    reveal(work_probe);
    reveal(work_hook);
    if let Some(caps) = job.caps {
        lemma_planned_knows(setup, c, job, caps, w);
    }
}

proof fn lemma_loaded_knows(
    setup: SetupModel,
    c: ClaimModel,
    desired: SnapshotModel,
    actual: SnapshotModel,
    caps: Option<Capabilities>,
    w: WorldModel,
)
    requires
        !setup.options.dry_run,
    ensures
        work_knows(setup, work_loaded(setup, c, desired, actual, caps), w),
{
    reveal(work_loaded);
    let diff = difference(desired, actual, setup.options.rename_hints);
    let tally = TallyModel {
        report: counts_of(diff, ConvergeMode::NoOp, Seq::empty()),
        had_ddl: false,
    };
    lemma_data_knows(setup, c, tally, 0, w);
    lemma_probe_knows(setup, c, JobModel { desired, actual, diff, caps }, w);
}

/// A stage of which nothing is known leads to one of which enough is known.
proof fn lemma_early_knows(
    setup: SetupModel,
    c: ClaimModel,
    stage: WorkStageModel,
    replies: Seq<ReplyModel>,
    now: u64,
    elapsed: Duration,
    w: WorldModel,
)
    requires
        !setup.options.dry_run,
        stage is Introspect || stage is Preflight || stage is Load || stage is Backup || stage
            is Hook || stage is Probe || stage is Record || stage is Complete || stage is Undoing,
    ensures
        work_knows(setup, work_completed(setup, c, stage, replies, now, elapsed), w),
{
    match stage {
        WorkStageModel::Preflight | WorkStageModel::Introspect => {
            reveal(work_preflight);
        },
        WorkStageModel::Load(caps) => {
            if let (ReplyModel::Schema(desired), ReplyModel::Schema(actual)) = (
                replies[0],
                replies[1],
            ) {
                lemma_loaded_knows(setup, c, desired, actual, caps, w);
            }
        },
        WorkStageModel::Backup(job) | WorkStageModel::Hook(job) => {
            lemma_probe_knows(setup, c, job, w);
        },
        WorkStageModel::Probe(job) => {
            lemma_planned_knows(setup, c, job, probed(replies[0]), w);
        },
        WorkStageModel::Complete(tally) => {
            lemma_data_knows(setup, c, tally, 0, w);
        },
        WorkStageModel::Record { .. } => {
            reveal(work_run);
        },
        _ => {},
    }
}

proof fn lemma_broken_knows(setup: SetupModel, m: WorkModel, reply: ReplyModel, w: WorldModel)
    requires
        m.activity matches ActivityModel::Asking { stage, script } && fed(script, reply) is Broken,
    ensures
        forall|now: u64, elapsed: Duration|
            work_knows(setup, #[trigger] work_advanced(setup, m, reply, now, elapsed), w),
{
}

proof fn lemma_asking_knows(
    setup: SetupModel,
    m: WorkModel,
    w: WorldModel,
    reply: ReplyModel,
    after: WorldModel,
    now: u64,
    elapsed: Duration,
)
    requires
        m.activity matches ActivityModel::Asking { stage, script } && stage is Asking
            && stage_knows(setup, stage, script, w),
        faithful(w, m.script().request(), reply, after),
    ensures
        work_knows(setup, work_advanced(setup, m, reply, now, elapsed), after),
{
    if let ActivityModel::Asking { stage, script } = m.activity {
        if let WorkStageModel::Asking { tally, index } = stage {
            assert(script.replies.push(reply) =~= seq![reply]);
            if !(reply is Failed) && said(reply) is Some {
                assert(applied_to(setup, after.state.meta, index + 1));
                lemma_data_knows(setup, m.claim, tally, index + 1, after);
            }
        }
    }
}

proof fn lemma_migrating_knows(
    setup: SetupModel,
    m: WorkModel,
    w: WorldModel,
    reply: ReplyModel,
    after: WorldModel,
    now: u64,
    elapsed: Duration,
)
    requires
        m.activity matches ActivityModel::Asking { stage, script } && stage is Migrating
            && stage_knows(setup, stage, script, w),
        faithful(w, m.script().request(), reply, after),
    ensures
        work_knows(setup, work_advanced(setup, m, reply, now, elapsed), after),
{
    if let ActivityModel::Asking { stage, script } = m.activity {
        if let WorkStageModel::Migrating { tally, index, key } = stage {
            let done = script.replies.len() as int;
            if reply is Failed {
                if done > 0 {
                    assert(script.ops[done].rule is UndoAt);
                }
                lemma_broken_knows(setup, m, reply, after);
            } else {
                if done == 0 {
                    assert(script.ops[0] == begin_op());
                } else if same_marks(w.state.meta, after.state.meta) {
                    lemma_applied_kept(setup, w.state.meta, after.state.meta, index);
                }
                assert(applied_to(setup, after.state.meta, index));
            }
        }
    }
}

proof fn lemma_marking_knows(
    setup: SetupModel,
    m: WorkModel,
    w: WorldModel,
    reply: ReplyModel,
    after: WorldModel,
    now: u64,
    elapsed: Duration,
)
    requires
        m.activity matches ActivityModel::Asking { stage, script } && stage is Marking
            && stage_knows(setup, stage, script, w),
        faithful(w, m.script().request(), reply, after),
    ensures
        work_knows(setup, work_advanced(setup, m, reply, now, elapsed), after),
{
    if let ActivityModel::Asking { stage, script } = m.activity {
        if let WorkStageModel::Marking { tally, index } = stage {
            if reply is Failed {
                lemma_broken_knows(setup, m, reply, after);
            } else if script.replies.len() == 0 {
                assert(applied_to(setup, after.state.meta, index + 1));
            } else {
                lemma_texts_differ();
                lemma_data_knows(setup, m.claim, with_one_applied(tally), index + 1, after);
            }
        }
    }
}

proof fn lemma_texts_differ()
    ensures
        begin_action() != commit_action(),
        begin_action() != rollback_action(),
        commit_action() != rollback_action(),
{
    reveal_strlit("BEGIN IMMEDIATE");
    reveal_strlit("COMMIT");
    reveal_strlit("ROLLBACK");
    assert("BEGIN IMMEDIATE"@.len() == 15);
    assert("COMMIT"@.len() == 6);
    assert("ROLLBACK"@.len() == 8);
}

proof fn lemma_statements_are_plain(version: u32, now: u64)
    ensures
        is_plain(
            op(
                ActionModel::Execute(
                    "CREATE TABLE IF NOT EXISTS schema_version (version INTEGER NOT NULL, updated_at TEXT NOT NULL)"@,
                ),
                RuleModel::Undo,
            ),
        ),
        is_plain(version_script(version, now)[0]),
        is_plain(version_script(version, now)[1]),
{
    reveal_strlit("BEGIN IMMEDIATE");
    reveal_strlit("COMMIT");
    reveal_strlit("ROLLBACK");
    reveal_strlit(
        "CREATE TABLE IF NOT EXISTS schema_version (version INTEGER NOT NULL, updated_at TEXT NOT NULL)",
    );
    reveal_strlit("DELETE FROM schema_version");
    reveal_strlit("INSERT INTO schema_version (version, updated_at) VALUES (");
    assert("BEGIN IMMEDIATE"@[0] == 'B');
    assert("COMMIT"@[1] == 'O');
    assert("ROLLBACK"@[0] == 'R');
    let a =
        "CREATE TABLE IF NOT EXISTS schema_version (version INTEGER NOT NULL, updated_at TEXT NOT NULL)"@;
    assert(a[0] == 'C' && a[1] == 'R');
    assert("DELETE FROM schema_version"@[0] == 'D');
    assert("COMMIT"@[0] == 'C');
    assert(version_statement(version, now)[0] == 'I');
}

proof fn lemma_state_knows(
    setup: SetupModel,
    m: WorkModel,
    w: WorldModel,
    reply: ReplyModel,
    after: WorldModel,
    now: u64,
    elapsed: Duration,
)
    requires
        m.activity matches ActivityModel::Asking { stage, script } && stage is State
            && stage_knows(setup, stage, script, w),
        faithful(w, m.script().request(), reply, after),
    ensures
        work_knows(setup, work_advanced(setup, m, reply, now, elapsed), after),
{
    if let ActivityModel::Asking { stage, script } = m.activity {
        if let WorkStageModel::State(tally) = stage {
            let done = script.replies.len() as int;
            let o = script.ops[done];
            assert(o.rule == RuleModel::Stop || o.rule == RuleModel::Undo);
            if reply is Failed {
                lemma_broken_knows(setup, m, reply, after);
            } else {
                lemma_state_step(setup, tally.had_ddl, done, w, reply, after);
                if done + 1 == script.ops.len() {
                    if let FedModel::Complete(replies) = fed(script, reply) {
                        if tally.had_ddl {
                            if let Ok(v) = crate::work::version_after(
                                crate::entry::counted(replies.last()),
                            ) {
                                lemma_statements_are_plain(v, now);
                            }
                        }
                    }
                }
            }
        }
    }
}

proof fn lemma_state_step(
    setup: SetupModel,
    had_ddl: bool,
    done: int,
    w: WorldModel,
    reply: ReplyModel,
    after: WorldModel,
)
    requires
        0 <= done < state_script(setup.schema_hash, had_ddl).len(),
        all_applied(setup, w.state),
        done >= 2 ==> said_of(w.state, "schema_hash"@) == Some(setup.schema_hash),
        done >= 3 ==> unmarked(setup, w.state),
        faithful(w, state_script(setup.schema_hash, had_ddl)[done].action, reply, after),
        !(reply is Failed),
    ensures
        all_applied(setup, after.state),
        done >= 1 ==> said_of(after.state, "schema_hash"@) == Some(setup.schema_hash),
        done >= 2 ==> unmarked(setup, after.state),
{
    let n = setup.options.data_migrations.len();
    lemma_keys_differ();
    lemma_statements_are_plain(0, 0);
    assert(applied_to(setup, w.state.meta, n));
    if done == 2 {
        lemma_applied_removed(setup, w.state.meta, "migration_in_progress"@, n);
    } else if done == 3 {
        lemma_applied_removed(setup, w.state.meta, "migration_phase"@, n);
        reveal_strlit("migration_phase");
        reveal_strlit("migration_in_progress");
        assert("migration_phase"@.len() == 15);
        assert("migration_in_progress"@.len() == 21);
    } else if done == 4 {
        lemma_ready_kept(setup, w.state, after.state);
    }
    assert(applied_to(setup, after.state.meta, n));
}

proof fn lemma_late_knows(
    setup: SetupModel,
    m: WorkModel,
    w: WorldModel,
    reply: ReplyModel,
    after: WorldModel,
    now: u64,
    elapsed: Duration,
)
    requires
        m.activity matches ActivityModel::Asking { stage, script } && (stage is Version || stage
            is Counter || stage is Store || stage is Commit) && stage_knows(
            setup,
            stage,
            script,
            w,
        ),
        faithful(w, m.script().request(), reply, after),
    ensures
        work_knows(setup, work_advanced(setup, m, reply, now, elapsed), after),
{
    if let ActivityModel::Asking { stage, script } = m.activity {
        if reply is Failed {
            lemma_broken_knows(setup, m, reply, after);
        } else {
            match stage {
                WorkStageModel::Version(tally) => {
                    lemma_ready_kept(setup, w.state, after.state);
                },
                WorkStageModel::Counter(tally) => {
                    assert(script.replies.push(reply) =~= seq![reply]);
                },
                WorkStageModel::Store(tally) => {
                    lemma_keys_differ();
                    assert(settled(setup, after.state));
                },
                _ => {
                    lemma_texts_differ();
                },
            }
        }
    }
}

proof fn lemma_work_knows(
    setup: SetupModel,
    m: WorkModel,
    w: WorldModel,
    reply: ReplyModel,
    after: WorldModel,
    now: u64,
    elapsed: Duration,
)
    requires
        !setup.options.dry_run,
        work_knows(setup, ProgressModel::Ask(m), w),
        faithful(w, m.script().request(), reply, after),
    ensures
        work_knows(setup, work_advanced(setup, m, reply, now, elapsed), after),
{
    match m.activity {
        ActivityModel::Running { .. } => {
            reveal(work_run);
        },
        ActivityModel::Asking { stage, script } => match stage {
            WorkStageModel::Asking { .. } => {
                lemma_asking_knows(setup, m, w, reply, after, now, elapsed);
            },
            WorkStageModel::Migrating { .. } => {
                lemma_migrating_knows(setup, m, w, reply, after, now, elapsed);
            },
            WorkStageModel::Marking { .. } => {
                lemma_marking_knows(setup, m, w, reply, after, now, elapsed);
            },
            WorkStageModel::State(_) => {
                lemma_state_knows(setup, m, w, reply, after, now, elapsed);
            },
            WorkStageModel::Version(_) | WorkStageModel::Counter(_) | WorkStageModel::Store(_)
            | WorkStageModel::Commit(_) => {
                lemma_late_knows(setup, m, w, reply, after, now, elapsed);
            },
            WorkStageModel::DryRun(_) => {},
            _ => {
                match fed(script, reply) {
                    FedModel::Broken(b) => {
                        lemma_broken_knows(setup, m, reply, after);
                    },
                    FedModel::Complete(replies) => {
                        lemma_early_knows(setup, m.claim, stage, replies, now, elapsed, after);
                    },
                    FedModel::More(_) => {},
                }
            },
        },
    }
}

// ---------------------------------------------------------------------------
// The closing
// ---------------------------------------------------------------------------

proof fn lemma_closing_knows(
    setup: SetupModel,
    c: ClosingModel,
    w: WorldModel,
    reply: ReplyModel,
    after: WorldModel,
)
    requires
        closing_knows(setup, EndModel::Ask(c), w),
        faithful(w, c.script.request(), reply, after),
    ensures
        closing_knows(setup, closing_advanced(c, reply), after),
{
    match c.stage {
        ClosingStageModel::Holder(Ok(_)) => {
            assert(c.script.replies.push(reply) =~= seq![reply]);
        },
        ClosingStageModel::Freeing(Ok(_)) => {
            let n = setup.options.data_migrations.len();
            lemma_keys_differ();
            reveal_strlit("migration_lease_until");
            reveal_strlit("migration_in_progress");
            assert("migration_lease_until"@[10] == 'l');
            assert("migration_in_progress"@[10] == 'i');
            assert(applied_to(setup, w.state.meta, n));
            lemma_applied_removed(setup, w.state.meta, "migration_owner"@, n);
            lemma_applied_removed(setup, w.state.meta, "migration_lease_until"@, n);
            assert(applied_to(setup, after.state.meta, n));
            assert(settled(setup, after.state));
        },
        _ => {},
    }
}

// ---------------------------------------------------------------------------
// The whole convergence
// ---------------------------------------------------------------------------

proof fn lemma_step_knows(
    setup: SetupModel,
    s: SessionModel,
    w: WorldModel,
    reply: ReplyModel,
    after: WorldModel,
    now: u64,
    elapsed: Duration,
)
    requires
        !setup.options.dry_run,
        knows(setup, ConvergenceModel::Ask(s), w),
        faithful(w, s.script().request(), reply, after),
    ensures
        knows(setup, session_advanced(s, reply, now, elapsed), after),
{
    match s.phase {
        PhaseModel::Entry(g) => {
            lemma_entry_knows(setup, g, w, reply, after, now);
        },
        PhaseModel::Work(m) => {
            lemma_work_knows(setup, m, w, reply, after, now, elapsed);
        },
        PhaseModel::Closing(c) => {
            lemma_closing_knows(setup, c, w, reply, after);
        },
    }
}

proof fn lemma_run_knows(
    setup: SetupModel,
    c: ConvergenceModel,
    w: WorldModel,
    steps: Seq<StepModel>,
)
    requires
        !setup.options.dry_run,
        knows(setup, c, w),
        faithful_run(c, w, steps),
    ensures
        knows(setup, session_after(c, steps), world_after(w, steps)),
    decreases steps.len(),
{
    if steps.len() > 0 {
        let before = steps.drop_last();
        let last = steps.last();
        lemma_run_knows(setup, c, w, before);
        if let ConvergenceModel::Ask(s) = session_after(c, before) {
            lemma_step_knows(
                setup,
                s,
                world_after(w, before),
                last.reply,
                last.after,
                last.now,
                last.elapsed,
            );
        }
    }
}

/// A convergence that is not dry and succeeds leaves a settled state, whatever state it
/// found and whatever was refused on the way: the fingerprint of its schema, no mark of
/// a migration under way, the schema counter, and the mark of every data migration.
pub proof fn lemma_success_settles(
    schema_sql: Text,
    options: OptionsModel,
    process_id: u32,
    w: WorldModel,
    steps: Seq<StepModel>,
)
    requires
        !options.dry_run,
        faithful_run(session_start(schema_sql, options, process_id), w, steps),
        session_after(session_start(schema_sql, options, process_id), steps) matches
            ConvergenceModel::Ended(Ok(_)),
    ensures
        trim(schema_sql).len() > 0,
        settled(setup_of(schema_sql, options, process_id), world_after(w, steps).state),
{
    let setup = setup_of(schema_sql, options, process_id);
    let c = session_start(schema_sql, options, process_id);
    if trim(schema_sql).len() == 0 {
        lemma_ended_stays(c, steps);
    } else {
        lemma_run_knows(setup, c, w, steps);
    }
}

proof fn lemma_ended_stays(c: ConvergenceModel, steps: Seq<StepModel>)
    requires
        c is Ended,
    ensures
        session_after(c, steps) == c,
    decreases steps.len(),
{
    if steps.len() > 0 {
        lemma_ended_stays(c, steps.drop_last());
    }
}

/// Converging twice is converging once: where a convergence that is not dry has
/// succeeded, a second one to the same schema with the same options, on the database
/// that the first one left behind, takes the fast path. It reports no change and no
/// plan, and leaves the database, its version included, as it is.
pub proof fn lemma_second_convergence_is_skipped(
    schema_sql: Text,
    options: OptionsModel,
    process_id: u32,
    w: WorldModel,
    steps: Seq<StepModel>,
    second_process_id: u32,
    now: u64,
    elapsed: Duration,
)
    requires
        !options.dry_run,
        faithful_run(session_start(schema_sql, options, process_id), w, steps),
        session_after(session_start(schema_sql, options, process_id), steps) matches
            ConvergenceModel::Ended(Ok(_)),
    ensures
        ({
            let left = world_after(w, steps).state;
            let report = ReportModel::idle(elapsed);
            &&& session_run(
                session_start(schema_sql, options, second_process_id),
                left,
                now,
                elapsed,
                (options.data_migrations.len() + 6) as nat,
            ) == (ConvergenceModel::Ended(Ok(report)), left)
            &&& report.mode == ConvergeMode::FastPath
            &&& !report.had_changes()
            &&& report.plan_sql.len() == 0
        }),
{
    lemma_success_settles(schema_sql, options, process_id, w, steps);
    let left = world_after(w, steps).state;
    assert(settled(setup_of(schema_sql, options, second_process_id), left));
    lemma_settled_is_skipped(schema_sql, options, second_process_id, left, now, elapsed);
}

} // verus!
