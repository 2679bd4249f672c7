//! What the end of a migration leaves behind, and what the next convergence makes of it.

use vstd::prelude::*;

#[allow(unused_imports)]
use crate::closing::{closing_advanced, freeing_script, ClosingModel, ClosingStageModel, EndModel};
#[allow(unused_imports)]
use crate::converge::{
    from_pass, from_progress, session_advanced, session_start, setup_of, ConvergenceModel,
    PhaseModel, SessionModel,
};
#[allow(unused_imports)]
use crate::format::signed_decimal;
#[allow(unused_imports)]
use crate::entry::{
    entry_advanced, entry_completed, entry_pending, getting, migration_key, EntryModel,
    EntryStageModel, PassModel, SetupModel,
};
#[allow(unused_imports)]
use crate::options::{Duration, OptionsModel, ReportModel};
#[allow(unused_imports)]
use crate::script::{broken, fresh, op, ActionModel, OpModel, ReplyModel, RuleModel, ScriptModel};
#[allow(unused_imports)]
use crate::text::{trim, Text};
#[allow(unused_imports)]
use crate::work::{
    final_report, state_script, version_after, version_script, work_completed, work_counter,
    work_state, ActivityModel, ClaimModel, ProgressModel, TallyModel, WorkModel, WorkStageModel,
};

verus! {

// ---------------------------------------------------------------------------
// A database
// ---------------------------------------------------------------------------

/// What a database holds of the state: the state table, the schema counter, and the
/// version.
pub struct StateModel {
    pub meta: Map<Text, Text>,
    pub counter: i64,
    pub version: Option<i64>,
}

/// What the state table says under a key.
pub open spec fn said_of(db: StateModel, key: Text) -> Option<Text> {
    if db.meta.contains_key(key) {
        Some(db.meta[key])
    } else {
        None
    }
}

/// What a database that refuses nothing answers.
pub open spec fn answer(db: StateModel, a: ActionModel) -> ReplyModel {
    match a {
        ActionModel::GetMeta(k) => ReplyModel::Text(said_of(db, k)),
        ActionModel::QueryOnly => ReplyModel::Number(Some(0)),
        ActionModel::SchemaCounter => ReplyModel::Number(Some(db.counter)),
        ActionModel::StoredVersion => ReplyModel::Number(db.version),
        _ => ReplyModel::Done(1),
    }
}

/// What a request does to the state table.
pub open spec fn effect(db: StateModel, a: ActionModel) -> StateModel {
    match a {
        ActionModel::SetMeta { key, value } => StateModel {
            meta: db.meta.insert(key, value),
            ..db
        },
        ActionModel::DeleteMeta(key) => StateModel { meta: db.meta.remove(key), ..db },
        _ => db,
    }
}

/// Whether the state says that the schema is there, no migration is under way, and all
/// data migrations have been applied.
pub open spec fn settled(setup: SetupModel, db: StateModel) -> bool {
    &&& db.meta.contains_key("schema_hash"@)
    &&& db.meta["schema_hash"@] == setup.schema_hash
    &&& said_of(db, "migration_in_progress"@) != Some("1"@)
    &&& db.meta.contains_key("sqlite_schema_version"@)
    &&& db.meta["sqlite_schema_version"@] == signed_decimal(db.counter as int)
    &&& all_applied(setup, db)
}

/// Whether all data migrations have been applied.
pub open spec fn all_applied(setup: SetupModel, db: StateModel) -> bool {
    forall|i: int|
        0 <= i < setup.options.data_migrations.len() ==> trim(
            (#[trigger] setup.options.data_migrations[i]).id,
        ).len() > 0 && db.meta.contains_key(migration_key(setup.options.data_migrations[i].id))
}

// ---------------------------------------------------------------------------
// The entry finds nothing to do
// ---------------------------------------------------------------------------

/// A convergence after some requests to the database, and what they left there.
pub open spec fn session_run(
    c: ConvergenceModel,
    db: StateModel,
    now: u64,
    elapsed: Duration,
    requests: nat,
) -> (ConvergenceModel, StateModel)
    decreases requests,
{
    match c {
        ConvergenceModel::Ask(s) if requests > 0 => {
            let a = s.script().request();
            session_run(
                session_advanced(s, answer(db, a), now, elapsed),
                effect(db, a),
                now,
                elapsed,
                (requests - 1) as nat,
            )
        },
        _ => (c, db),
    }
}

/// A request of the entry that only reads.
proof fn lemma_entry_single(
    setup: SetupModel,
    stage: EntryStageModel,
    o: OpModel,
    db: StateModel,
    now: u64,
    elapsed: Duration,
    requests: nat,
)
    requires
        requests > 0,
        broken(o.rule, answer(db, o.action)) is None,
        effect(db, o.action) == db,
    ensures
        session_run(
            from_pass(setup, PassModel::Ask(EntryModel { stage, script: fresh(seq![o]) }), elapsed),
            db,
            now,
            elapsed,
            requests,
        ) == session_run(
            from_pass(
                setup,
                entry_completed(setup, stage, seq![answer(db, o.action)], now),
                elapsed,
            ),
            db,
            now,
            elapsed,
            (requests - 1) as nat,
        ),
{
    let r = answer(db, o.action);
    assert(Seq::<ReplyModel>::empty().push(r) =~= seq![r]);
}

proof fn lemma_pending_run(
    setup: SetupModel,
    index: nat,
    db: StateModel,
    now: u64,
    elapsed: Duration,
)
    requires
        settled(setup, db),
        index <= setup.options.data_migrations.len(),
    ensures
        session_run(
            from_pass(setup, entry_pending(setup, index, true, false, now), elapsed),
            db,
            now,
            elapsed,
            (setup.options.data_migrations.len() - index + 2) as nat,
        ) == (ConvergenceModel::Ended(Ok(ReportModel::idle(elapsed))), db),
    decreases setup.options.data_migrations.len() - index,
{
    let n = setup.options.data_migrations.len();
    let requests = (n - index + 2) as nat;
    if index < n {
        let m = setup.options.data_migrations[index as int];
        lemma_entry_single(
            setup,
            EntryStageModel::Pending { index, unchanged: true, recovering: false },
            getting(migration_key(m.id), RuleModel::Stop),
            db,
            now,
            elapsed,
            requests,
        );
        lemma_pending_run(setup, index + 1, db, now, elapsed);
    } else {
        lemma_entry_single(
            setup,
            EntryStageModel::Counter,
            op(ActionModel::SchemaCounter, RuleModel::Ignore),
            db,
            now,
            elapsed,
            2,
        );
        lemma_entry_single(
            setup,
            EntryStageModel::Drift(db.counter),
            getting("sqlite_schema_version"@, RuleModel::Stop),
            db,
            now,
            elapsed,
            1,
        );
    }
}

/// Where the state is settled, a convergence finds in so many requests that there is
/// nothing to do: whether it may write, the state table, two marks, each data
/// migration, and the two schema counters. It ends with the report of the fast path,
/// and changes nothing.
pub proof fn lemma_settled_is_skipped(
    schema_sql: Text,
    options: OptionsModel,
    process_id: u32,
    db: StateModel,
    now: u64,
    elapsed: Duration,
)
    requires
        trim(schema_sql).len() > 0,
        settled(setup_of(schema_sql, options, process_id), db),
    ensures
        session_run(
            session_start(schema_sql, options, process_id),
            db,
            now,
            elapsed,
            (options.data_migrations.len() + 6) as nat,
        ) == (ConvergenceModel::Ended(Ok(ReportModel::idle(elapsed))), db),
{
    let setup = setup_of(schema_sql, options, process_id);
    let n = options.data_migrations.len();
    lemma_entry_single(
        setup,
        EntryStageModel::ReadOnly,
        op(ActionModel::QueryOnly, RuleModel::Stop),
        db,
        now,
        elapsed,
        (n + 6) as nat,
    );
    let make = op(
        ActionModel::Execute(crate::entry::bootstrap_statement()),
        RuleModel::Ignore,
    );
    lemma_entry_single(setup, EntryStageModel::Bootstrap, make, db, now, elapsed, (n + 5) as nat);
    let ops = seq![
        getting("schema_hash"@, RuleModel::Stop),
        getting("migration_in_progress"@, RuleModel::Stop),
    ];
    let g = EntryModel { stage: EntryStageModel::Markers, script: fresh(ops) };
    let a = ReplyModel::Text(Some(setup.schema_hash));
    let b = ReplyModel::Text(said_of(db, "migration_in_progress"@));
    let h = EntryModel { script: ScriptModel { ops, replies: seq![a] }, ..g };
    assert(Seq::<ReplyModel>::empty().push(a) =~= seq![a]);
    assert(seq![a].push(b) =~= seq![a, b]);
    assert(entry_advanced(setup, g, a, now) == PassModel::Ask(h));
    assert(entry_advanced(setup, h, b, now) == entry_completed(
        setup,
        EntryStageModel::Markers,
        seq![a, b],
        now,
    ));
    let first = from_pass(setup, PassModel::Ask(g), elapsed);
    let second = from_pass(setup, PassModel::Ask(h), elapsed);
    let third = from_pass(setup, entry_pending(setup, 0, true, false, now), elapsed);
    assert(session_run(first, db, now, elapsed, (n + 4) as nat) == session_run(
        second,
        db,
        now,
        elapsed,
        (n + 3) as nat,
    ));
    assert(session_run(second, db, now, elapsed, (n + 3) as nat) == session_run(
        third,
        db,
        now,
        elapsed,
        (n + 2) as nat,
    ));
    lemma_pending_run(setup, 0, db, now, elapsed);
}

// ---------------------------------------------------------------------------
// The migration settles the state
// ---------------------------------------------------------------------------

/// What a script does to the state table.
pub open spec fn effects(db: StateModel, ops: Seq<OpModel>) -> StateModel
    decreases ops.len(),
{
    if ops.len() == 0 {
        db
    } else {
        effect(effects(db, ops.drop_last()), ops.last().action)
    }
}

/// The answers to a script.
pub open spec fn answers(db: StateModel, ops: Seq<OpModel>) -> Seq<ReplyModel>
    decreases ops.len(),
{
    if ops.len() == 0 {
        Seq::empty()
    } else {
        answers(db, ops.drop_last()).push(
            answer(effects(db, ops.drop_last()), ops.last().action),
        )
    }
}

spec fn working(
    setup: SetupModel,
    claim: ClaimModel,
    stage: WorkStageModel,
    script: ScriptModel,
) -> ConvergenceModel {
    ConvergenceModel::Ask(
        SessionModel {
            setup,
            phase: PhaseModel::Work(
                WorkModel { claim, activity: ActivityModel::Asking { stage, script } },
            ),
        },
    )
}

proof fn lemma_answers_len(db: StateModel, ops: Seq<OpModel>)
    ensures
        answers(db, ops).len() == ops.len(),
    decreases ops.len(),
{
    if ops.len() > 0 {
        lemma_answers_len(db, ops.drop_last());
    }
}

proof fn lemma_answer_never_breaks(db: StateModel, o: OpModel)
    ensures
        broken(o.rule, answer(db, o.action)) is None,
{
}

proof fn lemma_script_prefix(
    setup: SetupModel,
    claim: ClaimModel,
    stage: WorkStageModel,
    ops: Seq<OpModel>,
    db: StateModel,
    now: u64,
    elapsed: Duration,
    k: nat,
    requests: nat,
)
    requires
        k < ops.len(),
    ensures
        session_run(
            working(setup, claim, stage, fresh(ops)),
            db,
            now,
            elapsed,
            k + requests,
        ) == session_run(
            working(
                setup,
                claim,
                stage,
                ScriptModel { ops, replies: answers(db, ops.take(k as int)) },
            ),
            effects(db, ops.take(k as int)),
            now,
            elapsed,
            requests,
        ),
    decreases k,
{
    if k == 0 {
        assert(ops.take(0) =~= Seq::empty());
    } else {
        let j = (k - 1) as nat;
        lemma_script_prefix(setup, claim, stage, ops, db, now, elapsed, j, requests + 1);
        let before = ops.take(j as int);
        let here = ops.take(k as int);
        assert(here.drop_last() =~= before);
        assert(here.last() == ops[j as int]);
        lemma_answers_len(db, before);
        lemma_answer_never_breaks(effects(db, before), ops[j as int]);
    }
}

proof fn lemma_script_run(
    setup: SetupModel,
    claim: ClaimModel,
    stage: WorkStageModel,
    ops: Seq<OpModel>,
    db: StateModel,
    now: u64,
    elapsed: Duration,
    requests: nat,
)
    requires
        ops.len() > 0,
    ensures
        session_run(
            working(setup, claim, stage, fresh(ops)),
            db,
            now,
            elapsed,
            ops.len() + requests,
        ) == session_run(
            from_progress(
                setup,
                claim.lease,
                work_completed(setup, claim, stage, answers(db, ops), now, elapsed),
            ),
            effects(db, ops),
            now,
            elapsed,
            requests,
        ),
{
    let j = (ops.len() - 1) as nat;
    lemma_script_prefix(setup, claim, stage, ops, db, now, elapsed, j, requests + 1);
    let before = ops.take(j as int);
    assert(ops.drop_last() =~= before);
    lemma_answers_len(db, before);
    lemma_answer_never_breaks(effects(db, before), ops[j as int]);
}

/// The state that the end of a migration leaves.
pub open spec fn left_behind(db: StateModel, hash: Text) -> StateModel {
    StateModel {
        meta: db.meta.insert("schema_hash"@, hash).remove("migration_in_progress"@).remove(
            "migration_phase"@,
        ).insert("sqlite_schema_version"@, signed_decimal(db.counter as int)).remove(
            "migration_owner"@,
        ).remove("migration_lease_until"@),
        ..db
    }
}

proof fn lemma_effects_state(db: StateModel, hash: Text, had_ddl: bool)
    ensures
        effects(db, state_script(hash, had_ddl)) == (StateModel {
            meta: db.meta.insert("schema_hash"@, hash).remove("migration_in_progress"@).remove(
                "migration_phase"@,
            ),
            ..db
        }),
        had_ddl ==> answers(db, state_script(hash, had_ddl)).last() == ReplyModel::Number(
            db.version,
        ),
{
    reveal_with_fuel(effects, 7);
    let s = state_script(hash, had_ddl);
    if had_ddl {
        assert(s.len() == 6);
        assert(s.drop_last() =~= s.take(5));
        assert(s.take(5).drop_last() =~= s.take(4));
    } else {
        assert(s =~= s.take(4));
    }
    assert(s.take(4).drop_last() =~= s.take(3));
    assert(s.take(3).drop_last() =~= s.take(2));
    assert(s.take(2).drop_last() =~= s.take(1));
    assert(s.take(1).drop_last() =~= Seq::empty());
    assert(effects(db, s.take(1)) == db);
    assert(effects(db, s.take(4)) == (StateModel {
        meta: db.meta.insert("schema_hash"@, hash).remove("migration_in_progress"@).remove(
            "migration_phase"@,
        ),
        ..db
    }));
}

proof fn lemma_effects_single(db: StateModel, o: OpModel)
    ensures
        effects(db, seq![o]) == effect(db, o.action),
        answers(db, seq![o]) == seq![answer(db, o.action)],
{
    reveal_with_fuel(effects, 2);
    reveal_with_fuel(answers, 2);
    assert(seq![o].drop_last() =~= Seq::empty());
    assert(Seq::<ReplyModel>::empty().push(answer(db, o.action)) =~= seq![answer(db, o.action)]);
}

proof fn lemma_effects_version(db: StateModel, version: u32, now: u64)
    ensures
        effects(db, version_script(version, now)) == db,
{
    reveal_with_fuel(effects, 3);
    let s = version_script(version, now);
    assert(s.drop_last() =~= seq![s[0]]);
    assert(seq![s[0]].drop_last() =~= Seq::empty());
}

/// The requests from the state to the end of the convergence.
pub open spec fn requests_to_end(had_ddl: bool) -> nat {
    if had_ddl {
        14
    } else {
        10
    }
}

/// From the state on, where the database refuses nothing: the counter, its store and the
/// commit.
proof fn lemma_counter_to_end(
    setup: SetupModel,
    claim: ClaimModel,
    tally: TallyModel,
    db: StateModel,
    now: u64,
    elapsed: Duration,
)
    requires
        db.meta.contains_key("migration_owner"@),
        db.meta["migration_owner"@] == claim.lease,
    ensures
        session_run(
            from_progress(setup, claim.lease, work_counter(claim, tally)),
            db,
            now,
            elapsed,
            6,
        ) == (
            ConvergenceModel::Ended(Ok(final_report(tally, claim.recovering, elapsed))),
            StateModel {
                meta: db.meta.insert(
                    "sqlite_schema_version"@,
                    signed_decimal(db.counter as int),
                ).remove("migration_owner"@).remove("migration_lease_until"@),
                ..db
            },
        ),
{
    lemma_keys_differ();
    let counter = op(ActionModel::SchemaCounter, RuleModel::Ignore);
    lemma_script_run(
        setup,
        claim,
        WorkStageModel::Counter(tally),
        seq![counter],
        db,
        now,
        elapsed,
        5,
    );
    lemma_effects_single(db, counter);
    let store = crate::entry::setting(
        "sqlite_schema_version"@,
        signed_decimal(db.counter as int),
        RuleModel::Undo,
    );
    lemma_script_run(
        setup,
        claim,
        WorkStageModel::Store(tally),
        seq![store],
        db,
        now,
        elapsed,
        4,
    );
    lemma_effects_single(db, store);
    let stored = effect(db, store.action);
    let commit = op(crate::script::commit_action(), RuleModel::Stop);
    lemma_script_run(
        setup,
        claim,
        WorkStageModel::Commit(tally),
        seq![commit],
        stored,
        now,
        elapsed,
        3,
    );
    lemma_effects_single(stored, commit);
    lemma_release_run(
        setup,
        claim.lease,
        final_report(tally, claim.recovering, elapsed),
        stored,
        now,
        elapsed,
    );
}

proof fn lemma_release_run(
    setup: SetupModel,
    lease: Text,
    report: ReportModel,
    db: StateModel,
    now: u64,
    elapsed: Duration,
)
    requires
        db.meta.contains_key("migration_owner"@),
        db.meta["migration_owner"@] == lease,
    ensures
        session_run(
            from_progress(setup, lease, ProgressModel::Done(report)),
            db,
            now,
            elapsed,
            3,
        ) == (
            ConvergenceModel::Ended(Ok(report)),
            StateModel {
                meta: db.meta.remove("migration_owner"@).remove("migration_lease_until"@),
                ..db
            },
        ),
{
    reveal_with_fuel(session_run, 4);
    let held = ReplyModel::Text(Some(lease));
    assert(Seq::<ReplyModel>::empty().push(held) =~= seq![held]);
    let done = ReplyModel::Done(1);
    assert(Seq::<ReplyModel>::empty().push(done) =~= seq![done]);
    let freeing = ClosingModel {
        lease,
        stage: ClosingStageModel::Freeing(Ok(report)),
        script: fresh(freeing_script()),
    };
    let last = ClosingModel {
        script: ScriptModel { ops: freeing_script(), replies: seq![done] },
        ..freeing
    };
    assert(closing_advanced(freeing, done) == EndModel::Ask(last));
    assert(closing_advanced(last, done) == EndModel::Ended(Ok(report)));
}

/// A migration that has come to its state ends with its report, where the database
/// refuses nothing and the lease is still held, and leaves behind the fingerprint of its
/// schema, no marks, the schema counter, and no lease.
pub proof fn lemma_migration_settles(
    setup: SetupModel,
    claim: ClaimModel,
    tally: TallyModel,
    db: StateModel,
    now: u64,
    elapsed: Duration,
)
    requires
        tally.had_ddl ==> version_after(db.version) is Ok,
        db.meta.contains_key("migration_owner"@),
        db.meta["migration_owner"@] == claim.lease,
    ensures
        session_run(
            from_progress(setup, claim.lease, work_state(setup, claim, tally)),
            db,
            now,
            elapsed,
            requests_to_end(tally.had_ddl),
        ) == (
            ConvergenceModel::Ended(Ok(final_report(tally, claim.recovering, elapsed))),
            left_behind(db, setup.schema_hash),
        ),
{
    lemma_keys_differ();
    lemma_state_to_counter(setup, claim, tally, db, now, elapsed, 6);
    lemma_effects_state(db, setup.schema_hash, tally.had_ddl);
    let written = effects(db, state_script(setup.schema_hash, tally.had_ddl));
    lemma_counter_to_end(setup, claim, tally, written, now, elapsed);
}

proof fn lemma_state_to_counter(
    setup: SetupModel,
    claim: ClaimModel,
    tally: TallyModel,
    db: StateModel,
    now: u64,
    elapsed: Duration,
    rest: nat,
)
    requires
        tally.had_ddl ==> version_after(db.version) is Ok,
    ensures
        session_run(
            from_progress(setup, claim.lease, work_state(setup, claim, tally)),
            db,
            now,
            elapsed,
            (requests_to_end(tally.had_ddl) - 6 + rest) as nat,
        ) == session_run(
            from_progress(setup, claim.lease, work_counter(claim, tally)),
            effects(db, state_script(setup.schema_hash, tally.had_ddl)),
            now,
            elapsed,
            rest,
        ),
{
    reveal(work_state);
    let ops = state_script(setup.schema_hash, tally.had_ddl);
    let stage = WorkStageModel::State(tally);
    lemma_effects_state(db, setup.schema_hash, tally.had_ddl);
    let written = effects(db, ops);
    if tally.had_ddl {
        let v = version_after(db.version)->Ok_0;
        assert(ops.len() == 6);
        lemma_script_run(setup, claim, stage, ops, db, now, elapsed, rest + 2);
        let script = version_script(v, now);
        assert(script.len() == 2);
        lemma_script_run(
            setup,
            claim,
            WorkStageModel::Version(tally),
            script,
            written,
            now,
            elapsed,
            rest,
        );
        lemma_effects_version(written, v, now);
    } else {
        assert(ops.len() == 4);
        lemma_script_run(setup, claim, stage, ops, db, now, elapsed, rest);
    }
}

/// The keys of the state table are different ones.
pub proof fn lemma_keys_differ()
    ensures
        "schema_hash"@ != "migration_owner"@,
        "migration_in_progress"@ != "migration_owner"@,
        "migration_phase"@ != "migration_owner"@,
        "sqlite_schema_version"@ != "migration_owner"@,
        "schema_hash"@ != "migration_in_progress"@,
        "schema_hash"@ != "migration_phase"@,
        "schema_hash"@ != "sqlite_schema_version"@,
        "schema_hash"@ != "migration_lease_until"@,
        "sqlite_schema_version"@ != "migration_in_progress"@,
        "sqlite_schema_version"@ != "migration_phase"@,
        "sqlite_schema_version"@ != "migration_lease_until"@,
        "data_migration:"@.len() == 15,
        "data_migration:"@[0] == 'd',
        "migration_in_progress"@[0] == 'm',
        "migration_phase"@[0] == 'm',
        "migration_owner"@[0] == 'm',
        "migration_lease_until"@[0] == 'm',
{
    reveal_strlit("schema_hash");
    reveal_strlit("migration_owner");
    reveal_strlit("migration_in_progress");
    reveal_strlit("migration_phase");
    reveal_strlit("sqlite_schema_version");
    reveal_strlit("migration_lease_until");
    reveal_strlit("data_migration:");
    assert("schema_hash"@.len() == 11);
    assert("migration_owner"@.len() == 15);
    assert("migration_in_progress"@.len() == 21);
    assert("migration_phase"@.len() == 15);
    assert("sqlite_schema_version"@.len() == 21);
    assert("migration_lease_until"@.len() == 21);
    assert("sqlite_schema_version"@[0] == 's');
    assert("migration_in_progress"@[0] == 'm');
    assert("migration_lease_until"@[0] == 'm');
    assert("migration_phase"@[10] == 'p');
    assert("migration_owner"@[10] == 'o');
}

/// What the end of a migration leaves behind is settled, where all data migrations have
/// been applied.
pub proof fn lemma_left_behind_is_settled(setup: SetupModel, db: StateModel)
    requires
        all_applied(setup, db),
    ensures
        settled(setup, left_behind(db, setup.schema_hash)),
{
    lemma_keys_differ();
    let left = left_behind(db, setup.schema_hash);
    assert forall|i: int| 0 <= i < setup.options.data_migrations.len() implies trim(
        (#[trigger] setup.options.data_migrations[i]).id,
    ).len() > 0 && left.meta.contains_key(
        migration_key(setup.options.data_migrations[i].id),
    ) by {
        let key = migration_key(setup.options.data_migrations[i].id);
        assert(key[0] == 'd');
    }
}

} // verus!
