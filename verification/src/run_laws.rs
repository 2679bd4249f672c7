//! What is asked of the database while a plan is run, what its failures mean, and which
//! marks a migration leaves on its way.

use vstd::prelude::*;

#[allow(unused_imports)]
use crate::closing::{clearing_script, closing_completed, ClosingStageModel, EndModel, OutcomeModel};
#[allow(unused_imports)]
use crate::diff::hints_applicable;
#[allow(unused_imports)]
use crate::entry::{migration_key, SetupModel};
#[allow(unused_imports)]
use crate::error::ErrorModel;
#[allow(unused_imports)]
use crate::execute::{
    after_tables, batch_ops, busy_op, completed, created_kind, ddl_script, deferred, first_script,
    if_kind, lease_ops, of_kind, round_script, with_semicolon, CreateKind, ExecutionModel,
    RunModel, StageModel,
};
#[allow(unused_imports)]
use crate::format::{decimal, signed_decimal};
#[allow(unused_imports)]
use crate::normalize::normal;
#[allow(unused_imports)]
use crate::options::{Duration, Failpoint};
#[allow(unused_imports)]
use crate::plan::PlanModel;
#[allow(unused_imports)]
use crate::policy::{says, unreadable};
#[allow(unused_imports)]
use crate::policy_laws::{lemma_contains_around, stands_in};
#[allow(unused_imports)]
use crate::schema::{Capabilities, SnapshotModel};
#[allow(unused_imports)]
use crate::script::{
    broken, lease_lost, transaction, ActionModel, BreakModel, ReplyModel, RuleModel,
};
#[allow(unused_imports)]
use crate::statement_laws::{lemma_gathered_at, positions};
#[allow(unused_imports)]
use crate::text::{lower, trim_end, Text};
#[allow(unused_imports)]
use crate::text_laws::{is_white, lemma_white_trimmed};
#[allow(unused_imports)]
use crate::work::{
    probed, state_script, version_after, version_in, version_script, work_completed, work_data,
    work_load, work_loaded, work_planned, work_preflight, work_probe, work_run, work_start,
    ClaimModel, JobModel, ProgressModel, TallyModel, WorkStageModel,
};

verus! {

// ---------------------------------------------------------------------------
// Requests
// ---------------------------------------------------------------------------

/// The statements of a kind are those that make what the kind says, at their places.
pub proof fn lemma_of_kind(stmts: Seq<Text>, kind: Option<CreateKind>) -> (at: Seq<int>)
    ensures
        positions(at, stmts.len() as int),
        of_kind(stmts, kind) == Seq::new(at.len(), |i: int| stmts[at[i]]),
        forall|k: int|
            0 <= k < stmts.len() ==> (at.contains(k) <==> created_kind(#[trigger] stmts[k])
                == kind),
{
    let f = if_kind(kind);
    let at = lemma_gathered_at(stmts, f);
    let list = of_kind(stmts, kind);
    assert forall|i: int| 0 <= i < at.len() implies stmts[#[trigger] at[i]] == list[i]
        && created_kind(stmts[at[i]]) == kind by {
        assert(f(stmts[at[i]])[0] == list[i]);
    }
    assert(list =~= Seq::new(at.len(), |i: int| stmts[at[i]]));
    assert forall|k: int| 0 <= k < stmts.len() implies (at.contains(k) <==> created_kind(
        #[trigger] stmts[k],
    ) == kind) by {
        if at.contains(k) {
            let i = choose|i: int| 0 <= i < at.len() && at[i] == k;
            assert(created_kind(stmts[at[i]]) == kind);
        }
    }
    at
}

/// A run first sets how long the database waits for a lock, in milliseconds.
pub proof fn lemma_busy_timeout_comes_first(plan: PlanModel, timeout: Duration, lease: Text)
    ensures
        first_script(plan, timeout, lease)[0].action == ActionModel::Execute(
            "PRAGMA busy_timeout = "@ + decimal(
                (timeout.secs * 1000 + timeout.nanos / 1_000_000) as nat,
            ),
        ),
{
}

/// Then all statements that make no view and no trigger run in one transaction. Where a
/// table is rebuilt, foreign keys are put off before it, and looked at before its end.
pub proof fn lemma_tables_in_one_transaction(plan: PlanModel, timeout: Duration, lease: Text)
    requires
        of_kind(plan.transactional_stmts, None).len() > 0,
    ensures
        ({
            let s = first_script(plan, timeout, lease);
            let a = of_kind(plan.transactional_stmts, None);
            let rebuilt = plan.rebuilt_tables.len() > 0;
            let p: int = if rebuilt {
                2
            } else {
                1
            };
            let q = p + 1 + a.len();
            let e = if rebuilt {
                q + 1
            } else {
                q
            };
            &&& s.len() > e
            &&& rebuilt ==> s[1].action == ActionModel::Execute("PRAGMA defer_foreign_keys = ON"@)
            &&& s[p].action == ActionModel::Execute("BEGIN IMMEDIATE"@)
            &&& forall|i: int|
                0 <= i < a.len() ==> s[p + 1 + i].action == ActionModel::Execute(#[trigger] a[i])
            &&& rebuilt ==> s[q].action == ActionModel::ForeignKeyCheck
            &&& s[e].action == ActionModel::Execute("COMMIT"@)
        }),
{
}

/// Behind that transaction the lease is prolonged, where there is one, and the statements
/// that cannot run in a transaction follow, each with a semicolon at its end.
pub proof fn lemma_others_follow(plan: PlanModel, timeout: Duration, lease: Text) -> (p: int)
    ensures
        ({
            let s = first_script(plan, timeout, lease);
            let a = of_kind(plan.transactional_stmts, None);
            let n = plan.non_transactional_stmts.len();
            &&& p > a.len()
            &&& p + n <= s.len()
            &&& lease.len() > 0 ==> s[p - 1].action == ActionModel::RefreshLease(lease)
            &&& forall|i: int|
                0 <= i < n ==> s[p + i].action == ActionModel::Batch(
                    with_semicolon(#[trigger] plan.non_transactional_stmts[i]),
                )
        }),
{
    let stmts = plan.transactional_stmts;
    let head = seq![busy_op(timeout)] + ddl_script(
        of_kind(stmts, None),
        plan.rebuilt_tables.len() > 0,
    ) + lease_ops(lease);
    let s = first_script(plan, timeout, lease);
    let b = batch_ops(plan.non_transactional_stmts);
    assert forall|i: int| 0 <= i < b.len() implies s[head.len() + i] == #[trigger] b[i] by {}
    assert forall|i: int| 0 <= i < plan.non_transactional_stmts.len() implies s[head.len()
        + i].action == ActionModel::Batch(
        with_semicolon(#[trigger] plan.non_transactional_stmts[i]),
    ) by {
        assert(s[head.len() + i] == b[i]);
    }
    head.len() as int
}

/// A statement gets a semicolon at its end exactly where it has none, white space aside.
pub proof fn lemma_one_semicolon(stmt: Text)
    ensures
        ({
            let t = trim_end(stmt);
            if t.len() > 0 && t[t.len() - 1] == ';' {
                with_semicolon(stmt) == stmt
            } else {
                with_semicolon(stmt) == stmt + ";"@
            }
        }),
{
}

/// A round asks for each of its views, in a transaction, in their order.
pub proof fn lemma_round_of_views(views: Seq<Text>)
    ensures
        round_script(views).len() == views.len() + 1,
        round_script(views)[0].action == ActionModel::Execute("BEGIN IMMEDIATE"@),
        forall|i: int|
            0 <= i < views.len() ==> round_script(views)[i + 1].action == ActionModel::Execute(
                #[trigger] views[i],
            ),
{
}

/// A transaction begins, runs its statements in their order and commits.
pub proof fn lemma_transaction(stmts: Seq<Text>, phase: Text)
    requires
        stmts.len() > 0,
    ensures
        ({
            let s = transaction(stmts, phase);
            &&& s.len() == stmts.len() + 2
            &&& s[0].action == ActionModel::Execute("BEGIN IMMEDIATE"@)
            &&& forall|i: int|
                0 <= i < stmts.len() ==> s[i + 1].action == ActionModel::Execute(
                    #[trigger] stmts[i],
                )
            &&& s[stmts.len() as int + 1].action == ActionModel::Execute("COMMIT"@)
        }),
{
}

/// The views that are left for the next round are those whose statements failed, in their
/// order.
pub proof fn lemma_deferred_views(
    views: Seq<Text>,
    replies: Seq<ReplyModel>,
    n: int,
) -> (at: Seq<int>)
    requires
        0 <= n <= views.len(),
    ensures
        positions(at, n),
        deferred(views, replies, n) == Seq::new(at.len(), |i: int| views[at[i]]),
        forall|k: int|
            0 <= k < n ==> (at.contains(k) <==> #[trigger] replies[k + 1] is Failed),
    decreases n,
{
    if n == 0 {
        assert(deferred(views, replies, n) =~= Seq::new(0, |i: int| views[i]));
        Seq::empty()
    } else {
        let before = lemma_deferred_views(views, replies, n - 1);
        let last = replies[n] is Failed;
        let at = if last {
            before.push(n - 1)
        } else {
            before
        };
        assert forall|k: int| 0 <= k < n implies (at.contains(k)
            <==> #[trigger] replies[k + 1] is Failed) by {
            if k == n - 1 {
                if last {
                    assert(at[before.len() as int] == k);
                } else if at.contains(k) {
                    let i = choose|i: int| 0 <= i < at.len() && at[i] == k;
                    assert(before[i] < n - 1);
                }
            } else {
                if before.contains(k) {
                    let i = choose|i: int| 0 <= i < before.len() && before[i] == k;
                    assert(at[i] == k);
                }
                if at.contains(k) {
                    let i = choose|i: int| 0 <= i < at.len() && at[i] == k;
                    assert(before[i] == k);
                }
            }
        }
        assert forall|i: int, j: int| 0 <= i < j < at.len() implies #[trigger] at[i]
            < #[trigger] at[j] by {
            assert(at[i] == before[i]);
            if j < before.len() {
                assert(at[j] == before[j]);
            }
        }
        assert forall|i: int| 0 <= i < at.len() implies 0 <= #[trigger] at[i] < n by {
            if i < before.len() {
                assert(at[i] == before[i]);
            }
        }
        assert(deferred(views, replies, n) =~= Seq::new(at.len(), |i: int| views[at[i]]));
        at
    }
}

// ---------------------------------------------------------------------------
// Failures
// ---------------------------------------------------------------------------

/// What a request that fails leads to, by its rule: nothing, the end with the error of the
/// database, or the end with the statement and the phase; with a rollback where a
/// transaction is open.
pub proof fn lemma_what_a_failure_means(m: Text, stmt: Text, phase: Text)
    ensures
        ({
            let r = ReplyModel::Failed(m);
            let plain = ErrorModel::Turso(m);
            let at = ErrorModel::Statement { stmt, source: m, phase };
            &&& broken(RuleModel::Ignore, r) is None
            &&& broken(RuleModel::Stop, r) == Some(BreakModel { error: plain, rollback: false })
            &&& broken(RuleModel::Lease, r) == Some(BreakModel { error: plain, rollback: false })
            &&& broken(RuleModel::Undo, r) == Some(BreakModel { error: plain, rollback: true })
            &&& broken(RuleModel::StopAt { stmt, phase }, r) == Some(
                BreakModel { error: at, rollback: false },
            )
            &&& broken(RuleModel::UndoAt { stmt, phase }, r) == Some(
                BreakModel { error: at, rollback: true },
            )
        }),
{
}

/// A view waits for the next round exactly where the database misses a table or a view for
/// it; any other failure ends the run.
pub proof fn lemma_view_waits(m: Text, stmt: Text, phase: Text)
    ensures
        ({
            let r = broken(RuleModel::DeferAt { stmt, phase }, ReplyModel::Failed(m));
            if stands_in("no such table"@, lower(m)) || stands_in("no such view"@, lower(m)) {
                r is None
            } else {
                r == Some(
                    BreakModel {
                        error: ErrorModel::Statement { stmt, source: m, phase },
                        rollback: true,
                    },
                )
            }
        }),
{
    lemma_contains_around(lower(m), "no such table"@);
    lemma_contains_around(lower(m), "no such view"@);
}

/// A row whose foreign key points nowhere undoes the transaction, whatever the rule.
pub proof fn lemma_dangling_key_undoes(rule: RuleModel, table: Text, rowid: i64, parent: Text)
    ensures
        broken(rule, ReplyModel::Violation(Some((table, rowid, parent)))) == Some(
            BreakModel {
                error: ErrorModel::ForeignKeyViolation { table, rowid, parent },
                rollback: true,
            },
        ),
        broken(rule, ReplyModel::Violation(None)) is None,
{
}

/// A lease that could not be prolonged ends the run; one that could does not.
pub proof fn lemma_lease_must_hold(n: u64)
    ensures
        broken(RuleModel::Lease, ReplyModel::Done(n)) is Some <==> n == 0,
        broken(RuleModel::Lease, ReplyModel::Done(0)) == Some(
            BreakModel { error: ErrorModel::Schema(lease_lost()), rollback: false },
        ),
{
}

/// A request that works breaks nothing under any rule but that of the lease.
pub proof fn lemma_success_breaks_nothing(rule: RuleModel, n: u64)
    requires
        rule != RuleModel::Lease,
    ensures
        broken(rule, ReplyModel::Done(n)) is None,
{
}

/// A file that could not be written ends the run.
pub proof fn lemma_unwritten_file_ends(rule: RuleModel, path: Text, source: Text)
    ensures
        broken(rule, ReplyModel::IoFailed { path, source }) == Some(
            BreakModel { error: ErrorModel::Io { path, source }, rollback: false },
        ),
{
}

// ---------------------------------------------------------------------------
// Marks
// ---------------------------------------------------------------------------

/// A migration first marks that it reads the schemas.
pub proof fn lemma_first_mark(setup: SetupModel, c: ClaimModel)
    requires
        setup.options.failpoint != Some(Failpoint::BeforeIntrospect),
    ensures
        work_start(setup, c) matches ProgressModel::Ask(w) && w.script().request() == (
        ActionModel::SetMeta { key: "migration_phase"@, value: "introspect"@ }),
{
}

/// A run that succeeded is marked as complete before anything else happens.
pub proof fn lemma_last_mark(setup: SetupModel, c: ClaimModel, tally: TallyModel)
    requires
        setup.options.failpoint != Some(Failpoint::AfterExecuteBeforeState),
    ensures
        work_run(setup, c, tally, RunModel::Succeeded) matches ProgressModel::Ask(w)
            && w.script().request() == (ActionModel::SetMeta {
            key: "migration_phase"@,
            value: "complete"@,
        }),
{
    reveal(work_run);
}

/// The state is written in one transaction that stores the fingerprint and takes the marks
/// of the migration away; where the schema was changed, the version is read in it too.
pub proof fn lemma_state_requests(hash: Text, had_ddl: bool)
    ensures
        ({
            let s = state_script(hash, had_ddl);
            &&& s[0].action == ActionModel::Execute("BEGIN IMMEDIATE"@)
            &&& s[1].action == (ActionModel::SetMeta { key: "schema_hash"@, value: hash })
            &&& s[2].action == ActionModel::DeleteMeta("migration_in_progress"@)
            &&& s[3].action == ActionModel::DeleteMeta("migration_phase"@)
            &&& !had_ddl ==> s.len() == 4
            &&& had_ddl ==> s.len() == 6 && s[5].action == ActionModel::StoredVersion
        }),
{
}

/// The new version takes the place of every old one.
pub proof fn lemma_version_requests(version: u32, now: u64)
    ensures
        ({
            let s = version_script(version, now);
            &&& s.len() == 2
            &&& s[0].action == ActionModel::Execute("DELETE FROM schema_version"@)
            &&& s[1].action == ActionModel::Execute(
                "INSERT INTO schema_version (version, updated_at) VALUES ("@ + decimal(
                    version as nat,
                ) + ", '"@ + decimal(now as nat) + "')"@,
            )
        }),
{
}

/// The version is a number that is not negative and not too great; nothing stored is
/// version 0; and the next version is greater by one, where there is one.
pub proof fn lemma_versions(v: i64)
    ensures
        version_in(None) == Ok::<u32, ErrorModel>(0),
        version_after(None) == Ok::<u32, ErrorModel>(1),
        0 <= v <= u32::MAX ==> version_in(Some(v)) == Ok::<u32, ErrorModel>(v as u32),
        0 <= v < u32::MAX ==> version_after(Some(v)) == Ok::<u32, ErrorModel>((v + 1) as u32),
        v == u32::MAX ==> version_after(Some(v)) == Err::<u32, ErrorModel>(
            ErrorModel::Schema("schema_version overflow"@),
        ),
        v < 0 || v > u32::MAX ==> version_after(Some(v)) == Err::<u32, ErrorModel>(
            ErrorModel::Schema("invalid schema_version value: "@ + signed_decimal(v as int)),
        ),
{
}

// ---------------------------------------------------------------------------
// Rounds of views
// ---------------------------------------------------------------------------

/// A round in which no view could be made ends the run, and is undone.
pub proof fn lemma_round_without_progress(e: ExecutionModel, replies: Seq<ReplyModel>)
    requires
        e.stage == StageModel::Round,
        forall|k: int| 0 <= k < e.views.len() ==> #[trigger] replies[k + 1] is Failed,
    ensures
        completed(e, replies) matches RunModel::Ask(next) && next.script.request()
            == ActionModel::Execute("ROLLBACK"@) && next.stage == StageModel::Aborting(
            ErrorModel::Schema(
                "Unable to resolve view creation order due to unresolved dependencies"@,
            ),
        ),
{
    let n = e.views.len() as int;
    let at = lemma_deferred_views(e.views, replies, n);
    assert forall|k: int| 0 <= k < n implies at.contains(k) by {
        assert(replies[k + 1] is Failed);
    }
    lemma_all_positions(at, n);
}

proof fn lemma_all_positions(at: Seq<int>, n: int)
    requires
        n >= 0,
        positions(at, n),
        forall|k: int| 0 <= k < n ==> at.contains(k),
    ensures
        at.len() == n,
    decreases n,
{
    if n > 0 {
        assert(at.contains(n - 1));
        let i = choose|i: int| 0 <= i < at.len() && at[i] == n - 1;
        if i < at.len() - 1 {
            assert(at[i] < at[at.len() - 1]);
        }
        let d = at.drop_last();
        assert forall|j: int| 0 <= j < d.len() implies 0 <= #[trigger] d[j] < n - 1 by {
            assert(d[j] == at[j]);
            assert(at[j] < at[at.len() - 1]);
        }
        assert forall|a: int, b: int| 0 <= a < b < d.len() implies #[trigger] d[a]
            < #[trigger] d[b] by {
            assert(d[a] == at[a] && d[b] == at[b]);
        }
        assert forall|k: int| 0 <= k < n - 1 implies d.contains(k) by {
            assert(at.contains(k));
            let q = choose|q: int| 0 <= q < at.len() && at[q] == k;
            assert(d[q] == k);
        }
        lemma_all_positions(d, n - 1);
    } else {
        if at.len() > 0 {
            let first = at[0];
            assert(first < n);
        }
    }
}

/// A round in which a view was made is committed, and the next one tries just the views
/// that were not, and after them the same triggers.
pub proof fn lemma_round_with_progress(e: ExecutionModel, replies: Seq<ReplyModel>, k: int)
    requires
        e.stage == StageModel::Round,
        0 <= k < e.views.len(),
        !(replies[k + 1] is Failed),
    ensures
        completed(e, replies) matches RunModel::Ask(next) && next.script.request()
            == ActionModel::Execute("COMMIT"@) && next.stage == StageModel::RoundEnd && next.views
            == deferred(e.views, replies, e.views.len() as int) && next.triggers == e.triggers,
{
    let n = e.views.len() as int;
    let at = lemma_deferred_views(e.views, replies, n);
    if at.len() == n {
        lemma_full_positions(at, n);
        assert(at[k] == k);
        assert(at.contains(k));
    }
}

proof fn lemma_full_positions(at: Seq<int>, n: int)
    requires
        n >= 0,
        positions(at, n),
        at.len() == n,
    ensures
        forall|k: int| 0 <= k < n ==> #[trigger] at[k] == k,
    decreases n,
{
    if n > 0 {
        let d = at.drop_last();
        assert forall|j: int| 0 <= j < d.len() implies 0 <= #[trigger] d[j] < n - 1 by {
            assert(d[j] == at[j]);
            assert(at[j] < at[n - 1]);
        }
        assert forall|a: int, b: int| 0 <= a < b < d.len() implies #[trigger] d[a]
            < #[trigger] d[b] by {
            assert(d[a] == at[a] && d[b] == at[b]);
        }
        lemma_full_positions(d, n - 1);
        assert forall|k: int| 0 <= k < n implies #[trigger] at[k] == k by {
            if k < n - 1 {
                assert(d[k] == at[k]);
            } else if n > 1 {
                assert(d[n - 2] == at[n - 2]);
                assert(at[n - 2] < at[n - 1]);
            }
        }
    }
}

// ---------------------------------------------------------------------------
// Points of failure, probes and keys
// ---------------------------------------------------------------------------

/// A point at which a migration is told to fail makes it fail there, with the name of the
/// point.
pub proof fn lemma_failpoints(
    setup: SetupModel,
    c: ClaimModel,
    plan: PlanModel,
    tally: TallyModel,
    replies: Seq<ReplyModel>,
    now: u64,
    elapsed: Duration,
)
    ensures
        setup.options.failpoint == Some(Failpoint::BeforeIntrospect) ==> work_start(setup, c)
            == ProgressModel::Failed(
            ErrorModel::InjectedFailure { failpoint: "before_introspect"@ },
        ),
        setup.options.failpoint == Some(Failpoint::BeforeExecute) ==> work_completed(
            setup,
            c,
            WorkStageModel::Record { plan, tally },
            replies,
            now,
            elapsed,
        ) == ProgressModel::Failed(ErrorModel::InjectedFailure { failpoint: "before_execute"@ }),
        setup.options.failpoint == Some(Failpoint::AfterExecuteBeforeState) ==> work_run(
            setup,
            c,
            tally,
            RunModel::Succeeded,
        ) == ProgressModel::Failed(
            ErrorModel::InjectedFailure { failpoint: "after_execute_before_state"@ },
        ),
{
    reveal(work_run);
}

/// A database that says nothing of what it can do is taken for one that can add, rename and
/// drop columns, and nothing beyond that.
pub proof fn lemma_silent_database(m: Text)
    ensures
        ({
            let c = probed(ReplyModel::Failed(m));
            &&& c.supports_drop_column
            &&& c.supports_rename_column
            &&& !c.has_fts_module
            &&& !c.has_vector_module
            &&& !c.has_materialized_views
            &&& !c.supports_without_rowid
            &&& !c.supports_generated_columns
            &&& !c.has_triggers
        }),
        forall|c: Capabilities| #[trigger] probed(ReplyModel::Capabilities(c)) == c,
{
}

/// Data migrations with different names are remembered under different keys, all of which
/// begin alike.
pub proof fn lemma_migration_keys(a: Text, b: Text)
    ensures
        migration_key(a) == "data_migration:"@ + a,
        migration_key(a) == migration_key(b) ==> a == b,
{
    let h = "data_migration:"@;
    assert((h + a).skip(h.len() as int) =~= a);
    assert((h + b).skip(h.len() as int) =~= b);
}

/// The marks of a migration are taken away in one transaction.
pub proof fn lemma_marks_cleared()
    ensures
        ({
            let s = clearing_script();
            &&& s.len() == 4
            &&& s[0].action == ActionModel::Execute("BEGIN IMMEDIATE"@)
            &&& s[1].action == ActionModel::DeleteMeta("migration_in_progress"@)
            &&& s[2].action == ActionModel::DeleteMeta("migration_phase"@)
            &&& s[3].action == ActionModel::Execute("COMMIT"@)
        }),
{
}

// ---------------------------------------------------------------------------
// From one part to the next
// ---------------------------------------------------------------------------

/// Where views or triggers are to be made, the lease is prolonged once more before them.
pub proof fn lemma_lease_before_views(plan: PlanModel, timeout: Duration, lease: Text, k: int)
    requires
        lease.len() > 0,
        0 <= k < plan.transactional_stmts.len(),
        created_kind(plan.transactional_stmts[k]) is Some,
    ensures
        first_script(plan, timeout, lease).last().action == ActionModel::RefreshLease(lease),
        first_script(plan, timeout, lease).last().rule == RuleModel::Lease,
{
    let stmts = plan.transactional_stmts;
    let kind = created_kind(stmts[k]);
    let at = lemma_of_kind(stmts, kind);
    assert(at.contains(k));
    assert(of_kind(stmts, kind).len() > 0);
    assert(kind == Some(CreateKind::View) || kind == Some(CreateKind::Trigger));
}

/// Behind the tables come the views, round by round; behind the last view the triggers, in
/// one transaction; and then the run has succeeded.
pub proof fn lemma_parts_of_a_run(views: Seq<Text>, triggers: Seq<Text>)
    ensures
        views.len() > 0 ==> (after_tables(views, triggers) matches RunModel::Ask(e) && e.stage
            == StageModel::Round && e.script.ops == round_script(views) && e.views == views
            && e.triggers == triggers),
        views.len() == 0 && triggers.len() > 0 ==> (after_tables(
            views,
            triggers,
        ) matches RunModel::Ask(e) && e.stage == StageModel::Last && e.script.ops == transaction(
            triggers,
            "triggers"@,
        )),
        views.len() == 0 && triggers.len() == 0 ==> after_tables(views, triggers)
            == RunModel::Succeeded,
{
}

/// Hints that cannot be carried out end a migration before anything is compared.
pub proof fn lemma_contradicting_hints(
    setup: SetupModel,
    c: ClaimModel,
    desired: SnapshotModel,
    actual: SnapshotModel,
    caps: Option<Capabilities>,
)
    requires
        !hints_applicable(desired, actual, setup.options.rename_hints),
    ensures
        work_loaded(setup, c, desired, actual, caps) == ProgressModel::Failed(
            ErrorModel::Schema("rename hints contradict each other"@),
        ),
{
    reveal(work_loaded);
}

/// A data migration with a blank name ends a migration.
pub proof fn lemma_blank_name_ends(setup: SetupModel, c: ClaimModel, tally: TallyModel, index: nat)
    requires
        index < setup.options.data_migrations.len(),
        is_white(setup.options.data_migrations[index as int].id),
    ensures
        work_data(setup, c, tally, index) == ProgressModel::Failed(
            ErrorModel::Schema("data migration id must not be empty"@),
        ),
{
    reveal(work_data);
    lemma_white_trimmed(setup.options.data_migrations[index as int].id);
}

/// What the database can do is asked of it exactly where it is not known.
pub proof fn lemma_probe_where_unknown(setup: SetupModel, c: ClaimModel, job: JobModel)
    ensures
        job.caps is None ==> (work_probe(setup, c, job) matches ProgressModel::Ask(w)
            && w.script().request() == ActionModel::Probe),
        job.caps is Some ==> work_probe(setup, c, job) == work_planned(
            setup,
            c,
            job,
            job.caps->0,
        ),
{
    reveal(work_probe);
}

/// The wanted schema is read before the actual one.
pub proof fn lemma_both_schemas_are_read(c: ClaimModel, caps: Option<Capabilities>)
    ensures
        work_load(c, caps) matches ProgressModel::Ask(w) && w.script().ops.len() == 2
            && w.script().ops[0].action == ActionModel::LoadDesired && w.script().ops[1].action
            == ActionModel::LoadActual,
{
}

/// A text that names a feature is held against what the database can do before it is read;
/// where that is not known, it is asked first.
pub proof fn lemma_text_is_checked_first(
    setup: SetupModel,
    c: ClaimModel,
    replies: Seq<ReplyModel>,
    now: u64,
    elapsed: Duration,
)
    ensures
        ({
            let names = says(normal(setup.schema_sql), "without rowid"@) || says(
                normal(setup.schema_sql),
                "generated always"@,
            );
            let next = work_completed(
                setup,
                c,
                WorkStageModel::Introspect,
                replies,
                now,
                elapsed,
            );
            let caps = setup.options.capabilities;
            &&& names && caps is None ==> (next matches ProgressModel::Ask(w)
                && w.script().request() == ActionModel::Probe)
            &&& names && caps is Some && unreadable(setup.schema_sql, caps->0) is Some ==> next
                == ProgressModel::Failed(
                ErrorModel::UnsupportedFeature(unreadable(setup.schema_sql, caps->0)->0),
            )
            &&& !names ==> next == work_load(c, caps)
        }),
{
    reveal(work_preflight);
}

/// A lease that is no longer the own one is not given back, and its marks stay.
pub proof fn lemma_foreign_lease_stays(
    lease: Text,
    e: ErrorModel,
    outcome: OutcomeModel,
    holder: Option<Text>,
)
    requires
        holder != Some(lease),
    ensures
        closing_completed(
            lease,
            ClosingStageModel::Owner(e),
            seq![ReplyModel::Text(holder)],
        ) matches EndModel::Ask(c) && c.stage == ClosingStageModel::Holder(Err(e)),
        closing_completed(
            lease,
            ClosingStageModel::Holder(outcome),
            seq![ReplyModel::Text(holder)],
        ) == EndModel::Ended(outcome),
{
}

} // verus!
