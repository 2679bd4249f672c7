//! What holds of every run of a plan.

use vstd::prelude::*;

#[allow(unused_imports)]
use crate::error::ErrorModel;
#[allow(unused_imports)]
use crate::execute::{
    advanced, after_tables, batch_ops, busy_op, busy_statement, completed, created_kind,
    ddl_script, deferred, first_script, if_kind, lease_ops, of_kind, round_script, started,
    view_ops, CreateKind, ExecutionModel, RunModel, StageModel,
};
#[allow(unused_imports)]
use crate::lists::lemma_gather_step;
#[allow(unused_imports)]
use crate::options::Duration;
#[allow(unused_imports)]
use crate::plan::PlanModel;
#[allow(unused_imports)]
use crate::script::{
    balanced, begin_op, broken, commit_op, lease_lost, lemma_balanced_join, lemma_balanced_single,
    lemma_begin_is_not_commit, lemma_transaction_balanced, op, open_after, open_behind,
    plain_statements, rollback_action, rule_fits, suits, transaction, undo_ops, ActionModel,
    OpModel, ReplyModel, RuleModel, ScriptModel,
};
#[allow(unused_imports)]
use crate::text::Text;

verus! {

// ---------------------------------------------------------------------------
// Kinds
// ---------------------------------------------------------------------------

/// The statements of a kind are of that kind, and stand in the list.
pub proof fn lemma_of_kind_members(stmts: Seq<Text>, kind: Option<CreateKind>, j: int)
    requires
        0 <= j < of_kind(stmts, kind).len(),
    ensures
        created_kind(of_kind(stmts, kind)[j]) == kind,
        stmts.contains(of_kind(stmts, kind)[j]),
    decreases stmts.len(),
{
    let n = stmts.len() as int;
    if n > 0 {
        let init = stmts.take(n - 1);
        let f = if_kind(kind);
        lemma_gather_step(stmts, n - 1, f);
        assert(stmts.take(n) =~= stmts);
        let before = of_kind(init, kind);
        if j < before.len() {
            lemma_of_kind_members(init, kind, j);
            let x = before[j];
            let i = choose|i: int| 0 <= i < init.len() && init[i] == x;
            assert(stmts[i] == x);
        } else {
            assert(of_kind(stmts, kind)[j] == stmts[n - 1]);
        }
    }
}

/// Each transactional statement is a table statement, a view or a trigger; none is left
/// out and none is taken twice.
pub proof fn lemma_kinds_partition(stmts: Seq<Text>)
    ensures
        of_kind(stmts, None).len() + of_kind(stmts, Some(CreateKind::View)).len() + of_kind(
            stmts,
            Some(CreateKind::Trigger),
        ).len() == stmts.len(),
    decreases stmts.len(),
{
    let n = stmts.len() as int;
    if n > 0 {
        let init = stmts.take(n - 1);
        lemma_kinds_partition(init);
        lemma_gather_step(stmts, n - 1, if_kind(None));
        lemma_gather_step(stmts, n - 1, if_kind(Some(CreateKind::View)));
        lemma_gather_step(stmts, n - 1, if_kind(Some(CreateKind::Trigger)));
        assert(stmts.take(n) =~= stmts);
    }
}

proof fn lemma_of_kind_plain(stmts: Seq<Text>, kind: Option<CreateKind>)
    requires
        plain_statements(stmts),
    ensures
        plain_statements(of_kind(stmts, kind)),
{
    let picked = of_kind(stmts, kind);
    assert forall|j: int| 0 <= j < picked.len() implies #[trigger] picked[j] != "BEGIN IMMEDIATE"@
        && picked[j] != "COMMIT"@ && picked[j] != "ROLLBACK"@ by {
        lemma_of_kind_members(stmts, kind, j);
        let i = choose|i: int| 0 <= i < stmts.len() && stmts[i] == picked[j];
        assert(stmts[i] == picked[j]);
    }
}

// ---------------------------------------------------------------------------
// Transactions
// ---------------------------------------------------------------------------

/// Whether the transaction of the database is open before the request that waits.
pub open spec fn in_transaction(e: ExecutionModel) -> bool {
    match e.stage {
        StageModel::First | StageModel::Last => open_after(
            e.script.ops,
            e.script.replies.len() as int,
        ),
        StageModel::Round => e.script.replies.len() > 0,
        StageModel::RoundEnd => true,
        StageModel::Aborting(_) => true,
    }
}

/// What every run keeps.
pub open spec fn sound(e: ExecutionModel) -> bool {
    &&& e.script.waits()
    &&& plain_statements(e.views)
    &&& plain_statements(e.triggers)
    &&& match e.stage {
        StageModel::First => balanced(e.script.ops),
        StageModel::Last => {
            balanced(e.script.ops) && e.views.len() == 0 && e.triggers.len() == 0
        },
        StageModel::Round => e.script.ops == round_script(e.views) && e.views.len() > 0,
        StageModel::RoundEnd => e.script.ops == seq![commit_op()],
        StageModel::Aborting(_) => e.script.ops == seq![op(rollback_action(), RuleModel::Ignore)],
    }
}

/// Whether a run that is on its way is sound, with or without an open transaction; and
/// one that has ended left none open.
pub open spec fn leaves(run: RunModel, open: bool) -> bool {
    match run {
        RunModel::Ask(e) => sound(e) && in_transaction(e) == open,
        _ => !open,
    }
}

proof fn lemma_busy_is_plain(timeout: Duration)
    ensures
        balanced(seq![busy_op(timeout)]),
{
    reveal_strlit("PRAGMA busy_timeout = ");
    reveal_strlit("BEGIN IMMEDIATE");
    reveal_strlit("COMMIT");
    reveal_strlit("ROLLBACK");
    let t = busy_statement(timeout);
    assert(t[0] == 'P');
    assert("BEGIN IMMEDIATE"@[0] == 'B');
    assert("COMMIT"@[0] == 'C');
    assert("ROLLBACK"@[0] == 'R');
    lemma_balanced_single(busy_op(timeout));
}

proof fn lemma_ddl_balanced(stmts: Seq<Text>, rebuilds: bool)
    requires
        plain_statements(stmts),
    ensures
        balanced(ddl_script(stmts, rebuilds)),
{
    if stmts.len() > 0 {
        lemma_transaction_balanced(stmts, "DDL"@);
        if !rebuilds {
            assert(ddl_script(stmts, rebuilds) =~= transaction(stmts, "DDL"@));
        } else {
            reveal_strlit("PRAGMA defer_foreign_keys = ON");
            reveal_strlit("BEGIN IMMEDIATE");
            reveal_strlit("COMMIT");
            reveal_strlit("ROLLBACK");
            assert("PRAGMA defer_foreign_keys = ON"@[0] == 'P');
            assert("BEGIN IMMEDIATE"@[0] == 'B');
            assert("COMMIT"@[0] == 'C');
            assert("ROLLBACK"@[0] == 'R');
            let first = op(
                ActionModel::Execute("PRAGMA defer_foreign_keys = ON"@),
                RuleModel::Ignore,
            );
            lemma_balanced_single(first);
            let check = op(ActionModel::ForeignKeyCheck, RuleModel::Ignore);
            let t = seq![begin_op()] + undo_ops(stmts, "DDL"@) + seq![check] + seq![commit_op()];
            let s = transaction(stmts, "DDL"@);
            let n = stmts.len() as int;
            assert forall|k: int| 0 <= k <= n + 1 implies open_after(t, k) == open_after(s, k) by {
                lemma_same_opening(s, t, k, n + 1);
            }
            assert(open_after(s, n + 1)) by {
                assert(s[n + 1] == commit_op());
                assert(rule_fits(s[n + 1], open_after(s, n + 1)));
            }
            assert(t[n + 1] == check);
            assert(t[n + 2] == commit_op());
            assert(open_after(t, n + 2));
            lemma_begin_is_not_commit();
            assert(!open_after(t, n + 3));
            assert forall|k: int| 0 <= k < t.len() implies rule_fits(
                #[trigger] t[k],
                open_after(t, k),
            ) by {
                if k <= n {
                    assert(t[k] == s[k]);
                }
            }
            lemma_balanced_join(seq![first], t);
            assert(ddl_script(stmts, rebuilds) =~= seq![first] + t);
        }
    } else {
        assert(ddl_script(stmts, rebuilds) =~= Seq::empty());
    }
}

proof fn lemma_same_opening(s: Seq<OpModel>, t: Seq<OpModel>, k: int, n: int)
    requires
        0 <= k <= n <= s.len(),
        n <= t.len(),
        forall|i: int| 0 <= i < n ==> s[i] == t[i],
    ensures
        open_after(t, k) == open_after(s, k),
    decreases k,
{
    if k > 0 {
        lemma_same_opening(s, t, k - 1, n);
        assert(s[k - 1] == t[k - 1]);
    }
}

proof fn lemma_lease_balanced(lease: Text)
    ensures
        balanced(lease_ops(lease)),
{
    if lease.len() > 0 {
        lemma_balanced_single(op(ActionModel::RefreshLease(lease), RuleModel::Lease));
    } else {
        assert(lease_ops(lease) =~= Seq::empty());
    }
}

proof fn lemma_batches_balanced(stmts: Seq<Text>)
    ensures
        balanced(batch_ops(stmts)),
    decreases stmts.len(),
{
    let n = stmts.len() as int;
    if n > 0 {
        let init = stmts.take(n - 1);
        lemma_batches_balanced(init);
        let last = batch_ops(stmts)[n - 1];
        lemma_balanced_single(last);
        lemma_balanced_join(batch_ops(init), seq![last]);
        assert(batch_ops(stmts) =~= batch_ops(init) + seq![last]);
    } else {
        assert(batch_ops(stmts) =~= Seq::empty());
    }
}

/// Everything before the views opens and closes its transactions properly.
pub proof fn lemma_first_script_balanced(plan: PlanModel, timeout: Duration, lease: Text)
    requires
        plain_statements(plan.transactional_stmts),
    ensures
        balanced(first_script(plan, timeout, lease)),
{
    let stmts = plan.transactional_stmts;
    let tables = of_kind(stmts, None);
    lemma_of_kind_plain(stmts, None);
    let a = seq![busy_op(timeout)];
    let b = ddl_script(tables, plan.rebuilt_tables.len() > 0);
    let c = lease_ops(lease);
    let d = batch_ops(plan.non_transactional_stmts);
    lemma_busy_is_plain(timeout);
    lemma_ddl_balanced(tables, plan.rebuilt_tables.len() > 0);
    lemma_lease_balanced(lease);
    lemma_batches_balanced(plan.non_transactional_stmts);
    lemma_balanced_join(a, b);
    lemma_balanced_join(a + b, c);
    lemma_balanced_join(a + b + c, d);
    lemma_balanced_join(a + b + c + d, c);
    assert(a + b + c + d + Seq::<OpModel>::empty() =~= a + b + c + d);
}

proof fn lemma_after_tables_sound(views: Seq<Text>, triggers: Seq<Text>)
    requires
        plain_statements(views),
        plain_statements(triggers),
    ensures
        leaves(after_tables(views, triggers), false),
{
    if views.len() == 0 && triggers.len() > 0 {
        lemma_transaction_balanced(triggers, "triggers"@);
    }
}

/// A run starts outside of transactions.
pub proof fn lemma_starts_outside(plan: PlanModel, timeout: Duration, lease: Text)
    requires
        plain_statements(plan.transactional_stmts),
    ensures
        leaves(started(plan, timeout, lease), false),
{
    lemma_first_script_balanced(plan, timeout, lease);
    lemma_of_kind_plain(plan.transactional_stmts, Some(CreateKind::View));
    lemma_of_kind_plain(plan.transactional_stmts, Some(CreateKind::Trigger));
}

proof fn lemma_deferred_members(views: Seq<Text>, replies: Seq<ReplyModel>, n: int)
    requires
        0 <= n <= views.len(),
    ensures
        deferred(views, replies, n).len() <= n,
        forall|j: int|
            0 <= j < deferred(views, replies, n).len() ==> views.contains(
                #[trigger] deferred(views, replies, n)[j],
            ),
    decreases n,
{
    if n > 0 {
        lemma_deferred_members(views, replies, n - 1);
        let before = deferred(views, replies, n - 1);
        let now = deferred(views, replies, n);
        assert forall|j: int| 0 <= j < now.len() implies views.contains(#[trigger] now[j]) by {
            if j < before.len() {
                assert(now[j] == before[j]);
            } else {
                assert(now[j] == views[n - 1]);
            }
        }
    }
}

/// A run knows at each request whether a transaction of the database is open: it opens
/// none inside another, it closes what it opened, and when it ends, with success or
/// with an error, none is open.
pub proof fn lemma_transactions_tracked(e: ExecutionModel, reply: ReplyModel)
    requires
        sound(e),
        suits(e.script.request(), reply),
    ensures
        leaves(
            advanced(e, reply),
            open_behind(in_transaction(e), e.script.request(), reply),
        ),
{
    lemma_begin_is_not_commit();
    let ops = e.script.ops;
    let k = e.script.replies.len() as int;
    match e.stage {
        StageModel::First | StageModel::Last => {
            assert(rule_fits(ops[k], open_after(ops, k)));
            if broken(ops[k].rule, reply) is None {
                assert(open_after(ops, k + 1) == open_behind(
                    in_transaction(e),
                    e.script.request(),
                    reply,
                ));
                if k + 1 == ops.len() && e.stage is First {
                    lemma_after_tables_sound(e.views, e.triggers);
                }
            }
        },
        StageModel::Round => {
            if k > 0 {
                assert(ops[k] == view_ops(e.views)[k - 1]);
                assert(e.views[k - 1] != "COMMIT"@);
            } else {
                assert(ops[0] == begin_op());
            }
            if broken(ops[k].rule, reply) is None && k + 1 == ops.len() {
                let replies = e.script.replies.push(reply);
                lemma_deferred_members(e.views, replies, e.views.len() as int);
                let left = deferred(e.views, replies, e.views.len() as int);
                assert forall|j: int| 0 <= j < left.len() implies #[trigger] left[j]
                    != "BEGIN IMMEDIATE"@ && left[j] != "COMMIT"@ && left[j] != "ROLLBACK"@ by {
                    let i = choose|i: int| 0 <= i < e.views.len() && e.views[i] == left[j];
                    assert(e.views[i] == left[j]);
                }
            }
        },
        StageModel::RoundEnd => {
            lemma_after_tables_sound(e.views, e.triggers);
        },
        StageModel::Aborting(_) => {},
    }
}

/// A statement of the tables that fails is rolled back with all that went before it in
/// the transaction, and the run ends with an error that names it.
pub proof fn lemma_failure_is_undone(
    e: ExecutionModel,
    message: Text,
    stmt: Text,
    phase: Text,
    reply: ReplyModel,
)
    requires
        e.script.waits(),
        e.script.ops[e.script.replies.len() as int].rule == (RuleModel::UndoAt { stmt, phase }),
        suits(rollback_action(), reply),
    ensures
        advanced(e, ReplyModel::Failed(message)) matches RunModel::Ask(undoing)
            && undoing.script.request() == rollback_action() && advanced(undoing, reply)
            == RunModel::Broke(
            ErrorModel::Statement { stmt, source: message, phase },
        ),
{
}

/// Where the lease is lost, the run ends at once: nothing more is asked for.
pub proof fn lemma_lost_lease_ends(e: ExecutionModel)
    requires
        e.script.waits(),
        e.script.ops[e.script.replies.len() as int].rule == RuleModel::Lease,
    ensures
        advanced(e, ReplyModel::Done(0)) == RunModel::Broke(
            ErrorModel::Schema(lease_lost()),
        ),
{
}

// ---------------------------------------------------------------------------
// Termination
// ---------------------------------------------------------------------------

/// At most so many requests follow the tables: a round for each view, and the triggers.
pub open spec fn rounds_bound(views: nat, triggers: nat) -> nat
    decreases views,
{
    if views == 0 {
        triggers + 2
    } else {
        views + 2 + rounds_bound((views - 1) as nat, triggers)
    }
}

/// At most so many requests are left, the one that waits among them.
pub open spec fn requests_left(run: RunModel) -> int {
    match run {
        RunModel::Ask(e) => {
            let here = e.script.ops.len() - e.script.replies.len() + 1;
            match e.stage {
                StageModel::First | StageModel::RoundEnd => here + rounds_bound(
                    e.views.len(),
                    e.triggers.len(),
                ),
                StageModel::Round => here + 1 + rounds_bound(
                    (e.views.len() - 1) as nat,
                    e.triggers.len(),
                ),
                StageModel::Last => here,
                StageModel::Aborting(_) => 1,
            }
        },
        _ => 0,
    }
}

proof fn lemma_bound_grows(a: nat, b: nat, triggers: nat)
    requires
        a <= b,
    ensures
        rounds_bound(a, triggers) <= rounds_bound(b, triggers),
        rounds_bound(a, triggers) >= 2,
    decreases b,
{
    if a < b {
        lemma_bound_grows(a, (b - 1) as nat, triggers);
    } else if a > 0 {
        lemma_bound_grows((a - 1) as nat, (a - 1) as nat, triggers);
    }
}

/// Each answer brings the end nearer: a round in which no view could be made ends the
/// run, and any other leaves fewer views.
pub proof fn lemma_run_ends(e: ExecutionModel, reply: ReplyModel)
    requires
        sound(e),
        suits(e.script.request(), reply),
    ensures
        0 <= requests_left(advanced(e, reply)) < requests_left(RunModel::Ask(e)),
{
    let t = e.triggers.len();
    lemma_bound_grows(0, e.views.len(), t);
    if e.stage is Round {
        let replies = e.script.replies.push(reply);
        lemma_deferred_members(e.views, replies, e.views.len() as int);
        let left = deferred(e.views, replies, e.views.len() as int);
        lemma_bound_grows(0, (e.views.len() - 1) as nat, t);
        if left.len() < e.views.len() {
            lemma_bound_grows(left.len(), (e.views.len() - 1) as nat, t);
        }
    }
}

// ---------------------------------------------------------------------------
// A run without failures
// ---------------------------------------------------------------------------

/// The answer to a request that works.
pub open spec fn granted(action: ActionModel) -> ReplyModel {
    if action is ForeignKeyCheck {
        ReplyModel::Violation(None)
    } else {
        ReplyModel::Done(1)
    }
}

/// The first requests of a run in which every request works, and what the run is behind
/// them.
pub open spec fn smooth_run(run: RunModel, requests: nat) -> (Seq<ActionModel>, RunModel)
    decreases requests,
{
    match run {
        RunModel::Ask(e) if requests > 0 => {
            let action = e.script.request();
            let rest = smooth_run(advanced(e, granted(action)), (requests - 1) as nat);
            (seq![action] + rest.0, rest.1)
        },
        _ => (Seq::empty(), run),
    }
}

pub open spec fn actions_of(ops: Seq<OpModel>) -> Seq<ActionModel> {
    Seq::new(ops.len(), |i: int| ops[i].action)
}

/// The script of a whole run: the tables, the views, the triggers.
pub open spec fn whole_script(plan: PlanModel, timeout: Duration, lease: Text) -> Seq<OpModel> {
    let views = of_kind(plan.transactional_stmts, Some(CreateKind::View));
    let triggers = of_kind(plan.transactional_stmts, Some(CreateKind::Trigger));
    first_script(plan, timeout, lease) + later_script(views, triggers)
}

/// The script behind the tables.
pub open spec fn later_script(views: Seq<Text>, triggers: Seq<Text>) -> Seq<OpModel> {
    (if views.len() > 0 {
        round_script(views) + seq![commit_op()]
    } else {
        Seq::empty()
    }) + transaction(triggers, "triggers"@)
}

/// The answers to a script whose remaining requests all work.
spec fn all_granted(s: ScriptModel) -> Seq<ReplyModel> {
    Seq::new(
        s.ops.len(),
        |i: int|
            if i < s.replies.len() {
                s.replies[i]
            } else {
                granted(s.ops[i].action)
            },
    )
}

proof fn lemma_smooth_script(e: ExecutionModel, more: nat)
    requires
        e.script.waits(),
    ensures
        ({
            let rest = smooth_run(completed(e, all_granted(e.script)), more);
            let left = e.script.ops.skip(e.script.replies.len() as int);
            smooth_run(RunModel::Ask(e), (left.len() + more) as nat) == (
                actions_of(left) + rest.0,
                rest.1,
            )
        }),
    decreases e.script.ops.len() - e.script.replies.len(),
{
    let ops = e.script.ops;
    let k = e.script.replies.len() as int;
    let a = ops[k].action;
    let script = ScriptModel { ops, replies: e.script.replies.push(granted(a)) };
    let next = ExecutionModel { script, ..e };
    let left = ops.skip(k);
    let rest = smooth_run(completed(e, all_granted(e.script)), more);
    assert(broken(ops[k].rule, granted(a)) is None);
    if k + 1 < ops.len() {
        lemma_smooth_script(next, more);
        assert(all_granted(script) =~= all_granted(e.script));
        assert(completed(next, all_granted(script)) == completed(e, all_granted(e.script)));
        let after = ops.skip(k + 1);
        assert(advanced(e, granted(a)) == RunModel::Ask(next));
        assert(seq![a] + (actions_of(after) + rest.0) =~= actions_of(left) + rest.0);
    } else {
        assert(script.replies =~= all_granted(e.script));
        assert(seq![a] + rest.0 =~= actions_of(left) + rest.0);
    }
}

proof fn lemma_nothing_deferred(views: Seq<Text>, replies: Seq<ReplyModel>, n: int)
    requires
        0 <= n,
        forall|i: int| 1 <= i <= n ==> !(#[trigger] replies[i] is Failed),
    ensures
        deferred(views, replies, n) == Seq::<Text>::empty(),
    decreases n,
{
    if n > 0 {
        lemma_nothing_deferred(views, replies, n - 1);
        assert(!(replies[n] is Failed));
    }
}

proof fn lemma_smooth_later(views: Seq<Text>, triggers: Seq<Text>)
    ensures
        smooth_run(after_tables(views, triggers), later_script(views, triggers).len()) == (
            actions_of(later_script(views, triggers)),
            RunModel::Succeeded,
        ),
    decreases views.len(),
{
    let last = transaction(triggers, "triggers"@);
    let later = later_script(views, triggers);
    match after_tables(views, triggers) {
        RunModel::Ask(e) => {
            if views.len() > 0 {
                let none = Seq::<Text>::empty();
                lemma_smooth_later(none, triggers);
                assert(later_script(none, triggers) =~= last);
                let replies = all_granted(e.script);
                assert(replies.len() == views.len() + 1);
                assert forall|i: int| 1 <= i <= views.len() implies !(#[trigger] replies[i]
                    is Failed) by {}
                lemma_nothing_deferred(views, replies, views.len() as int);
                let c = completed(e, replies)->Ask_0;
                lemma_smooth_script(c, last.len());
                lemma_smooth_script(e, (1 + last.len()) as nat);
                assert(e.script.ops.skip(0) =~= round_script(views));
                assert(c.script.ops.skip(0) =~= seq![commit_op()]);
                assert(later.len() == round_script(views).len() + 1 + last.len());
                assert(actions_of(later) =~= actions_of(round_script(views)) + (actions_of(
                    seq![commit_op()],
                ) + actions_of(last)));
            } else {
                lemma_smooth_script(e, 0);
                assert(e.script.ops.skip(0) =~= last);
                assert(later =~= last);
                assert(actions_of(last) + Seq::<ActionModel>::empty() =~= actions_of(last));
            }
        },
        _ => {
            assert(later =~= Seq::empty());
            assert(actions_of(later) =~= Seq::empty());
        },
    }
}

/// Where every request works, a run makes exactly the requests of its whole script, in
/// order, and succeeds: each statement of the plan is run once, the tables in one
/// transaction, then the full-text indexes, then the views in one round, then the
/// triggers.
pub proof fn lemma_everything_runs(plan: PlanModel, timeout: Duration, lease: Text)
    requires
        !plan.idle(),
    ensures
        smooth_run(started(plan, timeout, lease), whole_script(plan, timeout, lease).len()) == (
            actions_of(whole_script(plan, timeout, lease)),
            RunModel::Succeeded,
        ),
{
    let e = started(plan, timeout, lease)->Ask_0;
    let views = of_kind(plan.transactional_stmts, Some(CreateKind::View));
    let triggers = of_kind(plan.transactional_stmts, Some(CreateKind::Trigger));
    let later = later_script(views, triggers);
    lemma_smooth_later(views, triggers);
    lemma_smooth_script(e, later.len());
    assert(e.script.ops.skip(0) =~= first_script(plan, timeout, lease));
    assert(actions_of(whole_script(plan, timeout, lease)) =~= actions_of(
        first_script(plan, timeout, lease),
    ) + actions_of(later));
}

/// A plan with nothing in it asks for nothing.
pub proof fn lemma_idle_plan_asks_nothing(plan: PlanModel, timeout: Duration, lease: Text)
    requires
        plan.idle(),
    ensures
        started(plan, timeout, lease) == RunModel::Succeeded,
{
}

} // verus!
