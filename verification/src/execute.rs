//! Running a plan.
//!
//! First the tables and indexes in one transaction, then the full-text indexes
//! outside of transactions, then the views, round after round, and the triggers.

use vstd::prelude::*;

use crate::error::MigrateError;
#[allow(unused_imports)]
use crate::error::ErrorModel;
#[allow(unused_imports)]
use crate::format::decimal;
use crate::format::{decimal_of_wide, glue2};
#[allow(unused_imports)]
use crate::lists::{gather, lemma_gather_step};
use crate::options::Duration;
use crate::plan::MigrationPlan;
#[allow(unused_imports)]
use crate::plan::PlanModel;
#[allow(unused_imports)]
use crate::script::{
    begin_op, commit_op, fed, fresh, op, rollback_action, transaction, undo_ops, ActionModel,
    BreakModel, FedModel, OpModel, ReplyModel, RuleModel, ScriptModel,
};
use crate::script::{
    execute_op, push_begin, push_commit, push_transaction, push_undo_ops, Action, Break, Fed, Op,
    Reply, Rule, Script,
};
#[allow(unused_imports)]
use crate::search::{
    find, lemma_find_from, lemma_find_in_tail, lemma_trim_start_len, part_len, words,
};
use crate::search::{find_chars, part_end, words_of};
#[allow(unused_imports)]
use crate::text::{lower, trim_end, trim_start};
use crate::text::{
    chars_of, lower_chars, str_equal, string_of_range, trim_end_at, trim_start_at, Text,
};

verus! {

// ---------------------------------------------------------------------------
// Kinds of statements
// ---------------------------------------------------------------------------

/// The text without the white space and comments in front of it.
pub open spec fn without_leading_comments(t: Text) -> Text
    decreases t.len(),
{
    let s = trim_start(t);
    proof {
        lemma_trim_start_len(t);
    }
    if s.len() > 1 && s[0] == '-' && s[1] == '-' {
        let n = part_len(s.skip(2), '\n') as int;
        if n < s.skip(2).len() {
            without_leading_comments(s.skip(2 + n + 1))
        } else {
            Seq::empty()
        }
    } else if s.len() > 1 && s[0] == '/' && s[1] == '*' {
        match find(s.skip(2), "*/"@) {
            Some(k) => {
                proof {
                    lemma_find_from(s.skip(2), "*/"@, 0);
                    reveal_strlit("*/");
                }
                without_leading_comments(s.skip(k + 4))
            },
            None => Seq::empty(),
        }
    } else {
        s
    }
}

/// What a CREATE statement makes.
#[derive(Debug, Clone, Copy, PartialEq, Eq, Structural)]
pub enum CreateKind {
    View,
    Trigger,
}

/// Whether a statement makes a view or a trigger, by its first words.
pub open spec fn created_kind(stmt: Text) -> Option<CreateKind> {
    let w = words(lower(without_leading_comments(stmt)));
    let k: int = if w.len() > 1 && (w[1] == "temp"@ || w[1] == "temporary"@) {
        2
    } else {
        1
    };
    if w.len() == 0 || w[0] != "create"@ || k >= w.len() {
        None
    } else if w[k] == "view"@ {
        Some(CreateKind::View)
    } else if w[k] == "materialized"@ && k + 1 < w.len() && w[k + 1] == "view"@ {
        Some(CreateKind::View)
    } else if w[k] == "trigger"@ {
        Some(CreateKind::Trigger)
    } else {
        None
    }
}

/// The position at which the statement starts, behind white space and comments; or the
/// end.
fn strip_leading_sql_comments(v: &Vec<char>) -> (k: usize)
    ensures
        k <= v.len(),
        v@.skip(k as int) == without_leading_comments(v@),
{
    let mut i: usize = 0;
    assert(v@.skip(0) == v@);
    loop
        invariant
            i <= v.len(),
            without_leading_comments(v@) == without_leading_comments(v@.skip(i as int)),
        decreases v.len() - i,
    {
        let ghost here = v@.skip(i as int);
        let tail = vstd::slice::slice_subrange(v.as_slice(), i, v.len());
        assert(tail@ == here);
        let a = i + trim_start_at(tail);
        let ghost s = v@.skip(a as int);
        assert(s == trim_start(here));
        let n = v.len() - a;
        if n > 1 && v[a] == '-' && v[a + 1] == '-' {
            let end = part_end(v.as_slice(), '\n', a + 2);
            assert(s.skip(2) == v@.skip(a + 2));
            if end == v.len() {
                assert(v@.skip(end as int) =~= Seq::empty());
                return end;
            }
            assert(s.skip(end - a + 1) == v@.skip(end + 1));
            i = end + 1;
        } else if n > 1 && v[a] == '/' && v[a + 1] == '*' {
            let pat = chars_of("*/");
            proof {
                reveal_strlit("*/");
                lemma_find_in_tail(v@, "*/"@, a + 2, a + 2);
                assert(s.skip(2) == v@.skip(a + 2));
            }
            match find_chars(v.as_slice(), pat.as_slice(), a + 2) {
                Some(k) => {
                    assert(s.skip(k - a + 2) == v@.skip(k + 2));
                    i = k + 2;
                },
                None => {
                    let end = v.len();
                    assert(v@.skip(end as int) =~= Seq::empty());
                    return end;
                },
            }
        } else {
            return a;
        }
    }
}

/// Whether a statement makes a view or a trigger.
pub fn classify_create_stmt(stmt: &str) -> (r: Option<CreateKind>)
    ensures
        r == created_kind(stmt@),
{
    let v = chars_of(stmt);
    let k = strip_leading_sql_comments(&v);
    let rest = string_of_range(v.as_slice(), k, v.len());
    assert(rest@ =~= v@.skip(k as int));
    let low = lower_chars(rest.as_str());
    let w = words_of(low.as_slice());
    let ghost ws = w.deep_view();
    assert(forall|i: int| 0 <= i < w.len() ==> #[trigger] ws[i] == w@[i]@);
    if w.len() == 0 || !str_equal(w[0].as_str(), "create") {
        return None;
    }
    let at: usize = if w.len() > 1 && (str_equal(w[1].as_str(), "temp") || str_equal(
        w[1].as_str(),
        "temporary",
    )) {
        2
    } else {
        1
    };
    if at >= w.len() {
        return None;
    }
    if str_equal(w[at].as_str(), "view") {
        return Some(CreateKind::View);
    }
    if str_equal(w[at].as_str(), "materialized") && at + 1 < w.len() && str_equal(
        w[at + 1].as_str(),
        "view",
    ) {
        return Some(CreateKind::View);
    }
    if str_equal(w[at].as_str(), "trigger") {
        return Some(CreateKind::Trigger);
    }
    None
}

/// Whether a statement makes a view.
pub fn is_create_view(stmt: &str) -> (r: bool)
    ensures
        r == (created_kind(stmt@) == Some(CreateKind::View)),
{
    match classify_create_stmt(stmt) {
        Some(CreateKind::View) => true,
        _ => false,
    }
}

/// Whether a statement makes a trigger.
pub fn is_create_trigger(stmt: &str) -> (r: bool)
    ensures
        r == (created_kind(stmt@) == Some(CreateKind::Trigger)),
{
    match classify_create_stmt(stmt) {
        Some(CreateKind::Trigger) => true,
        _ => false,
    }
}

/// Whether a statement makes a view or a trigger.
pub fn is_create_view_or_trigger(stmt: &str) -> (r: bool)
    ensures
        r == (created_kind(stmt@) is Some),
{
    classify_create_stmt(stmt).is_some()
}

pub open spec fn if_kind(kind: Option<CreateKind>) -> spec_fn(Text) -> Seq<Text> {
    |s: Text|
        if created_kind(s) == kind {
            seq![s]
        } else {
            Seq::empty()
        }
}

/// The statements of a kind.
pub open spec fn of_kind(stmts: Seq<Text>, kind: Option<CreateKind>) -> Seq<Text> {
    gather(stmts, if_kind(kind))
}

/// The statements of a kind.
fn select_kind(stmts: &Vec<String>, kind: Option<CreateKind>) -> (r: Vec<String>)
    ensures
        r.deep_view() == of_kind(stmts.deep_view(), kind),
{
    let ghost all = stmts.deep_view();
    let ghost f = if_kind(kind);
    let mut r: Vec<String> = Vec::new();
    let mut i: usize = 0;
    assert(all.take(0) =~= Seq::empty());
    assert(r.deep_view() =~= Seq::empty());
    while i < stmts.len()
        invariant
            i <= stmts.len(),
            all == stmts.deep_view(),
            f == if_kind(kind),
            r.deep_view() == gather(all.take(i as int), f),
        decreases stmts.len() - i,
    {
        let ghost now = r.deep_view();
        proof {
            lemma_gather_step(all, i as int, f);
        }
        assert(all[i as int] == stmts@[i as int]@);
        let found = classify_create_stmt(stmts[i].as_str());
        let wanted = match (found, kind) {
            (None, None) => true,
            (Some(CreateKind::View), Some(CreateKind::View)) => true,
            (Some(CreateKind::Trigger), Some(CreateKind::Trigger)) => true,
            _ => false,
        };
        if wanted {
            r.push(stmts[i].clone());
            assert(r.deep_view() =~= now + seq![all[i as int]]);
        } else {
            assert(now + Seq::<Text>::empty() =~= now);
        }
        i += 1;
    }
    assert(all.take(i as int) =~= all);
    r
}

// ---------------------------------------------------------------------------
// The scripts
// ---------------------------------------------------------------------------

/// The statement that sets how long the database waits for a lock.
pub open spec fn busy_statement(timeout: Duration) -> Text {
    "PRAGMA busy_timeout = "@ + decimal(timeout.millis())
}

pub open spec fn busy_op(timeout: Duration) -> OpModel {
    op(
        ActionModel::Execute(busy_statement(timeout)),
        RuleModel::StopAt { stmt: busy_statement(timeout), phase: "setup"@ },
    )
}

/// The request that sets how long the database waits for a lock.
pub fn set_busy_timeout(timeout: Duration) -> (r: Op)
    ensures
        r.deep_view() == busy_op(timeout),
{
    let ms = decimal_of_wide(timeout.as_millis());
    let stmt = glue2("PRAGMA busy_timeout = ", ms.as_str());
    let again = stmt.clone();
    execute_op(stmt.as_str(), Rule::StopAt { stmt: again, phase: "setup".to_owned() })
}

/// The transaction of the tables, indexes and columns. Where a table is rebuilt,
/// foreign keys are looked at only at its end.
pub open spec fn ddl_script(stmts: Seq<Text>, rebuilds: bool) -> Seq<OpModel> {
    if stmts.len() == 0 {
        Seq::empty()
    } else {
        (if rebuilds {
            seq![op(ActionModel::Execute("PRAGMA defer_foreign_keys = ON"@), RuleModel::Ignore)]
        } else {
            Seq::empty()
        }) + seq![begin_op()] + undo_ops(stmts, "DDL"@) + (if rebuilds {
            seq![op(ActionModel::ForeignKeyCheck, RuleModel::Ignore)]
        } else {
            Seq::empty()
        }) + seq![commit_op()]
    }
}

/// The request that prolongs the lease, where there is one.
pub open spec fn lease_ops(lease: Text) -> Seq<OpModel> {
    if lease.len() == 0 {
        Seq::empty()
    } else {
        seq![op(ActionModel::RefreshLease(lease), RuleModel::Lease)]
    }
}

/// The statement with a semicolon at its end.
pub open spec fn with_semicolon(stmt: Text) -> Text {
    let t = trim_end(stmt);
    if t.len() > 0 && t.last() == ';' {
        stmt
    } else {
        stmt + ";"@
    }
}

/// The requests that run outside of transactions.
pub open spec fn batch_ops(stmts: Seq<Text>) -> Seq<OpModel> {
    Seq::new(
        stmts.len(),
        |i: int|
            op(
                ActionModel::Batch(with_semicolon(stmts[i])),
                RuleModel::StopAt { stmt: stmts[i], phase: "FTS"@ },
            ),
    )
}

/// Everything before the views.
pub open spec fn first_script(plan: PlanModel, timeout: Duration, lease: Text) -> Seq<OpModel> {
    let stmts = plan.transactional_stmts;
    seq![busy_op(timeout)] + ddl_script(of_kind(stmts, None), plan.rebuilt_tables.len() > 0)
        + lease_ops(lease) + batch_ops(plan.non_transactional_stmts) + (if of_kind(
        stmts,
        Some(CreateKind::View),
    ).len() + of_kind(stmts, Some(CreateKind::Trigger)).len() > 0 {
        lease_ops(lease)
    } else {
        Seq::empty()
    })
}

/// The requests for one round of views.
pub open spec fn view_ops(views: Seq<Text>) -> Seq<OpModel> {
    Seq::new(
        views.len(),
        |i: int|
            op(
                ActionModel::Execute(views[i]),
                RuleModel::DeferAt { stmt: views[i], phase: "views"@ },
            ),
    )
}

/// One round of views, up to its end.
pub open spec fn round_script(views: Seq<Text>) -> Seq<OpModel> {
    seq![begin_op()] + view_ops(views)
}

fn push_lease(ops: &mut Vec<Op>, lease_id: &str)
    ensures
        final(ops).deep_view() == old(ops).deep_view() + lease_ops(lease_id@),
{
    let ghost before = ops.deep_view();
    if lease_id.is_empty() {
        assert(before + Seq::<OpModel>::empty() =~= before);
        return ;
    }
    ops.push(Op { action: Action::RefreshLease(lease_id.to_owned()), rule: Rule::Lease });
    assert(ops.deep_view() =~= before + lease_ops(lease_id@));
}

fn end_with_semicolon(stmt: &str) -> (r: String)
    ensures
        r@ == with_semicolon(stmt@),
{
    let v = chars_of(stmt);
    let k = trim_end_at(v.as_slice());
    assert(v@.take(k as int) == trim_end(stmt@));
    if k > 0 && v[k - 1] == ';' {
        stmt.to_owned()
    } else {
        glue2(stmt, ";")
    }
}

fn push_batches(ops: &mut Vec<Op>, stmts: &Vec<String>)
    ensures
        final(ops).deep_view() == old(ops).deep_view() + batch_ops(stmts.deep_view()),
{
    let ghost before = ops.deep_view();
    let ghost all = batch_ops(stmts.deep_view());
    let mut i: usize = 0;
    assert(before + all.take(0) =~= before);
    while i < stmts.len()
        invariant
            i <= stmts.len(),
            all == batch_ops(stmts.deep_view()),
            ops.deep_view() == before + all.take(i as int),
        decreases stmts.len() - i,
    {
        let ghost now = ops.deep_view();
        ops.push(
            Op {
                action: Action::Batch(end_with_semicolon(stmts[i].as_str())),
                rule: Rule::StopAt { stmt: stmts[i].clone(), phase: "FTS".to_owned() },
            },
        );
        assert(ops.deep_view() =~= now.push(all[i as int]));
        assert(ops.deep_view() =~= before + all.take(i + 1));
        i += 1;
    }
    assert(all.take(i as int) =~= all);
}

fn push_ddl(ops: &mut Vec<Op>, stmts: &Vec<String>, rebuilds: bool)
    ensures
        final(ops).deep_view() == old(ops).deep_view() + ddl_script(stmts.deep_view(), rebuilds),
{
    let ghost before = ops.deep_view();
    if stmts.len() == 0 {
        assert(before + Seq::<OpModel>::empty() =~= before);
        return ;
    }
    if rebuilds {
        ops.push(execute_op("PRAGMA defer_foreign_keys = ON", Rule::Ignore));
        assert(ops.deep_view() =~= before + seq![
            op(ActionModel::Execute("PRAGMA defer_foreign_keys = ON"@), RuleModel::Ignore),
        ]);
    }
    push_begin(ops);
    push_undo_ops(ops, stmts, "DDL");
    if rebuilds {
        let ghost now = ops.deep_view();
        ops.push(Op { action: Action::ForeignKeyCheck, rule: Rule::Ignore });
        assert(ops.deep_view() =~= now + seq![op(ActionModel::ForeignKeyCheck, RuleModel::Ignore)]);
    }
    push_commit(ops);
    assert(ops.deep_view() =~= before + ddl_script(stmts.deep_view(), rebuilds));
}

/// One round of views, up to its end.
fn build_round(views: &Vec<String>) -> (ops: Vec<Op>)
    ensures
        ops.deep_view() == round_script(views.deep_view()),
{
    let mut ops: Vec<Op> = Vec::new();
    push_begin(&mut ops);
    assert(ops.deep_view() =~= seq![begin_op()]);
    let ghost all = view_ops(views.deep_view());
    let mut i: usize = 0;
    assert(seq![begin_op()] + all.take(0) =~= seq![begin_op()]);
    while i < views.len()
        invariant
            i <= views.len(),
            all == view_ops(views.deep_view()),
            ops.deep_view() == seq![begin_op()] + all.take(i as int),
        decreases views.len() - i,
    {
        let ghost now = ops.deep_view();
        ops.push(
            execute_op(
                views[i].as_str(),
                Rule::DeferAt { stmt: views[i].clone(), phase: "views".to_owned() },
            ),
        );
        assert(ops.deep_view() =~= now.push(all[i as int]));
        assert(ops.deep_view() =~= seq![begin_op()] + all.take(i + 1));
        i += 1;
    }
    assert(all.take(i as int) =~= all);
    ops
}

// ---------------------------------------------------------------------------
// The run
// ---------------------------------------------------------------------------

/// Where a run is.
#[derive(Debug)]
pub enum Stage {
    /// In the script before the views.
    First,
    /// In a round of views.
    Round,
    /// At the end of a round that made a view.
    RoundEnd,
    /// In the transaction of the triggers.
    Last,
    /// Rolling back; then the run ends with the error.
    Aborting(MigrateError),
}

#[verifier::ext_equal]
pub enum StageModel {
    First,
    Round,
    RoundEnd,
    Last,
    Aborting(ErrorModel),
}

impl DeepView for Stage {
    type V = StageModel;

    open spec fn deep_view(&self) -> StageModel {
        match self {
            Stage::First => StageModel::First,
            Stage::Round => StageModel::Round,
            Stage::RoundEnd => StageModel::RoundEnd,
            Stage::Last => StageModel::Last,
            Stage::Aborting(e) => StageModel::Aborting(e.deep_view()),
        }
    }
}

/// A plan that is being run. A request waits for its answer.
#[derive(Debug)]
pub struct Execution {
    stage: Stage,
    script: Script,
    /// The views that are not made yet.
    views: Vec<String>,
    triggers: Vec<String>,
}

#[verifier::ext_equal]
pub struct ExecutionModel {
    pub stage: StageModel,
    pub script: ScriptModel,
    pub views: Seq<Text>,
    pub triggers: Seq<Text>,
}

impl DeepView for Execution {
    type V = ExecutionModel;

    closed spec fn deep_view(&self) -> ExecutionModel {
        ExecutionModel {
            stage: self.stage.deep_view(),
            script: self.script.deep_view(),
            views: self.views.deep_view(),
            triggers: self.triggers.deep_view(),
        }
    }
}

/// A run: on its way, or at its end.
#[derive(Debug)]
pub enum Run {
    Ask(Execution),
    Ended(Result<(), MigrateError>),
}

#[verifier::ext_equal]
pub enum RunModel {
    Ask(ExecutionModel),
    Succeeded,
    Broke(ErrorModel),
}

impl DeepView for Run {
    type V = RunModel;

    open spec fn deep_view(&self) -> RunModel {
        match self {
            Run::Ask(e) => RunModel::Ask(e.deep_view()),
            Run::Ended(Ok(_)) => RunModel::Succeeded,
            Run::Ended(Err(e)) => RunModel::Broke(e.deep_view()),
        }
    }
}

/// A run at the start of the script of a stage.
pub open spec fn running(
    stage: StageModel,
    ops: Seq<OpModel>,
    views: Seq<Text>,
    triggers: Seq<Text>,
) -> RunModel {
    RunModel::Ask(ExecutionModel { stage, script: fresh(ops), views, triggers })
}

/// The way to the end of a run that broke.
pub open spec fn aborted(b: BreakModel) -> RunModel {
    if b.rollback {
        running(
            StageModel::Aborting(b.error),
            seq![op(rollback_action(), RuleModel::Ignore)],
            Seq::empty(),
            Seq::empty(),
        )
    } else {
        RunModel::Broke(b.error)
    }
}

/// The next round of views; where there is none left, the triggers.
pub open spec fn after_tables(views: Seq<Text>, triggers: Seq<Text>) -> RunModel {
    if views.len() > 0 {
        running(StageModel::Round, round_script(views), views, triggers)
    } else if triggers.len() > 0 {
        running(
            StageModel::Last,
            transaction(triggers, "triggers"@),
            Seq::empty(),
            Seq::empty(),
        )
    } else {
        RunModel::Succeeded
    }
}

/// Those of the first `n` views whose statements failed for want of another one.
pub open spec fn deferred(views: Seq<Text>, replies: Seq<ReplyModel>, n: int) -> Seq<Text>
    decreases n,
{
    if n <= 0 {
        Seq::empty()
    } else {
        let before = deferred(views, replies, n - 1);
        if replies[n] is Failed {
            before.push(views[n - 1])
        } else {
            before
        }
    }
}

pub open spec fn unresolved() -> BreakModel {
    BreakModel {
        error: ErrorModel::Schema(
            "Unable to resolve view creation order due to unresolved dependencies"@,
        ),
        rollback: true,
    }
}

/// What follows a script that ran to its end.
pub open spec fn completed(e: ExecutionModel, replies: Seq<ReplyModel>) -> RunModel {
    match e.stage {
        StageModel::First | StageModel::RoundEnd => after_tables(e.views, e.triggers),
        StageModel::Round => {
            let left = deferred(e.views, replies, e.views.len() as int);
            if left.len() == e.views.len() {
                aborted(unresolved())
            } else {
                running(StageModel::RoundEnd, seq![commit_op()], left, e.triggers)
            }
        },
        StageModel::Last => RunModel::Succeeded,
        StageModel::Aborting(error) => RunModel::Broke(error),
    }
}

/// The start of a run.
pub open spec fn started(plan: PlanModel, timeout: Duration, lease: Text) -> RunModel {
    if plan.idle() {
        RunModel::Succeeded
    } else {
        running(
            StageModel::First,
            first_script(plan, timeout, lease),
            of_kind(plan.transactional_stmts, Some(CreateKind::View)),
            of_kind(plan.transactional_stmts, Some(CreateKind::Trigger)),
        )
    }
}

/// What an answer leads to.
pub open spec fn advanced(e: ExecutionModel, reply: ReplyModel) -> RunModel {
    match fed(e.script, reply) {
        FedModel::More(script) => RunModel::Ask(ExecutionModel { script, ..e }),
        FedModel::Broken(b) => aborted(b),
        FedModel::Complete(replies) => completed(e, replies),
    }
}

fn begin_stage(stage: Stage, ops: Vec<Op>, views: Vec<String>, triggers: Vec<String>) -> (r: Run)
    requires
        ops.len() > 0,
        stage is Round ==> ops.len() == views.len() + 1,
    ensures
        r.deep_view() == running(
            stage.deep_view(),
            ops.deep_view(),
            views.deep_view(),
            triggers.deep_view(),
        ),
{
    let script = Script::new(ops);
    assert(ops.deep_view().len() == ops.len());
    Run::Ask(Execution { stage, script, views, triggers })
}

fn abort(b: Break) -> (r: Run)
    ensures
        r.deep_view() == aborted(b.deep_view()),
{
    if b.rollback {
        let mut ops: Vec<Op> = Vec::new();
        ops.push(execute_op("ROLLBACK", Rule::Ignore));
        let views: Vec<String> = Vec::new();
        let triggers: Vec<String> = Vec::new();
        assert(ops.deep_view() =~= seq![op(rollback_action(), RuleModel::Ignore)]);
        assert(views.deep_view() =~= Seq::empty());
        begin_stage(Stage::Aborting(b.error), ops, views, triggers)
    } else {
        Run::Ended(Err(b.error))
    }
}

fn run_views(views: Vec<String>, triggers: Vec<String>) -> (r: Run)
    ensures
        r.deep_view() == after_tables(views.deep_view(), triggers.deep_view()),
{
    if views.len() > 0 {
        let ops = build_round(&views);
        assert(ops.deep_view().len() == views.len() + 1);
        begin_stage(Stage::Round, ops, views, triggers)
    } else if triggers.len() > 0 {
        let mut ops: Vec<Op> = Vec::new();
        push_transaction(&mut ops, &triggers, "triggers");
        assert(ops.deep_view() =~= transaction(triggers.deep_view(), "triggers"@));
        assert(ops.deep_view().len() > 0);
        let none: Vec<String> = Vec::new();
        let no_more: Vec<String> = Vec::new();
        assert(none.deep_view() =~= Seq::empty());
        assert(no_more.deep_view() =~= Seq::empty());
        begin_stage(Stage::Last, ops, none, no_more)
    } else {
        Run::Ended(Ok(()))
    }
}

/// The views whose statements failed for want of another one.
fn find_deferred(views: &Vec<String>, replies: &Vec<Reply>) -> (r: Vec<String>)
    requires
        replies.len() == views.len() + 1,
    ensures
        r.deep_view() == deferred(views.deep_view(), replies.deep_view(), views.len() as int),
{
    let ghost all = views.deep_view();
    let ghost answers = replies.deep_view();
    let mut r: Vec<String> = Vec::new();
    let mut i: usize = 0;
    assert(r.deep_view() =~= Seq::empty());
    while i < views.len()
        invariant
            i <= views.len(),
            replies.len() == views.len() + 1,
            all == views.deep_view(),
            answers == replies.deep_view(),
            r.deep_view() == deferred(all, answers, i as int),
        decreases views.len() - i,
    {
        let ghost before = r.deep_view();
        assert(answers[i + 1] == replies@[i + 1].deep_view());
        if let Reply::Failed(_) = &replies[i + 1] {
            r.push(views[i].clone());
            assert(r.deep_view() =~= before.push(all[i as int]));
        }
        i += 1;
    }
    r
}

fn complete(stage: Stage, replies: Vec<Reply>, views: Vec<String>, triggers: Vec<String>) -> (r:
    Run)
    requires
        stage is Round ==> replies.len() == views.len() + 1,
    ensures
        forall|script: ScriptModel|
            r.deep_view() == #[trigger] completed(
                ExecutionModel {
                    stage: stage.deep_view(),
                    script,
                    views: views.deep_view(),
                    triggers: triggers.deep_view(),
                },
                replies.deep_view(),
            ),
{
    match stage {
        Stage::First | Stage::RoundEnd => run_views(views, triggers),
        Stage::Round => {
            let left = find_deferred(&views, &replies);
            if left.len() == views.len() {
                abort(
                    Break {
                        error: MigrateError::Schema(
                            "Unable to resolve view creation order due to unresolved dependencies".to_owned(),
                        ),
                        rollback: true,
                    },
                )
            } else {
                let mut ops: Vec<Op> = Vec::new();
                push_commit(&mut ops);
                assert(ops.deep_view() =~= seq![commit_op()]);
                begin_stage(Stage::RoundEnd, ops, left, triggers)
            }
        },
        Stage::Last => Run::Ended(Ok(())),
        Stage::Aborting(error) => Run::Ended(Err(error)),
    }
}

impl Execution {
    #[verifier::type_invariant]
    spec fn well_formed(self) -> bool {
        self.stage is Round ==> self.script.deep_view().ops.len() == self.views.len() + 1
    }

    /// Starts to run the plan. With the empty text for a lease, no lease is looked after.
    pub fn start(plan: &MigrationPlan, busy_timeout: Duration, lease_id: &str) -> (r: Run)
        ensures
            r.deep_view() == started(plan.deep_view(), busy_timeout, lease_id@),
    {
        if plan.is_empty() {
            return Run::Ended(Ok(()));
        }
        let tables = select_kind(&plan.transactional_stmts, None);
        let views = select_kind(&plan.transactional_stmts, Some(CreateKind::View));
        let triggers = select_kind(&plan.transactional_stmts, Some(CreateKind::Trigger));
        let mut ops: Vec<Op> = Vec::new();
        ops.push(set_busy_timeout(busy_timeout));
        assert(ops.deep_view() =~= seq![busy_op(busy_timeout)]);
        push_ddl(&mut ops, &tables, plan.rebuilt_tables.len() > 0);
        push_lease(&mut ops, lease_id);
        push_batches(&mut ops, &plan.non_transactional_stmts);
        if views.len() > 0 || triggers.len() > 0 {
            push_lease(&mut ops, lease_id);
        }
        assert(ops.deep_view() =~= first_script(plan.deep_view(), busy_timeout, lease_id@));
        assert(ops.deep_view().len() > 0);
        begin_stage(Stage::First, ops, views, triggers)
    }

    /// The request that waits for its answer.
    pub fn request(&self) -> (r: &Action)
        ensures
            self.deep_view().script.waits(),
            r.deep_view() == self.deep_view().script.request(),
    {
        self.script.request()
    }

    /// Goes on with the answer to the request.
    pub fn advance(self, reply: Reply) -> (r: Run)
        ensures
            r.deep_view() == advanced(self.deep_view(), reply.deep_view()),
    {
        proof {
            use_type_invariant(&self);
        }
        let Execution { stage, script, views, triggers } = self;
        match script.feed(reply) {
            Fed::More(script) => Run::Ask(Execution { stage, script, views, triggers }),
            Fed::Broken(b) => abort(b),
            Fed::Complete(replies) => {
                assert(replies.deep_view().len() == replies.len());
                complete(stage, replies, views, triggers)
            },
        }
    }
}

} // verus!
