//! Straight runs of requests to a database.
//!
//! The library decides what to ask for and what to make of the answers; whoever
//! holds the connection carries the requests out, one at a time. A script is a list
//! of requests, each with a rule for its failure.

use vstd::prelude::*;

use crate::error::MigrateError;
#[allow(unused_imports)]
use crate::error::ErrorModel;
use crate::options::DestructiveChangeSet;
#[allow(unused_imports)]
use crate::options::DestructiveModel;
use crate::schema::{Capabilities, SchemaSnapshot};
#[allow(unused_imports)]
use crate::schema::SnapshotModel;
#[allow(unused_imports)]
use crate::search::contains;
use crate::search::lower_contains;
#[allow(unused_imports)]
use crate::text::lower;
use crate::text::Text;

verus! {

// ---------------------------------------------------------------------------
// Requests and answers
// ---------------------------------------------------------------------------

/// Something to do outside.
#[derive(Debug, PartialEq, Eq)]
pub enum Action {
    /// Run one statement. Answered by `Done` with the number of rows, or `Failed`.
    Execute(String),
    /// Run a statement that cannot run in a transaction.
    Batch(String),
    /// Read a value of the state table. Answered by `Text`.
    GetMeta(String),
    /// Write a value of the state table.
    SetMeta { key: String, value: String },
    /// Delete a value of the state table.
    DeleteMeta(String),
    /// Ask whether the connection refuses writes. Answered by `Number`.
    QueryOnly,
    /// Read the schema counter of the database. Answered by `Number`.
    SchemaCounter,
    /// Read the version in the table `schema_version`. Answered by `Number`.
    StoredVersion,
    /// Look for a row whose foreign key points nowhere. Answered by `Violation`.
    ForeignKeyCheck,
    /// Prolong the lease, if it is still held. Answered by `Done` with the number of
    /// rows.
    RefreshLease(String),
    /// Find out what the database can do. Answered by `Capabilities`.
    Probe,
    /// Make the wanted schema out of its text. Answered by `Schema`.
    LoadDesired,
    /// Read the schema of the database. Answered by `Schema`.
    LoadActual,
    /// Write a schema text to a file. Answered by `Done` or `IoFailed`.
    Backup { path: String, sql: String },
    /// Ask the caller's hook, if there is one. Answered by `Done` or `Rejected`.
    Hook(DestructiveChangeSet),
}

#[verifier::ext_equal]
pub enum ActionModel {
    Execute(Text),
    Batch(Text),
    GetMeta(Text),
    SetMeta { key: Text, value: Text },
    DeleteMeta(Text),
    QueryOnly,
    SchemaCounter,
    StoredVersion,
    ForeignKeyCheck,
    RefreshLease(Text),
    Probe,
    LoadDesired,
    LoadActual,
    Backup { path: Text, sql: Text },
    Hook(DestructiveModel),
}

impl DeepView for Action {
    type V = ActionModel;

    open spec fn deep_view(&self) -> ActionModel {
        match self {
            Action::Execute(s) => ActionModel::Execute(s@),
            Action::Batch(s) => ActionModel::Batch(s@),
            Action::GetMeta(k) => ActionModel::GetMeta(k@),
            Action::SetMeta { key, value } => ActionModel::SetMeta { key: key@, value: value@ },
            Action::DeleteMeta(k) => ActionModel::DeleteMeta(k@),
            Action::QueryOnly => ActionModel::QueryOnly,
            Action::SchemaCounter => ActionModel::SchemaCounter,
            Action::StoredVersion => ActionModel::StoredVersion,
            Action::ForeignKeyCheck => ActionModel::ForeignKeyCheck,
            Action::RefreshLease(id) => ActionModel::RefreshLease(id@),
            Action::Probe => ActionModel::Probe,
            Action::LoadDesired => ActionModel::LoadDesired,
            Action::LoadActual => ActionModel::LoadActual,
            Action::Backup { path, sql } => ActionModel::Backup { path: path@, sql: sql@ },
            Action::Hook(c) => ActionModel::Hook(c.deep_view()),
        }
    }
}

impl Clone for Action {
    fn clone(&self) -> (r: Self)
        ensures
            r.deep_view() == self.deep_view(),
    {
        match self {
            Action::Execute(s) => Action::Execute(s.clone()),
            Action::Batch(s) => Action::Batch(s.clone()),
            Action::GetMeta(k) => Action::GetMeta(k.clone()),
            Action::SetMeta { key, value } => Action::SetMeta {
                key: key.clone(),
                value: value.clone(),
            },
            Action::DeleteMeta(k) => Action::DeleteMeta(k.clone()),
            Action::QueryOnly => Action::QueryOnly,
            Action::SchemaCounter => Action::SchemaCounter,
            Action::StoredVersion => Action::StoredVersion,
            Action::ForeignKeyCheck => Action::ForeignKeyCheck,
            Action::RefreshLease(id) => Action::RefreshLease(id.clone()),
            Action::Probe => Action::Probe,
            Action::LoadDesired => Action::LoadDesired,
            Action::LoadActual => Action::LoadActual,
            Action::Backup { path, sql } => Action::Backup { path: path.clone(), sql: sql.clone() },
            Action::Hook(c) => Action::Hook(c.clone()),
        }
    }
}

/// What came of it.
#[derive(Debug)]
pub enum Reply {
    /// It worked; so many rows changed.
    Done(u64),
    /// The database refused, with this message.
    Failed(String),
    Text(Option<String>),
    Number(Option<i64>),
    /// A row whose foreign key points nowhere: the table, the row, the parent.
    Violation(Option<(String, i64, String)>),
    Capabilities(Capabilities),
    Schema(SchemaSnapshot),
    /// The hook refused, with this message.
    Rejected(String),
    /// The file could not be written.
    IoFailed { path: String, source: String },
}

#[verifier::ext_equal]
pub enum ReplyModel {
    Done(u64),
    Failed(Text),
    Text(Option<Text>),
    Number(Option<i64>),
    Violation(Option<(Text, i64, Text)>),
    Capabilities(Capabilities),
    Schema(SnapshotModel),
    Rejected(Text),
    IoFailed { path: Text, source: Text },
}

impl DeepView for Reply {
    type V = ReplyModel;

    open spec fn deep_view(&self) -> ReplyModel {
        match self {
            Reply::Done(n) => ReplyModel::Done(*n),
            Reply::Failed(m) => ReplyModel::Failed(m@),
            Reply::Text(t) => ReplyModel::Text(t.deep_view()),
            Reply::Number(n) => ReplyModel::Number(*n),
            Reply::Violation(v) => ReplyModel::Violation(v.deep_view()),
            Reply::Capabilities(c) => ReplyModel::Capabilities(*c),
            Reply::Schema(s) => ReplyModel::Schema(s.deep_view()),
            Reply::Rejected(m) => ReplyModel::Rejected(m@),
            Reply::IoFailed { path, source } => ReplyModel::IoFailed {
                path: path@,
                source: source@,
            },
        }
    }
}

/// Whether an answer is of the kind that the request asks for.
pub open spec fn suits(action: ActionModel, reply: ReplyModel) -> bool {
    reply is Failed || match action {
        ActionModel::GetMeta(_) => reply is Text,
        ActionModel::QueryOnly | ActionModel::SchemaCounter | ActionModel::StoredVersion => {
            reply is Number
        },
        ActionModel::ForeignKeyCheck => reply is Violation,
        ActionModel::Probe => reply is Capabilities,
        ActionModel::LoadDesired | ActionModel::LoadActual => reply is Schema,
        ActionModel::Backup { .. } => reply is Done || reply is IoFailed,
        ActionModel::Hook(_) => reply is Done || reply is Rejected,
        _ => reply is Done,
    }
}

// ---------------------------------------------------------------------------
// Scripts
// ---------------------------------------------------------------------------

/// What a failure means.
#[derive(Debug, PartialEq, Eq)]
pub enum Rule {
    /// Nothing: the answer is looked at later.
    Ignore,
    /// The run ends with the error of the database.
    Stop,
    /// The transaction is rolled back, and the run ends with the error of the database.
    Undo,
    /// The run ends with an error that names the statement and the phase.
    StopAt { stmt: String, phase: String },
    /// The transaction is rolled back, and the run ends with an error that names the
    /// statement and the phase.
    UndoAt { stmt: String, phase: String },
    /// As `UndoAt`, but a failure for want of a table or view is looked at later.
    DeferAt { stmt: String, phase: String },
    /// As `Stop`; and an answer of no rows says that the lease is lost.
    Lease,
}

#[verifier::ext_equal]
pub enum RuleModel {
    Ignore,
    Stop,
    Undo,
    StopAt { stmt: Text, phase: Text },
    UndoAt { stmt: Text, phase: Text },
    DeferAt { stmt: Text, phase: Text },
    Lease,
}

impl DeepView for Rule {
    type V = RuleModel;

    open spec fn deep_view(&self) -> RuleModel {
        match self {
            Rule::Ignore => RuleModel::Ignore,
            Rule::Stop => RuleModel::Stop,
            Rule::Undo => RuleModel::Undo,
            Rule::StopAt { stmt, phase } => RuleModel::StopAt { stmt: stmt@, phase: phase@ },
            Rule::UndoAt { stmt, phase } => RuleModel::UndoAt { stmt: stmt@, phase: phase@ },
            Rule::DeferAt { stmt, phase } => RuleModel::DeferAt { stmt: stmt@, phase: phase@ },
            Rule::Lease => RuleModel::Lease,
        }
    }
}

/// A request with the rule for its failure.
#[derive(Debug, PartialEq, Eq)]
pub struct Op {
    pub action: Action,
    pub rule: Rule,
}

#[verifier::ext_equal]
pub struct OpModel {
    pub action: ActionModel,
    pub rule: RuleModel,
}

impl DeepView for Op {
    type V = OpModel;

    open spec fn deep_view(&self) -> OpModel {
        OpModel { action: self.action.deep_view(), rule: self.rule.deep_view() }
    }
}

/// The message for a lost lease.
pub open spec fn lease_lost() -> Text {
    "Migration lease was lost or expired between execution phases. Aborting to prevent concurrent DDL corruption."@
}

/// Whether the database missed a table or a view.
pub open spec fn misses_something(message: Text) -> bool {
    contains(lower(message), "no such table"@) || contains(lower(message), "no such view"@)
}

/// Whether the database missed a table or a view.
pub fn is_missing_dependency_error(message: &str) -> (r: bool)
    ensures
        r == misses_something(message@),
{
    lower_contains(message, "no such table") || lower_contains(message, "no such view")
}

/// An error that ends a run, and whether a transaction has to be rolled back first.
#[derive(Debug)]
pub struct Break {
    pub error: MigrateError,
    pub rollback: bool,
}

#[verifier::ext_equal]
pub struct BreakModel {
    pub error: ErrorModel,
    pub rollback: bool,
}

impl DeepView for Break {
    type V = BreakModel;

    open spec fn deep_view(&self) -> BreakModel {
        BreakModel { error: self.error.deep_view(), rollback: self.rollback }
    }
}

/// What an answer to a request breaks, if anything. A row whose foreign key points
/// nowhere undoes the transaction under any rule.
pub open spec fn broken(rule: RuleModel, reply: ReplyModel) -> Option<BreakModel> {
    match reply {
        ReplyModel::Failed(m) => match rule {
            RuleModel::Ignore => None,
            RuleModel::Stop | RuleModel::Lease => Some(
                BreakModel { error: ErrorModel::Turso(m), rollback: false },
            ),
            RuleModel::Undo => Some(BreakModel { error: ErrorModel::Turso(m), rollback: true }),
            RuleModel::StopAt { stmt, phase } => Some(
                BreakModel {
                    error: ErrorModel::Statement { stmt, source: m, phase },
                    rollback: false,
                },
            ),
            RuleModel::UndoAt { stmt, phase } => Some(
                BreakModel {
                    error: ErrorModel::Statement { stmt, source: m, phase },
                    rollback: true,
                },
            ),
            RuleModel::DeferAt { stmt, phase } => if misses_something(m) {
                None
            } else {
                Some(
                    BreakModel {
                        error: ErrorModel::Statement { stmt, source: m, phase },
                        rollback: true,
                    },
                )
            },
        },
        ReplyModel::Violation(Some(v)) => Some(
            BreakModel {
                error: ErrorModel::ForeignKeyViolation { table: v.0, rowid: v.1, parent: v.2 },
                rollback: true,
            },
        ),
        ReplyModel::Done(n) => if rule == RuleModel::Lease && n == 0 {
            Some(BreakModel { error: ErrorModel::Schema(lease_lost()), rollback: false })
        } else {
            None
        },
        ReplyModel::IoFailed { path, source } => Some(
            BreakModel { error: ErrorModel::Io { path, source }, rollback: false },
        ),
        _ => None,
    }
}

/// What an answer to a request breaks, if anything.
pub fn breakage(rule: &Rule, reply: &Reply) -> (r: Option<Break>)
    ensures
        r.deep_view() == broken(rule.deep_view(), reply.deep_view()),
{
    match reply {
        Reply::Failed(m) => match rule {
            Rule::Ignore => None,
            Rule::Stop | Rule::Lease => Some(
                Break { error: MigrateError::Turso(m.clone()), rollback: false },
            ),
            Rule::Undo => Some(Break { error: MigrateError::Turso(m.clone()), rollback: true }),
            Rule::StopAt { stmt, phase } => Some(
                Break { error: statement_error(stmt, m, phase), rollback: false },
            ),
            Rule::UndoAt { stmt, phase } => Some(
                Break { error: statement_error(stmt, m, phase), rollback: true },
            ),
            Rule::DeferAt { stmt, phase } => if is_missing_dependency_error(m.as_str()) {
                None
            } else {
                Some(Break { error: statement_error(stmt, m, phase), rollback: true })
            },
        },
        Reply::Violation(Some(v)) => Some(
            Break {
                error: MigrateError::ForeignKeyViolation {
                    table: v.0.clone(),
                    rowid: v.1,
                    parent: v.2.clone(),
                },
                rollback: true,
            },
        ),
        Reply::Done(n) => match rule {
            Rule::Lease => if *n == 0 {
                Some(
                    Break {
                        error: MigrateError::Schema(
                            "Migration lease was lost or expired between execution phases. Aborting to prevent concurrent DDL corruption.".to_owned(),
                        ),
                        rollback: false,
                    },
                )
            } else {
                None
            },
            _ => None,
        },
        Reply::IoFailed { path, source } => Some(
            Break {
                error: MigrateError::Io { path: path.clone(), source: source.clone() },
                rollback: false,
            },
        ),
        _ => None,
    }
}

fn statement_error(stmt: &String, source: &String, phase: &String) -> (r: MigrateError)
    ensures
        r.deep_view() == (ErrorModel::Statement { stmt: stmt@, source: source@, phase: phase@ }),
{
    MigrateError::Statement { stmt: stmt.clone(), source: source.clone(), phase: phase.clone() }
}

/// A script that is being run: it always has a request that waits for its answer.
#[derive(Debug)]
pub struct Script {
    ops: Vec<Op>,
    /// The answers to the first requests.
    replies: Vec<Reply>,
}

#[verifier::ext_equal]
pub struct ScriptModel {
    pub ops: Seq<OpModel>,
    pub replies: Seq<ReplyModel>,
}

impl DeepView for Script {
    type V = ScriptModel;

    closed spec fn deep_view(&self) -> ScriptModel {
        ScriptModel { ops: self.ops.deep_view(), replies: self.replies.deep_view() }
    }
}

impl ScriptModel {
    /// The request that waits for its answer.
    pub open spec fn request(self) -> ActionModel {
        self.ops[self.replies.len() as int].action
    }

    /// Whether a request waits for its answer.
    pub open spec fn waits(self) -> bool {
        self.replies.len() < self.ops.len()
    }
}

/// What an answer makes of a script.
#[derive(Debug)]
pub enum Fed {
    /// There is a next request.
    More(Script),
    /// The answer breaks the script.
    Broken(Break),
    /// All requests are answered.
    Complete(Vec<Reply>),
}

#[verifier::ext_equal]
pub enum FedModel {
    More(ScriptModel),
    Broken(BreakModel),
    Complete(Seq<ReplyModel>),
}

impl DeepView for Fed {
    type V = FedModel;

    open spec fn deep_view(&self) -> FedModel {
        match self {
            Fed::More(s) => FedModel::More(s.deep_view()),
            Fed::Broken(b) => FedModel::Broken(b.deep_view()),
            Fed::Complete(r) => FedModel::Complete(r.deep_view()),
        }
    }
}

/// A script of which nothing is answered yet.
pub open spec fn fresh(ops: Seq<OpModel>) -> ScriptModel {
    ScriptModel { ops, replies: Seq::empty() }
}

/// What an answer makes of a script.
pub open spec fn fed(s: ScriptModel, reply: ReplyModel) -> FedModel {
    match broken(s.ops[s.replies.len() as int].rule, reply) {
        Some(b) => FedModel::Broken(b),
        None => {
            let replies = s.replies.push(reply);
            if replies.len() < s.ops.len() {
                FedModel::More(ScriptModel { ops: s.ops, replies })
            } else {
                FedModel::Complete(replies)
            }
        },
    }
}

impl Script {
    #[verifier::type_invariant]
    spec fn well_formed(self) -> bool {
        self.replies.len() < self.ops.len()
    }

    pub fn new(ops: Vec<Op>) -> (r: Self)
        requires
            ops.len() > 0,
        ensures
            r.deep_view() == fresh(ops.deep_view()),
    {
        let replies: Vec<Reply> = Vec::new();
        assert(replies.deep_view() =~= Seq::empty());
        Script { ops, replies }
    }

    /// A script of one request.
    pub fn single(action: Action, rule: Rule) -> (r: Self)
        ensures
            r.deep_view() == fresh(seq![op(action.deep_view(), rule.deep_view())]),
    {
        let ghost only = op(action.deep_view(), rule.deep_view());
        let mut ops: Vec<Op> = Vec::new();
        ops.push(Op { action, rule });
        assert(ops.deep_view() =~= seq![only]);
        Script::new(ops)
    }

    /// The request that waits for its answer.
    pub fn request(&self) -> (r: &Action)
        ensures
            self.deep_view().waits(),
            r.deep_view() == self.deep_view().request(),
    {
        proof {
            use_type_invariant(self);
        }
        let k: usize = self.replies.len();
        assert(self.deep_view().ops[k as int] == self.ops@[k as int].deep_view());
        &self.ops[k].action
    }

    /// Goes on with the answer to the request.
    pub fn feed(self, reply: Reply) -> (r: Fed)
        ensures
            self.deep_view().waits(),
            r.deep_view() == fed(self.deep_view(), reply.deep_view()),
    {
        let ghost model = self.deep_view();
        proof {
            use_type_invariant(&self);
        }
        let Script { ops, replies } = self;
        let k: usize = replies.len();
        assert(model.ops[k as int] == ops@[k as int].deep_view());
        if let Some(b) = breakage(&ops[k].rule, &reply) {
            return Fed::Broken(b);
        }
        let mut replies = replies;
        let ghost before = replies.deep_view();
        let ghost answer = reply.deep_view();
        replies.push(reply);
        assert(replies.deep_view() =~= before.push(answer));
        if k + 1 < ops.len() {
            Fed::More(Script { ops, replies })
        } else {
            Fed::Complete(replies)
        }
    }
}

// ---------------------------------------------------------------------------
// Transactions
// ---------------------------------------------------------------------------

pub open spec fn begin_action() -> ActionModel {
    ActionModel::Execute("BEGIN IMMEDIATE"@)
}

pub open spec fn commit_action() -> ActionModel {
    ActionModel::Execute("COMMIT"@)
}

pub open spec fn rollback_action() -> ActionModel {
    ActionModel::Execute("ROLLBACK"@)
}

pub open spec fn op(action: ActionModel, rule: RuleModel) -> OpModel {
    OpModel { action, rule }
}

pub open spec fn begin_op() -> OpModel {
    op(begin_action(), RuleModel::Stop)
}

pub open spec fn commit_op() -> OpModel {
    op(commit_action(), RuleModel::Undo)
}

/// The statements of a transaction, each with the phase it belongs to.
pub open spec fn undo_ops(stmts: Seq<Text>, phase: Text) -> Seq<OpModel> {
    Seq::new(
        stmts.len(),
        |i: int|
            op(ActionModel::Execute(stmts[i]), RuleModel::UndoAt { stmt: stmts[i], phase }),
    )
}

/// A transaction of the statements, or nothing where there are none.
pub open spec fn transaction(stmts: Seq<Text>, phase: Text) -> Seq<OpModel> {
    if stmts.len() == 0 {
        Seq::empty()
    } else {
        seq![begin_op()] + undo_ops(stmts, phase) + seq![commit_op()]
    }
}

pub fn execute_op(sql: &str, rule: Rule) -> (r: Op)
    ensures
        r.deep_view() == op(ActionModel::Execute(sql@), rule.deep_view()),
{
    Op { action: Action::Execute(sql.to_owned()), rule }
}

/// Appends the start of a transaction.
pub fn push_begin(ops: &mut Vec<Op>)
    ensures
        final(ops).deep_view() == old(ops).deep_view() + seq![begin_op()],
{
    let ghost before = ops.deep_view();
    ops.push(execute_op("BEGIN IMMEDIATE", Rule::Stop));
    assert(ops.deep_view() =~= before + seq![begin_op()]);
}

/// Appends the end of a transaction.
pub fn push_commit(ops: &mut Vec<Op>)
    ensures
        final(ops).deep_view() == old(ops).deep_view() + seq![commit_op()],
{
    let ghost before = ops.deep_view();
    ops.push(execute_op("COMMIT", Rule::Undo));
    assert(ops.deep_view() =~= before + seq![commit_op()]);
}

/// Appends the statements of a transaction.
pub fn push_undo_ops(ops: &mut Vec<Op>, stmts: &Vec<String>, phase: &str)
    ensures
        final(ops).deep_view() == old(ops).deep_view() + undo_ops(stmts.deep_view(), phase@),
{
    let ghost before = ops.deep_view();
    let ghost all = undo_ops(stmts.deep_view(), phase@);
    let mut i: usize = 0;
    assert(before + all.take(0) =~= before);
    while i < stmts.len()
        invariant
            i <= stmts.len(),
            all == undo_ops(stmts.deep_view(), phase@),
            ops.deep_view() == before + all.take(i as int),
        decreases stmts.len() - i,
    {
        let ghost now = ops.deep_view();
        ops.push(
            execute_op(
                stmts[i].as_str(),
                Rule::UndoAt { stmt: stmts[i].clone(), phase: phase.to_owned() },
            ),
        );
        assert(ops.deep_view() =~= now.push(all[i as int]));
        assert(ops.deep_view() =~= before + all.take(i + 1));
        i += 1;
    }
    assert(all.take(i as int) =~= all);
}

/// Appends a transaction of the statements, or nothing where there are none.
pub fn push_transaction(ops: &mut Vec<Op>, stmts: &Vec<String>, phase: &str)
    ensures
        final(ops).deep_view() == old(ops).deep_view() + transaction(stmts.deep_view(), phase@),
{
    let ghost before = ops.deep_view();
    if stmts.len() == 0 {
        assert(before + Seq::<OpModel>::empty() =~= before);
        return ;
    }
    push_begin(ops);
    push_undo_ops(ops, stmts, phase);
    push_commit(ops);
    assert(ops.deep_view() =~= before + transaction(stmts.deep_view(), phase@));
}

/// Whether a transaction is open behind the first `n` requests, if all of them work.
pub open spec fn open_after(ops: Seq<OpModel>, n: int) -> bool
    decreases n,
{
    if n <= 0 {
        false
    } else if ops[n - 1].action == begin_action() {
        true
    } else if ops[n - 1].action == commit_action() {
        false
    } else {
        open_after(ops, n - 1)
    }
}

/// Whether a failure under the rule rolls a transaction back.
pub open spec fn undoes(rule: RuleModel) -> bool {
    rule is Undo || rule is UndoAt || rule is DeferAt
}

/// Whether a rule may stand at a request: inside a transaction each failure that ends
/// the run rolls back, and outside none does.
pub open spec fn rule_fits(o: OpModel, open: bool) -> bool {
    &&& o.action != rollback_action()
    &&& if open {
        &&& undoes(o.rule) || o.rule is Ignore
        &&& o.action == commit_action() ==> o.rule is Undo || o.rule is UndoAt
        &&& o.action != begin_action()
        &&& !(o.action is Backup)
    } else {
        &&& !undoes(o.rule)
        &&& o.action == begin_action() ==> o.rule is Stop || o.rule is StopAt
        &&& o.action != commit_action()
        &&& !(o.action is ForeignKeyCheck)
    }
}

/// Whether the script opens and closes its transactions properly.
pub open spec fn balanced(ops: Seq<OpModel>) -> bool {
    &&& !open_after(ops, ops.len() as int)
    &&& forall|k: int|
        0 <= k < ops.len() ==> rule_fits(#[trigger] ops[k], open_after(ops, k))
}

pub proof fn lemma_open_after_prefix(a: Seq<OpModel>, b: Seq<OpModel>, n: int)
    requires
        0 <= n <= a.len(),
    ensures
        open_after(a + b, n) == open_after(a, n),
    decreases n,
{
    if n > 0 {
        lemma_open_after_prefix(a, b, n - 1);
        assert((a + b)[n - 1] == a[n - 1]);
    }
}

pub proof fn lemma_open_after_suffix(a: Seq<OpModel>, b: Seq<OpModel>, n: int)
    requires
        !open_after(a, a.len() as int),
        0 <= n <= b.len(),
    ensures
        open_after(a + b, a.len() + n) == open_after(b, n),
    decreases n,
{
    if n > 0 {
        lemma_open_after_suffix(a, b, n - 1);
        assert((a + b)[a.len() + n - 1] == b[n - 1]);
    } else {
        lemma_open_after_prefix(a, b, a.len() as int);
    }
}

/// Whether a transaction of the database is open behind a request, where `open` says
/// whether one was before it. A transaction that is rolled back is closed in any case.
pub open spec fn open_behind(open: bool, action: ActionModel, reply: ReplyModel) -> bool {
    if action == rollback_action() {
        false
    } else if reply is Failed {
        open
    } else if action == begin_action() {
        true
    } else if action == commit_action() {
        false
    } else {
        open
    }
}

/// Scripts that are balanced each are balanced one after the other.
pub proof fn lemma_balanced_join(a: Seq<OpModel>, b: Seq<OpModel>)
    requires
        balanced(a),
        balanced(b),
    ensures
        balanced(a + b),
{
    let s = a + b;
    lemma_open_after_suffix(a, b, b.len() as int);
    assert forall|k: int| 0 <= k < s.len() implies rule_fits(#[trigger] s[k], open_after(s, k)) by {
        if k < a.len() {
            lemma_open_after_prefix(a, b, k);
            assert(s[k] == a[k]);
        } else {
            lemma_open_after_suffix(a, b, k - a.len());
            assert(s[k] == b[k - a.len()]);
        }
    }
}

/// A single request outside a transaction is balanced.
pub proof fn lemma_balanced_single(o: OpModel)
    requires
        o.action != begin_action(),
        rule_fits(o, false),
    ensures
        balanced(seq![o]),
{
    assert(seq![o].len() == 1);
    assert(!open_after(seq![o], 0));
}

/// A transaction is balanced, whatever statements it has, but for those that end or
/// begin one themselves.
pub proof fn lemma_transaction_balanced(stmts: Seq<Text>, phase: Text)
    requires
        plain_statements(stmts),
    ensures
        balanced(transaction(stmts, phase)),
{
    if stmts.len() > 0 {
        let s = transaction(stmts, phase);
        let n = stmts.len() as int;
        lemma_begin_is_not_commit();
        assert(s.len() == n + 2);
        assert(s[0] == begin_op());
        assert(s[n + 1] == commit_op());
        assert(!open_after(s, 0));
        assert(open_after(s, 1));
        assert forall|k: int| 1 <= k <= n implies (#[trigger] s[k]) == op(
            ActionModel::Execute(stmts[k - 1]),
            RuleModel::UndoAt { stmt: stmts[k - 1], phase },
        ) by {}
        lemma_open_through(s, stmts, phase, n);
        assert forall|k: int| 0 <= k < s.len() implies rule_fits(
            #[trigger] s[k],
            open_after(s, k),
        ) by {
            if k == 0 {
            } else if k <= n {
                lemma_open_through(s, stmts, phase, k - 1);
                assert(stmts[k - 1] != "COMMIT"@);
            }
        }
    }
}

pub proof fn lemma_begin_is_not_commit()
    ensures
        begin_action() != commit_action(),
        begin_action() != rollback_action(),
        commit_action() != rollback_action(),
{
    reveal_strlit("BEGIN IMMEDIATE");
    reveal_strlit("COMMIT");
    reveal_strlit("ROLLBACK");
    assert("BEGIN IMMEDIATE"@.len() == 15);
    assert("COMMIT"@.len() == 6);
    assert("ROLLBACK"@.len() == 8);
}

/// Whether no statement begins or ends a transaction by itself.
pub open spec fn plain_statements(stmts: Seq<Text>) -> bool {
    forall|i: int|
        0 <= i < stmts.len() ==> #[trigger] stmts[i] != "BEGIN IMMEDIATE"@ && stmts[i] != "COMMIT"@
            && stmts[i] != "ROLLBACK"@
}

proof fn lemma_open_through(s: Seq<OpModel>, stmts: Seq<Text>, phase: Text, k: int)
    requires
        plain_statements(stmts),
        s == transaction(stmts, phase),
        stmts.len() > 0,
        0 <= k <= stmts.len(),
    ensures
        open_after(s, 1 + k),
    decreases k,
{
    if k == 0 {
        assert(s[0] == begin_op());
    } else {
        lemma_open_through(s, stmts, phase, k - 1);
        assert(s[k].action == ActionModel::Execute(stmts[k - 1]));
        assert(stmts[k - 1] != "COMMIT"@);
    }
}

} // verus!
