//! The way to a migration: who may write, what has changed, and who holds the lease.

use vstd::prelude::*;

use crate::error::MigrateError;
#[allow(unused_imports)]
use crate::error::ErrorModel;
#[allow(unused_imports)]
use crate::execute::busy_op;
use crate::execute::set_busy_timeout;
#[allow(unused_imports)]
use crate::format::{decimal, parsed, signed_decimal};
use crate::format::{decimal_of, glue2, glue3, parse_number, signed_decimal_of};
use crate::hash::hash_schema;
#[allow(unused_imports)]
use crate::hash::schema_digest;
use crate::options::ConvergeOptions;
#[allow(unused_imports)]
use crate::options::OptionsModel;
#[allow(unused_imports)]
use crate::script::{
    begin_op, commit_action, fed, fresh, op, rollback_action, ActionModel, FedModel, OpModel,
    ReplyModel, RuleModel, ScriptModel,
};
use crate::script::{execute_op, Action, Fed, Op, Reply, Rule, Script};
#[allow(unused_imports)]
use crate::search::contains;
use crate::search::lower_contains;
use crate::text::{is_blank, str_equal, Text};
#[allow(unused_imports)]
use crate::text::{lower, trim};

verus! {

// ---------------------------------------------------------------------------
// What is asked for
// ---------------------------------------------------------------------------

/// A convergence that was asked for.
#[derive(Debug)]
pub struct Setup {
    pub schema_sql: String,
    pub schema_hash: String,
    pub options: ConvergeOptions,
    pub process_id: u32,
}

#[verifier::ext_equal]
pub struct SetupModel {
    pub schema_sql: Text,
    pub schema_hash: Text,
    pub options: OptionsModel,
    pub process_id: u32,
}

impl DeepView for Setup {
    type V = SetupModel;

    open spec fn deep_view(&self) -> SetupModel {
        SetupModel {
            schema_sql: self.schema_sql@,
            schema_hash: self.schema_hash@,
            options: self.options.deep_view(),
            process_id: self.process_id,
        }
    }
}

impl Setup {
    /// The convergence to a schema text, by a process.
    pub fn new(schema_sql: &str, options: ConvergeOptions, process_id: u32) -> (r: Self)
        ensures
            r.deep_view() == (SetupModel {
                schema_sql: schema_sql@,
                schema_hash: schema_digest(schema_sql@),
                options: options.deep_view(),
                process_id,
            }),
    {
        Setup {
            schema_sql: schema_sql.to_owned(),
            schema_hash: hash_schema(schema_sql),
            options,
            process_id,
        }
    }
}

// ---------------------------------------------------------------------------
// Answers
// ---------------------------------------------------------------------------

/// The value in an answer to a read of the state table.
pub open spec fn said(r: ReplyModel) -> Option<Text> {
    match r {
        ReplyModel::Text(t) => t,
        _ => None,
    }
}

/// The number in an answer.
pub open spec fn counted(r: ReplyModel) -> Option<i64> {
    match r {
        ReplyModel::Number(n) => n,
        _ => None,
    }
}

/// Whether the connection said that it refuses writes.
pub open spec fn refuses_writes(r: ReplyModel) -> bool {
    match counted(r) {
        Some(n) => n != 0,
        None => false,
    }
}

pub fn reply_text(r: &Reply) -> (t: Option<&String>)
    ensures
        t.deep_view() == said(r.deep_view()),
{
    match r {
        Reply::Text(Some(t)) => Some(t),
        _ => None,
    }
}

pub fn reply_number(r: &Reply) -> (n: Option<i64>)
    ensures
        n == counted(r.deep_view()),
{
    match r {
        Reply::Number(n) => *n,
        _ => None,
    }
}

/// Whether a connection refuses writes, from what it says of `query_only`.
pub fn refuses_writes_now(value: Option<i64>) -> (r: bool)
    ensures
        r == (value matches Some(v) && v != 0),
{
    match value {
        Some(n) => n != 0,
        None => false,
    }
}

fn reply_refuses_writes(r: &Reply) -> (b: bool)
    ensures
        b == refuses_writes(r.deep_view()),
{
    refuses_writes_now(reply_number(r))
}

/// Whether an answer holds exactly the text.
pub fn reply_is(r: &Reply, t: &str) -> (b: bool)
    ensures
        b == (said(r.deep_view()) == Some(t@)),
{
    match reply_text(r) {
        Some(s) => str_equal(s.as_str(), t),
        None => false,
    }
}

/// Whether the message of an error says that the database cannot be written.
pub open spec fn blames_read_only(e: ErrorModel) -> bool {
    contains(lower(e.message()), "readonly"@) || contains(lower(e.message()), "read-only"@)
}

/// Whether the message of an error says that the database cannot be written.
pub fn is_read_only_error(err: &MigrateError) -> (r: bool)
    ensures
        r == blames_read_only(err.deep_view()),
{
    let m = err.to_string();
    lower_contains(m.as_str(), "readonly") || lower_contains(m.as_str(), "read-only")
}

// ---------------------------------------------------------------------------
// The lease
// ---------------------------------------------------------------------------

/// How long a lease holds, in seconds.
pub const LEASE_TTL_SECS: u64 = 300;

/// The name under which a process takes a lease at a time.
pub open spec fn lease_name(process_id: u32, now: u64) -> Text {
    decimal(process_id as nat) + "_"@ + decimal(now as nat)
}

/// The name under which a process takes a lease at a time.
pub fn lease_id(process_id: u32, now: u64) -> (r: String)
    ensures
        r@ == lease_name(process_id, now),
{
    let p = decimal_of(process_id as u64);
    let n = decimal_of(now);
    glue3(p.as_str(), "_", n.as_str())
}

/// When a lease that is taken now runs out.
pub open spec fn expires(now: u64) -> u64 {
    if now > u64::MAX - LEASE_TTL_SECS {
        u64::MAX
    } else {
        (now + LEASE_TTL_SECS) as u64
    }
}

/// When a lease that is taken now runs out.
pub fn lease_expiry(now: u64) -> (r: u64)
    ensures
        r == expires(now),
{
    if now > u64::MAX - LEASE_TTL_SECS {
        u64::MAX
    } else {
        now + LEASE_TTL_SECS
    }
}

/// The statement that gives a lease more time: it writes the new expiry `?1` where the
/// stored one is later than the time `?2` and the lease is still that of the owner `?3`.
pub fn lease_refresh_statement() -> (r: &'static str)
    ensures
        r@
            == "UPDATE _schema_meta SET value = ?1 WHERE key = 'migration_lease_until' AND CAST(value AS INTEGER) > ?2 AND EXISTS (SELECT 1 FROM _schema_meta owner WHERE owner.key = 'migration_owner' AND owner.value = ?3)"@,
{
    "UPDATE _schema_meta SET value = ?1 WHERE key = 'migration_lease_until' AND CAST(value AS INTEGER) > ?2 AND EXISTS (SELECT 1 FROM _schema_meta owner WHERE owner.key = 'migration_owner' AND owner.value = ?3)"
}

/// The time in a stored expiry; 0 where it cannot be read.
pub open spec fn stored_expiry(t: Text) -> nat {
    match parsed(t, u64::MAX as nat) {
        Some(n) => n,
        None => 0,
    }
}

/// The lease that is held at a time, if any: its owner, and for how many seconds.
pub open spec fn held(owner: Option<Text>, until: Option<Text>, now: u64) -> Option<(Text, nat)> {
    match (owner, until) {
        (Some(o), Some(t)) => if stored_expiry(t) > now {
            Some((o, (stored_expiry(t) - now) as nat))
        } else {
            None
        },
        _ => None,
    }
}

/// The error that says who holds the lease, where someone does.
pub open spec fn busy(owner: Option<Text>, until: Option<Text>, now: u64) -> Option<ErrorModel> {
    match held(owner, until, now) {
        Some((o, secs)) => Some(
            ErrorModel::MigrationBusy { owner: o, remaining_secs: secs as u64 },
        ),
        None => None,
    }
}

/// The error that says who holds the lease, where someone does.
pub fn check_lease(owner: Option<&String>, until: Option<&String>, now: u64) -> (r: Option<
    MigrateError,
>)
    ensures
        r.deep_view() == busy(owner.deep_view(), until.deep_view(), now),
{
    match (owner, until) {
        (Some(o), Some(t)) => {
            let expiry: u64 = match parse_number(t.as_str(), u64::MAX) {
                Some(n) => n,
                None => 0,
            };
            if expiry > now {
                Some(
                    MigrateError::MigrationBusy { owner: o.clone(), remaining_secs: expiry - now },
                )
            } else {
                None
            }
        },
        _ => None,
    }
}

// ---------------------------------------------------------------------------
// Data migrations
// ---------------------------------------------------------------------------

/// The key under which a data migration is remembered.
pub open spec fn migration_key(id: Text) -> Text {
    "data_migration:"@ + id
}

/// The key under which a data migration is remembered.
pub fn data_migration_key(id: &str) -> (r: String)
    ensures
        r@ == migration_key(id@),
{
    glue2("data_migration:", id)
}

pub open spec fn blank_id() -> ErrorModel {
    ErrorModel::Schema("data migration id must not be empty"@)
}

pub fn blank_id_error() -> (r: MigrateError)
    ensures
        r.deep_view() == blank_id(),
{
    MigrateError::Schema("data migration id must not be empty".to_owned())
}

// ---------------------------------------------------------------------------
// The entry
// ---------------------------------------------------------------------------

/// Where the entry is.
#[derive(Debug)]
pub enum EntryStage {
    /// Asking whether the connection refuses writes.
    ReadOnly,
    /// Making the state table.
    Bootstrap,
    /// The state table could not be made: asking again whether writes are refused.
    Recheck(MigrateError),
    /// Reading the stored fingerprint and the mark of a migration in progress.
    Markers,
    /// Asking whether a data migration has been applied.
    Pending { index: usize, unchanged: bool, recovering: bool },
    /// Reading the schema counter of the database.
    Counter,
    /// Reading the stored schema counter.
    Drift(i64),
    /// Reading the lease, in a transaction.
    Lease { recovering: bool, now: u64 },
    /// Someone else holds the lease: leaving the transaction.
    Held(MigrateError),
    /// Taking the lease.
    Taking { recovering: bool, now: u64 },
}

#[verifier::ext_equal]
pub enum EntryStageModel {
    ReadOnly,
    Bootstrap,
    Recheck(ErrorModel),
    Markers,
    Pending { index: nat, unchanged: bool, recovering: bool },
    Counter,
    Drift(i64),
    Lease { recovering: bool, now: u64 },
    Held(ErrorModel),
    Taking { recovering: bool, now: u64 },
}

impl DeepView for EntryStage {
    type V = EntryStageModel;

    open spec fn deep_view(&self) -> EntryStageModel {
        match self {
            EntryStage::ReadOnly => EntryStageModel::ReadOnly,
            EntryStage::Bootstrap => EntryStageModel::Bootstrap,
            EntryStage::Recheck(e) => EntryStageModel::Recheck(e.deep_view()),
            EntryStage::Markers => EntryStageModel::Markers,
            EntryStage::Pending { index, unchanged, recovering } => EntryStageModel::Pending {
                index: *index as nat,
                unchanged: *unchanged,
                recovering: *recovering,
            },
            EntryStage::Counter => EntryStageModel::Counter,
            EntryStage::Drift(n) => EntryStageModel::Drift(*n),
            EntryStage::Lease { recovering, now } => EntryStageModel::Lease {
                recovering: *recovering,
                now: *now,
            },
            EntryStage::Held(e) => EntryStageModel::Held(e.deep_view()),
            EntryStage::Taking { recovering, now } => EntryStageModel::Taking {
                recovering: *recovering,
                now: *now,
            },
        }
    }
}

/// How many requests a stage makes.
pub open spec fn entry_requests(stage: EntryStageModel) -> nat {
    match stage {
        EntryStageModel::Markers => 2,
        EntryStageModel::Lease { .. } | EntryStageModel::Taking { .. } => 4,
        _ => 1,
    }
}

/// A convergence before its migration. A request waits for its answer.
#[derive(Debug)]
pub struct Entry {
    stage: EntryStage,
    script: Script,
}

#[verifier::ext_equal]
pub struct EntryModel {
    pub stage: EntryStageModel,
    pub script: ScriptModel,
}

impl DeepView for Entry {
    type V = EntryModel;

    closed spec fn deep_view(&self) -> EntryModel {
        EntryModel { stage: self.stage.deep_view(), script: self.script.deep_view() }
    }
}

/// What becomes of a convergence at the entry.
#[derive(Debug)]
pub enum Pass {
    Ask(Entry),
    /// It ends with an error.
    Refused(MigrateError),
    /// There is nothing to do.
    Unchanged,
    /// The migration may start, under the lease.
    Admitted { lease: String, recovering: bool },
}

#[verifier::ext_equal]
pub enum PassModel {
    Ask(EntryModel),
    Refused(ErrorModel),
    Unchanged,
    Admitted { lease: Text, recovering: bool },
}

impl DeepView for Pass {
    type V = PassModel;

    open spec fn deep_view(&self) -> PassModel {
        match self {
            Pass::Ask(g) => PassModel::Ask(g.deep_view()),
            Pass::Refused(e) => PassModel::Refused(e.deep_view()),
            Pass::Unchanged => PassModel::Unchanged,
            Pass::Admitted { lease, recovering } => PassModel::Admitted {
                lease: lease@,
                recovering: *recovering,
            },
        }
    }
}

pub open spec fn entry_at(stage: EntryStageModel, ops: Seq<OpModel>) -> PassModel {
    PassModel::Ask(EntryModel { stage, script: fresh(ops) })
}

pub open spec fn getting(key: Text, rule: RuleModel) -> OpModel {
    op(ActionModel::GetMeta(key), rule)
}

pub open spec fn setting(key: Text, value: Text, rule: RuleModel) -> OpModel {
    op(ActionModel::SetMeta { key, value }, rule)
}

pub open spec fn deleting(key: Text, rule: RuleModel) -> OpModel {
    op(ActionModel::DeleteMeta(key), rule)
}

/// The statement that makes the state table.
pub open spec fn bootstrap_statement() -> Text {
    "CREATE TABLE IF NOT EXISTS _schema_meta (key TEXT PRIMARY KEY, value TEXT NOT NULL)"@
}

/// The start of a convergence.
pub open spec fn entry_start() -> PassModel {
    entry_at(EntryStageModel::ReadOnly, seq![op(ActionModel::QueryOnly, RuleModel::Stop)])
}

/// The lease is asked for at the time `now`.
pub open spec fn ask_lease(setup: SetupModel, recovering: bool, now: u64) -> PassModel {
    entry_at(
        EntryStageModel::Lease { recovering, now },
        seq![
            busy_op(setup.options.busy_timeout),
            begin_op(),
            getting("migration_owner"@, RuleModel::Stop),
            getting("migration_lease_until"@, RuleModel::Stop),
        ],
    )
}

/// What follows once it is known whether a data migration is pending.
pub open spec fn entry_decided(
    setup: SetupModel,
    pending: bool,
    unchanged: bool,
    recovering: bool,
    now: u64,
) -> PassModel {
    if unchanged && !pending {
        entry_at(
            EntryStageModel::Counter,
            seq![op(ActionModel::SchemaCounter, RuleModel::Ignore)],
        )
    } else {
        ask_lease(setup, recovering, now)
    }
}

/// The data migrations from `index` on are asked for, one by one.
pub open spec fn entry_pending(
    setup: SetupModel,
    index: nat,
    unchanged: bool,
    recovering: bool,
    now: u64,
) -> PassModel {
    let migrations = setup.options.data_migrations;
    if index >= migrations.len() {
        entry_decided(setup, false, unchanged, recovering, now)
    } else if trim(migrations[index as int].id).len() == 0 {
        PassModel::Refused(blank_id())
    } else {
        entry_at(
            EntryStageModel::Pending { index, unchanged, recovering },
            seq![getting(migration_key(migrations[index as int].id), RuleModel::Stop)],
        )
    }
}

/// What follows a stage whose requests are answered.
pub open spec fn entry_completed(
    setup: SetupModel,
    stage: EntryStageModel,
    replies: Seq<ReplyModel>,
    now: u64,
) -> PassModel {
    match stage {
        EntryStageModel::ReadOnly => if refuses_writes(replies[0]) {
            PassModel::Refused(ErrorModel::ReadOnly)
        } else {
            entry_at(
                EntryStageModel::Bootstrap,
                seq![op(ActionModel::Execute(bootstrap_statement()), RuleModel::Ignore)],
            )
        },
        EntryStageModel::Bootstrap => match replies[0] {
            ReplyModel::Failed(m) => entry_at(
                EntryStageModel::Recheck(ErrorModel::Turso(m)),
                seq![op(ActionModel::QueryOnly, RuleModel::Ignore)],
            ),
            _ => entry_at(
                EntryStageModel::Markers,
                seq![
                    getting("schema_hash"@, RuleModel::Stop),
                    getting("migration_in_progress"@, RuleModel::Stop),
                ],
            ),
        },
        EntryStageModel::Recheck(e) => if refuses_writes(replies[0]) || blames_read_only(e) {
            PassModel::Refused(ErrorModel::ReadOnly)
        } else {
            PassModel::Refused(e)
        },
        EntryStageModel::Markers => {
            let recovering = said(replies[1]) == Some("1"@);
            let unchanged = said(replies[0]) == Some(setup.schema_hash) && !recovering;
            entry_pending(setup, 0, unchanged, recovering, now)
        },
        EntryStageModel::Pending { index, unchanged, recovering } => if said(replies[0]) is None {
            entry_decided(setup, true, unchanged, recovering, now)
        } else {
            entry_pending(setup, index + 1, unchanged, recovering, now)
        },
        EntryStageModel::Counter => match counted(replies[0]) {
            Some(n) => entry_at(
                EntryStageModel::Drift(n),
                seq![getting("sqlite_schema_version"@, RuleModel::Stop)],
            ),
            None => PassModel::Unchanged,
        },
        EntryStageModel::Drift(n) => if said(replies[0]) == Some(signed_decimal(n as int)) {
            PassModel::Unchanged
        } else {
            ask_lease(setup, false, now)
        },
        EntryStageModel::Lease { recovering, now: then } => match busy(
            said(replies[2]),
            said(replies[3]),
            then,
        ) {
            Some(e) => entry_at(
                EntryStageModel::Held(e),
                seq![op(rollback_action(), RuleModel::Ignore)],
            ),
            None => entry_at(
                EntryStageModel::Taking { recovering, now: then },
                seq![
                    setting("migration_owner"@, lease_name(setup.process_id, then), RuleModel::Stop),
                    setting(
                        "migration_lease_until"@,
                        decimal(expires(then) as nat),
                        RuleModel::Stop,
                    ),
                    setting("migration_in_progress"@, "1"@, RuleModel::Stop),
                    op(commit_action(), RuleModel::Stop),
                ],
            ),
        },
        EntryStageModel::Held(e) => PassModel::Refused(e),
        EntryStageModel::Taking { recovering, now: then } => PassModel::Admitted {
            lease: lease_name(setup.process_id, then),
            recovering,
        },
    }
}

/// What an answer leads to, at the time `now`.
pub open spec fn entry_advanced(
    setup: SetupModel,
    g: EntryModel,
    reply: ReplyModel,
    now: u64,
) -> PassModel {
    match fed(g.script, reply) {
        FedModel::More(script) => PassModel::Ask(EntryModel { script, ..g }),
        FedModel::Broken(b) => PassModel::Refused(b.error),
        FedModel::Complete(replies) => entry_completed(setup, g.stage, replies, now),
    }
}

pub fn get_op(key: &str, rule: Rule) -> (r: Op)
    ensures
        r.deep_view() == getting(key@, rule.deep_view()),
{
    Op { action: Action::GetMeta(key.to_owned()), rule }
}

pub fn set_op(key: &str, value: &str, rule: Rule) -> (r: Op)
    ensures
        r.deep_view() == setting(key@, value@, rule.deep_view()),
{
    Op { action: Action::SetMeta { key: key.to_owned(), value: value.to_owned() }, rule }
}

pub fn delete_op(key: &str, rule: Rule) -> (r: Op)
    ensures
        r.deep_view() == deleting(key@, rule.deep_view()),
{
    Op { action: Action::DeleteMeta(key.to_owned()), rule }
}

fn begin_stage(stage: EntryStage, ops: Vec<Op>) -> (r: Pass)
    requires
        ops.len() == entry_requests(stage.deep_view()),
    ensures
        r.deep_view() == entry_at(stage.deep_view(), ops.deep_view()),
{
    assert(ops.deep_view().len() == ops.len());
    Pass::Ask(Entry { stage, script: Script::new(ops) })
}

fn begin_single(stage: EntryStage, o: Op) -> (r: Pass)
    requires
        entry_requests(stage.deep_view()) == 1,
    ensures
        r.deep_view() == entry_at(stage.deep_view(), seq![o.deep_view()]),
{
    let ghost only = o.deep_view();
    let mut ops: Vec<Op> = Vec::new();
    ops.push(o);
    assert(ops.deep_view() =~= seq![only]);
    begin_stage(stage, ops)
}

fn request_lease(setup: &Setup, recovering: bool, now: u64) -> (r: Pass)
    ensures
        r.deep_view() == ask_lease(setup.deep_view(), recovering, now),
{
    let mut ops: Vec<Op> = Vec::new();
    ops.push(set_busy_timeout(setup.options.busy_timeout));
    ops.push(execute_op("BEGIN IMMEDIATE", Rule::Stop));
    ops.push(get_op("migration_owner", Rule::Stop));
    ops.push(get_op("migration_lease_until", Rule::Stop));
    assert(ops.deep_view() =~= seq![
        busy_op(setup.options.busy_timeout),
        begin_op(),
        getting("migration_owner"@, RuleModel::Stop),
        getting("migration_lease_until"@, RuleModel::Stop),
    ]);
    assert(ops.deep_view().len() == 4);
    begin_stage(EntryStage::Lease { recovering, now }, ops)
}

fn take_lease(setup: &Setup, recovering: bool, then: u64) -> (r: Pass)
    ensures
        r.deep_view() == entry_at(
            EntryStageModel::Taking { recovering, now: then },
            seq![
                setting("migration_owner"@, lease_name(setup.process_id, then), RuleModel::Stop),
                setting("migration_lease_until"@, decimal(expires(then) as nat), RuleModel::Stop),
                setting("migration_in_progress"@, "1"@, RuleModel::Stop),
                op(commit_action(), RuleModel::Stop),
            ],
        ),
{
    let id = lease_id(setup.process_id, then);
    let until = decimal_of(lease_expiry(then));
    let mut ops: Vec<Op> = Vec::new();
    ops.push(set_op("migration_owner", id.as_str(), Rule::Stop));
    ops.push(set_op("migration_lease_until", until.as_str(), Rule::Stop));
    ops.push(set_op("migration_in_progress", "1", Rule::Stop));
    ops.push(execute_op("COMMIT", Rule::Stop));
    assert(ops.deep_view() =~= seq![
        setting("migration_owner"@, lease_name(setup.process_id, then), RuleModel::Stop),
        setting("migration_lease_until"@, decimal(expires(then) as nat), RuleModel::Stop),
        setting("migration_in_progress"@, "1"@, RuleModel::Stop),
        op(commit_action(), RuleModel::Stop),
    ]);
    assert(ops.deep_view().len() == 4);
    begin_stage(EntryStage::Taking { recovering, now: then }, ops)
}

fn decide(setup: &Setup, pending: bool, unchanged: bool, recovering: bool, now: u64) -> (r: Pass)
    ensures
        r.deep_view() == entry_decided(setup.deep_view(), pending, unchanged, recovering, now),
{
    if unchanged && !pending {
        begin_single(
            EntryStage::Counter,
            Op { action: Action::SchemaCounter, rule: Rule::Ignore },
        )
    } else {
        request_lease(setup, recovering, now)
    }
}

fn ask_pending(setup: &Setup, index: usize, unchanged: bool, recovering: bool, now: u64) -> (r:
    Pass)
    ensures
        r.deep_view() == entry_pending(setup.deep_view(), index as nat, unchanged, recovering, now),
{
    let migrations = &setup.options.data_migrations;
    if index >= migrations.len() {
        return decide(setup, false, unchanged, recovering, now);
    }
    assert(setup.deep_view().options.data_migrations[index as int]
        == migrations@[index as int].deep_view());
    let id = migrations[index].id.as_str();
    if is_blank(id) {
        return Pass::Refused(blank_id_error());
    }
    let key = data_migration_key(id);
    begin_single(
        EntryStage::Pending { index, unchanged, recovering },
        get_op(key.as_str(), Rule::Stop),
    )
}

fn complete(setup: &Setup, stage: EntryStage, replies: Vec<Reply>, now: u64) -> (r: Pass)
    requires
        replies.len() == entry_requests(stage.deep_view()),
    ensures
        r.deep_view() == entry_completed(
            setup.deep_view(),
            stage.deep_view(),
            replies.deep_view(),
            now,
        ),
{
    let ghost answers = replies.deep_view();
    assert(forall|i: int| 0 <= i < replies.len() ==> answers[i] == replies@[i].deep_view());
    match stage {
        EntryStage::ReadOnly => if reply_refuses_writes(&replies[0]) {
            Pass::Refused(MigrateError::ReadOnly)
        } else {
            begin_single(
                EntryStage::Bootstrap,
                execute_op(
                    "CREATE TABLE IF NOT EXISTS _schema_meta (key TEXT PRIMARY KEY, value TEXT NOT NULL)",
                    Rule::Ignore,
                ),
            )
        },
        EntryStage::Bootstrap => match &replies[0] {
            Reply::Failed(m) => begin_single(
                EntryStage::Recheck(MigrateError::Turso(m.clone())),
                Op { action: Action::QueryOnly, rule: Rule::Ignore },
            ),
            _ => {
                let mut ops: Vec<Op> = Vec::new();
                ops.push(get_op("schema_hash", Rule::Stop));
                ops.push(get_op("migration_in_progress", Rule::Stop));
                assert(ops.deep_view() =~= seq![
                    getting("schema_hash"@, RuleModel::Stop),
                    getting("migration_in_progress"@, RuleModel::Stop),
                ]);
                begin_stage(EntryStage::Markers, ops)
            },
        },
        EntryStage::Recheck(e) => if reply_refuses_writes(&replies[0]) || is_read_only_error(&e) {
            Pass::Refused(MigrateError::ReadOnly)
        } else {
            Pass::Refused(e)
        },
        EntryStage::Markers => {
            let recovering = reply_is(&replies[1], "1");
            let unchanged = reply_is(&replies[0], setup.schema_hash.as_str()) && !recovering;
            ask_pending(setup, 0, unchanged, recovering, now)
        },
        EntryStage::Pending { index, unchanged, recovering } => if reply_text(
            &replies[0],
        ).is_none() {
            decide(setup, true, unchanged, recovering, now)
        } else if index < setup.options.data_migrations.len() {
            ask_pending(setup, index + 1, unchanged, recovering, now)
        } else {
            decide(setup, false, unchanged, recovering, now)
        },
        EntryStage::Counter => match reply_number(&replies[0]) {
            Some(n) => begin_single(
                EntryStage::Drift(n),
                get_op("sqlite_schema_version", Rule::Stop),
            ),
            None => Pass::Unchanged,
        },
        EntryStage::Drift(n) => {
            let counter = signed_decimal_of(n);
            if reply_is(&replies[0], counter.as_str()) {
                Pass::Unchanged
            } else {
                request_lease(setup, false, now)
            }
        },
        EntryStage::Lease { recovering, now: then } => match check_lease(
            reply_text(&replies[2]),
            reply_text(&replies[3]),
            then,
        ) {
            Some(e) => begin_single(EntryStage::Held(e), execute_op("ROLLBACK", Rule::Ignore)),
            None => take_lease(setup, recovering, then),
        },
        EntryStage::Held(e) => Pass::Refused(e),
        EntryStage::Taking { recovering, now: then } => Pass::Admitted {
            lease: lease_id(setup.process_id, then),
            recovering,
        },
    }
}

impl Entry {
    #[verifier::type_invariant]
    spec fn well_formed(self) -> bool {
        self.script.deep_view().ops.len() == entry_requests(self.stage.deep_view())
    }

    /// Starts a convergence.
    pub fn start() -> (r: Pass)
        ensures
            r.deep_view() == entry_start(),
    {
        begin_single(EntryStage::ReadOnly, Op { action: Action::QueryOnly, rule: Rule::Stop })
    }

    /// The request that waits for its answer.
    pub fn request(&self) -> (r: &Action)
        ensures
            self.deep_view().script.waits(),
            r.deep_view() == self.deep_view().script.request(),
    {
        self.script.request()
    }

    /// Goes on with the answer to the request, at the time `now`.
    pub fn advance(self, setup: &Setup, reply: Reply, now: u64) -> (r: Pass)
        ensures
            r.deep_view() == entry_advanced(
                setup.deep_view(),
                self.deep_view(),
                reply.deep_view(),
                now,
            ),
    {
        proof {
            use_type_invariant(&self);
        }
        let Entry { stage, script } = self;
        match script.feed(reply) {
            Fed::More(script) => Pass::Ask(Entry { stage, script }),
            Fed::Broken(b) => Pass::Refused(b.error),
            Fed::Complete(replies) => {
                assert(replies.deep_view().len() == replies.len());
                complete(setup, stage, replies, now)
            },
        }
    }
}

} // verus!
