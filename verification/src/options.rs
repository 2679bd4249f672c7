//! What a caller of convergence can ask for, and the report it gets.

use vstd::prelude::*;

use crate::format::{glue2, glue4};
use crate::lists::{clone_pairs, clone_strings};
use crate::schema::Capabilities;
use crate::text::Text;

verus! {

// ---------------------------------------------------------------------------
// Time
// ---------------------------------------------------------------------------

/// A length of time: whole seconds, and nanoseconds on top of them.
#[derive(Debug, Clone, Copy, PartialEq, Eq)]
pub struct Duration {
    pub secs: u64,
    pub nanos: u32,
}

impl Duration {
    /// The whole milliseconds in it.
    pub open spec fn millis(self) -> nat {
        self.secs as nat * 1000 + (self.nanos / 1_000_000) as nat
    }

    /// So many whole seconds.
    pub fn from_secs(secs: u64) -> (r: Self)
        ensures
            r == (Duration { secs, nanos: 0 }),
    {
        Duration { secs, nanos: 0 }
    }

    /// No time.
    pub fn zero() -> (r: Self)
        ensures
            r == (Duration { secs: 0, nanos: 0 }),
    {
        Duration { secs: 0, nanos: 0 }
    }

    /// The whole milliseconds in it.
    pub fn as_millis(&self) -> (r: u128)
        ensures
            r == self.millis(),
    {
        self.secs as u128 * 1000 + (self.nanos / 1_000_000) as u128
    }
}

// ---------------------------------------------------------------------------
// Policy
// ---------------------------------------------------------------------------

/// Which destructive changes are allowed.
#[derive(Debug, Clone, Copy, PartialEq, Eq)]
pub struct ConvergePolicy {
    /// Whether tables that the schema no longer has may be dropped.
    pub allow_table_drops: bool,
    /// Whether columns that the schema no longer has may be dropped.
    pub allow_column_drops: bool,
    /// Whether tables may be rebuilt.
    pub allow_table_rebuilds: bool,
    /// How many tables may be created, dropped and rebuilt at most.
    pub max_tables_affected: Option<usize>,
}

impl Default for ConvergePolicy {
    /// Blocks the loss of tables and columns.
    fn default() -> (r: Self)
        ensures
            r == (ConvergePolicy {
                allow_table_drops: false,
                allow_column_drops: false,
                allow_table_rebuilds: true,
                max_tables_affected: None,
            }),
    {
        ConvergePolicy {
            allow_table_drops: false,
            allow_column_drops: false,
            allow_table_rebuilds: true,
            max_tables_affected: None,
        }
    }
}

impl ConvergePolicy {
    /// Allows every change.
    pub fn permissive() -> (r: Self)
        ensures
            r == (ConvergePolicy {
                allow_table_drops: true,
                allow_column_drops: true,
                allow_table_rebuilds: true,
                max_tables_affected: None,
            }),
    {
        ConvergePolicy {
            allow_table_drops: true,
            allow_column_drops: true,
            allow_table_rebuilds: true,
            max_tables_affected: None,
        }
    }
}

// ---------------------------------------------------------------------------
// Hints, data migrations, failpoints
// ---------------------------------------------------------------------------

/// Says that a column of a table got a new name.
#[derive(Debug, Clone, PartialEq, Eq)]
pub struct ColumnRenameHint {
    pub table: String,
    pub from: String,
    pub to: String,
}

#[verifier::ext_equal]
pub struct HintModel {
    pub table: Text,
    pub from: Text,
    pub to: Text,
}

impl DeepView for ColumnRenameHint {
    type V = HintModel;

    open spec fn deep_view(&self) -> HintModel {
        HintModel { table: self.table@, from: self.from@, to: self.to@ }
    }
}

/// A step on the data that runs once, after the schema has converged.
#[derive(Debug, PartialEq, Eq)]
pub struct DataMigration {
    /// The name under which the step is remembered. It must not be blank.
    pub id: String,
    pub statements: Vec<String>,
}

#[verifier::ext_equal]
pub struct DataMigrationModel {
    pub id: Text,
    pub statements: Seq<Text>,
}

impl DeepView for DataMigration {
    type V = DataMigrationModel;

    open spec fn deep_view(&self) -> DataMigrationModel {
        DataMigrationModel { id: self.id@, statements: self.statements.deep_view() }
    }
}

impl Clone for DataMigration {
    fn clone(&self) -> (r: Self)
        ensures
            r.deep_view() == self.deep_view(),
    {
        DataMigration { id: self.id.clone(), statements: clone_strings(&self.statements) }
    }
}

/// A point at which a test can stop a migration.
#[derive(Debug, Clone, Copy, PartialEq, Eq, Structural)]
pub enum Failpoint {
    BeforeIntrospect,
    BeforeExecute,
    AfterExecuteBeforeState,
}

impl Failpoint {
    /// The name of the point.
    pub open spec fn name(self) -> Text {
        match self {
            Failpoint::BeforeIntrospect => "before_introspect"@,
            Failpoint::BeforeExecute => "before_execute"@,
            Failpoint::AfterExecuteBeforeState => "after_execute_before_state"@,
        }
    }

    /// The name of the point.
    pub fn as_str(&self) -> (r: &'static str)
        ensures
            r@ == self.name(),
    {
        match self {
            Failpoint::BeforeIntrospect => "before_introspect",
            Failpoint::BeforeExecute => "before_execute",
            Failpoint::AfterExecuteBeforeState => "after_execute_before_state",
        }
    }
}

// ---------------------------------------------------------------------------
// Destructive changes
// ---------------------------------------------------------------------------

/// The changes of a migration that can lose data.
#[derive(Debug, PartialEq, Eq)]
pub struct DestructiveChangeSet {
    pub tables_to_drop: Vec<String>,
    /// Pairs of a table and its column.
    pub columns_to_drop: Vec<(String, String)>,
    pub tables_to_rebuild: Vec<String>,
}

#[verifier::ext_equal]
pub struct DestructiveModel {
    pub tables_to_drop: Seq<Text>,
    pub columns_to_drop: Seq<(Text, Text)>,
    pub tables_to_rebuild: Seq<Text>,
}

impl DeepView for DestructiveChangeSet {
    type V = DestructiveModel;

    open spec fn deep_view(&self) -> DestructiveModel {
        DestructiveModel {
            tables_to_drop: self.tables_to_drop.deep_view(),
            columns_to_drop: self.columns_to_drop.deep_view(),
            tables_to_rebuild: self.tables_to_rebuild.deep_view(),
        }
    }
}

impl Clone for DestructiveChangeSet {
    fn clone(&self) -> (r: Self)
        ensures
            r.deep_view() == self.deep_view(),
    {
        DestructiveChangeSet {
            tables_to_drop: clone_strings(&self.tables_to_drop),
            columns_to_drop: clone_pairs(&self.columns_to_drop),
            tables_to_rebuild: clone_strings(&self.tables_to_rebuild),
        }
    }
}

/// Each name behind a prefix.
pub open spec fn prefixed(prefix: Text, names: Seq<Text>) -> Seq<Text> {
    Seq::new(names.len(), |i: int| prefix + names[i])
}

/// Each pair of a table and its column behind a prefix.
pub open spec fn prefixed_pairs(prefix: Text, pairs: Seq<(Text, Text)>) -> Seq<Text> {
    Seq::new(pairs.len(), |i: int| prefix + pairs[i].0 + "."@ + pairs[i].1)
}

/// Each name behind a prefix.
pub fn prefix_names(prefix: &str, names: &Vec<String>) -> (r: Vec<String>)
    ensures
        r.deep_view() == prefixed(prefix@, names.deep_view()),
{
    let mut r: Vec<String> = Vec::new();
    let mut i: usize = 0;
    while i < names.len()
        invariant
            i <= names.len(),
            r.len() == i,
            forall|j: int| 0 <= j < i ==> (#[trigger] r@[j])@ == prefix@ + names@[j]@,
        decreases names.len() - i,
    {
        r.push(glue2(prefix, names[i].as_str()));
        i += 1;
    }
    assert(r.deep_view() =~= prefixed(prefix@, names.deep_view()));
    r
}

/// Each pair of a table and its column behind a prefix.
pub fn prefix_pairs(prefix: &str, pairs: &Vec<(String, String)>) -> (r: Vec<String>)
    ensures
        r.deep_view() == prefixed_pairs(prefix@, pairs.deep_view()),
{
    let mut r: Vec<String> = Vec::new();
    let mut i: usize = 0;
    while i < pairs.len()
        invariant
            i <= pairs.len(),
            r.len() == i,
            forall|j: int|
                0 <= j < i ==> (#[trigger] r@[j])@ == prefix@ + pairs@[j].0@ + "."@ + pairs@[j].1@,
        decreases pairs.len() - i,
    {
        r.push(glue4(prefix, pairs[i].0.as_str(), ".", pairs[i].1.as_str()));
        i += 1;
    }
    assert(r.deep_view() =~= prefixed_pairs(prefix@, pairs.deep_view()));
    r
}

impl DestructiveModel {
    pub open spec fn has_changes(self) -> bool {
        self.tables_to_drop.len() > 0 || self.columns_to_drop.len() > 0
            || self.tables_to_rebuild.len() > 0
    }

    /// The changes in words.
    pub open spec fn operations(self) -> Seq<Text> {
        prefixed("DROP TABLE "@, self.tables_to_drop) + prefixed_pairs(
            "DROP COLUMN "@,
            self.columns_to_drop,
        ) + prefixed("REBUILD TABLE "@, self.tables_to_rebuild)
    }
}

impl DestructiveChangeSet {
    /// Whether there is anything in it.
    pub fn has_changes(&self) -> (r: bool)
        ensures
            r == self.deep_view().has_changes(),
    {
        self.tables_to_drop.len() > 0 || self.columns_to_drop.len() > 0
            || self.tables_to_rebuild.len() > 0
    }

    /// The changes in words: dropped tables, dropped columns, rebuilt tables.
    pub fn blocked_operations(&self) -> (r: Vec<String>)
        ensures
            r.deep_view() == self.deep_view().operations(),
    {
        let mut r = prefix_names("DROP TABLE ", &self.tables_to_drop);
        let mut columns = prefix_pairs("DROP COLUMN ", &self.columns_to_drop);
        let mut rebuilds = prefix_names("REBUILD TABLE ", &self.tables_to_rebuild);
        let ghost a = r.deep_view();
        let ghost b = columns.deep_view();
        let ghost c = rebuilds.deep_view();
        r.append(&mut columns);
        r.append(&mut rebuilds);
        assert(r.deep_view() =~= a + b + c);
        r
    }
}

// ---------------------------------------------------------------------------
// Options
// ---------------------------------------------------------------------------

/// How to converge.
#[derive(Debug, Clone)]
pub struct ConvergeOptions {
    pub policy: ConvergePolicy,
    /// Compute the plan and do not run it.
    pub dry_run: bool,
    /// How long the database waits for a lock.
    pub busy_timeout: Duration,
    pub max_retries: u32,
    /// Where to write the old schema before a destructive change.
    pub backup_before_destructive: Option<String>,
    pub data_migrations: Vec<DataMigration>,
    pub rename_hints: Vec<ColumnRenameHint>,
    /// For tests: where to stop.
    pub failpoint: Option<Failpoint>,
    /// What the database can do, where it is known and need not be probed.
    pub capabilities: Option<Capabilities>,
}

impl Default for ConvergeOptions {
    fn default() -> (r: Self)
        ensures
            r.policy == (ConvergePolicy {
                allow_table_drops: false,
                allow_column_drops: false,
                allow_table_rebuilds: true,
                max_tables_affected: None,
            }),
            !r.dry_run,
            r.busy_timeout == (Duration { secs: 5, nanos: 0 }),
            r.max_retries == 3,
            r.backup_before_destructive is None,
            r.data_migrations@.len() == 0,
            r.rename_hints@.len() == 0,
            r.failpoint is None,
            r.capabilities is None,
    {
        ConvergeOptions {
            policy: ConvergePolicy::default(),
            dry_run: false,
            busy_timeout: Duration::from_secs(5),
            max_retries: 3,
            backup_before_destructive: None,
            data_migrations: Vec::new(),
            rename_hints: Vec::new(),
            failpoint: None,
            capabilities: None,
        }
    }
}

#[verifier::ext_equal]
pub struct OptionsModel {
    pub policy: ConvergePolicy,
    pub dry_run: bool,
    pub busy_timeout: Duration,
    pub max_retries: u32,
    pub backup_before_destructive: Option<Text>,
    pub data_migrations: Seq<DataMigrationModel>,
    pub rename_hints: Seq<HintModel>,
    pub failpoint: Option<Failpoint>,
    pub capabilities: Option<Capabilities>,
}

impl DeepView for ConvergeOptions {
    type V = OptionsModel;

    open spec fn deep_view(&self) -> OptionsModel {
        OptionsModel {
            policy: self.policy,
            dry_run: self.dry_run,
            busy_timeout: self.busy_timeout,
            max_retries: self.max_retries,
            backup_before_destructive: self.backup_before_destructive.deep_view(),
            data_migrations: self.data_migrations.deep_view(),
            rename_hints: self.rename_hints.deep_view(),
            failpoint: self.failpoint,
            capabilities: self.capabilities,
        }
    }
}

// ---------------------------------------------------------------------------
// Report
// ---------------------------------------------------------------------------

/// How a convergence ended.
#[derive(Debug, Clone, Copy, PartialEq, Eq, Structural)]
pub enum ConvergeMode {
    /// Nothing had changed since the last time.
    FastPath,
    /// Changes were made.
    SlowPath,
    /// An earlier migration had been interrupted; everything was looked at again.
    CrashRecovery,
    /// Everything was looked at, and nothing had to change.
    NoOp,
    /// The plan was made and not run.
    DryRun,
}

/// What a convergence did.
#[derive(Debug, PartialEq, Eq)]
pub struct ConvergeReport {
    pub mode: ConvergeMode,
    pub tables_created: usize,
    pub tables_rebuilt: usize,
    pub tables_dropped: usize,
    pub columns_added: usize,
    pub columns_dropped: usize,
    pub columns_renamed: usize,
    pub indexes_changed: usize,
    pub views_changed: usize,
    pub data_migrations_applied: usize,
    pub duration: Duration,
    /// The statements of the plan, where it was not run.
    pub plan_sql: Vec<String>,
}

#[verifier::ext_equal]
pub struct ReportModel {
    pub mode: ConvergeMode,
    pub tables_created: nat,
    pub tables_rebuilt: nat,
    pub tables_dropped: nat,
    pub columns_added: nat,
    pub columns_dropped: nat,
    pub columns_renamed: nat,
    pub indexes_changed: nat,
    pub views_changed: nat,
    pub data_migrations_applied: nat,
    pub duration: Duration,
    pub plan_sql: Seq<Text>,
}

impl DeepView for ConvergeReport {
    type V = ReportModel;

    open spec fn deep_view(&self) -> ReportModel {
        ReportModel {
            mode: self.mode,
            tables_created: self.tables_created as nat,
            tables_rebuilt: self.tables_rebuilt as nat,
            tables_dropped: self.tables_dropped as nat,
            columns_added: self.columns_added as nat,
            columns_dropped: self.columns_dropped as nat,
            columns_renamed: self.columns_renamed as nat,
            indexes_changed: self.indexes_changed as nat,
            views_changed: self.views_changed as nat,
            data_migrations_applied: self.data_migrations_applied as nat,
            duration: self.duration,
            plan_sql: self.plan_sql.deep_view(),
        }
    }
}

impl ReportModel {
    /// A report of the fast path with nothing done.
    pub open spec fn idle(duration: Duration) -> ReportModel {
        ReportModel {
            mode: ConvergeMode::FastPath,
            tables_created: 0,
            tables_rebuilt: 0,
            tables_dropped: 0,
            columns_added: 0,
            columns_dropped: 0,
            columns_renamed: 0,
            indexes_changed: 0,
            views_changed: 0,
            data_migrations_applied: 0,
            duration,
            plan_sql: Seq::empty(),
        }
    }

    /// Whether any counter is not zero.
    pub open spec fn had_changes(self) -> bool {
        self.tables_created + self.tables_rebuilt + self.tables_dropped + self.columns_added
            + self.columns_dropped + self.columns_renamed + self.indexes_changed
            + self.views_changed + self.data_migrations_applied > 0
    }
}

impl Default for ConvergeReport {
    fn default() -> (r: Self)
        ensures
            r.deep_view() == ReportModel::idle(Duration { secs: 0, nanos: 0 }),
    {
        ConvergeReport::fast_path(Duration::zero())
    }
}

impl Clone for ConvergeReport {
    fn clone(&self) -> (r: Self)
        ensures
            r.deep_view() == self.deep_view(),
    {
        ConvergeReport {
            mode: self.mode,
            tables_created: self.tables_created,
            tables_rebuilt: self.tables_rebuilt,
            tables_dropped: self.tables_dropped,
            columns_added: self.columns_added,
            columns_dropped: self.columns_dropped,
            columns_renamed: self.columns_renamed,
            indexes_changed: self.indexes_changed,
            views_changed: self.views_changed,
            data_migrations_applied: self.data_migrations_applied,
            duration: self.duration,
            plan_sql: clone_strings(&self.plan_sql),
        }
    }
}

impl ConvergeReport {
    /// The report of a convergence that found nothing to do at once.
    pub fn fast_path(duration: Duration) -> (r: Self)
        ensures
            r.deep_view() == ReportModel::idle(duration),
    {
        let r = ConvergeReport {
            mode: ConvergeMode::FastPath,
            tables_created: 0,
            tables_rebuilt: 0,
            tables_dropped: 0,
            columns_added: 0,
            columns_dropped: 0,
            columns_renamed: 0,
            indexes_changed: 0,
            views_changed: 0,
            data_migrations_applied: 0,
            duration,
            plan_sql: Vec::new(),
        };
        assert(r.plan_sql.deep_view() =~= Seq::empty());
        r
    }

    /// Whether any counter is not zero.
    pub fn had_changes(&self) -> (r: bool)
        ensures
            r == self.deep_view().had_changes(),
    {
        self.tables_created > 0 || self.tables_rebuilt > 0 || self.tables_dropped > 0
            || self.columns_added > 0 || self.columns_dropped > 0 || self.columns_renamed > 0
            || self.indexes_changed > 0 || self.views_changed > 0 || self.data_migrations_applied
            > 0
    }

    /// Whether there is nothing to do, as the report of a dry run tells: no counter has
    /// moved, and no statement would be run.
    pub fn is_converged(&self) -> (r: bool)
        ensures
            r == (!self.deep_view().had_changes() && self.deep_view().plan_sql.len() == 0),
    {
        !self.had_changes() && self.plan_sql.len() == 0
    }
}

} // verus!
