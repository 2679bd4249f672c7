//! Declarative schema convergence for Turso databases.
//!
//! A caller gives the schema that a database should have. The library compares it with
//! the schema that the database has, makes a plan that leads from the one to the other,
//! and runs it. It does no input or output itself: it says what to ask of the database,
//! one request at a time, and goes on with the answer.
//!
//! - [`normalize`], [`ddl`], [`introspect`], [`schema`]: SQL text and rows of the
//!   catalogue become snapshots of schemas.
//! - [`diff`], [`rename`]: two snapshots become a difference.
//! - [`plan`], [`order`]: a difference becomes a plan.
//! - [`script`], [`execute`]: a plan is run.
//! - [`entry`], [`work`], [`closing`], [`converge`]: a convergence from its first request
//!   to its report.
//! - The modules that end in `_laws`: what holds of all of this.

pub mod bridge;
pub mod catalog_laws;
pub mod change_laws;
pub mod closing;
pub mod column_laws;
pub mod comment_laws;
pub mod converge;
pub mod converge_laws;
pub mod data_migrations;
pub mod ddl;
pub mod ddl_laws;
pub mod diff;
pub mod diff_laws;
pub mod dump_laws;
pub mod entry;
pub mod entry_laws;
pub mod error;
pub mod execute;
pub mod execute_laws;
pub mod format;
pub mod hash;
pub mod introspect;
pub mod lists;
pub mod migrator;
pub mod normalize;
pub mod object_laws;
pub mod options;
pub mod order;
pub mod order_laws;
pub mod plan;
pub mod plan_laws;
pub mod policy;
pub mod policy_laws;
pub mod rename;
pub mod rename_laws;
pub mod report_laws;
pub mod rerun_laws;
pub mod run_laws;
pub mod schema;
pub mod script;
pub mod search;
pub mod settled_laws;
pub mod statement_laws;
pub mod text;
pub mod text_laws;
pub mod transaction_laws;
pub mod work;

pub use converge::{Convergence, Session};
pub use data_migrations::current_data_version;
pub use diff::{compute_diff, SchemaDiff};
pub use error::MigrateError;
pub use execute::Execution;
pub use migrator::Migrator;
pub use options::{
    ColumnRenameHint, ConvergeMode, ConvergeOptions, ConvergePolicy, ConvergeReport, DataMigration,
    DestructiveChangeSet, Duration, Failpoint,
};
pub use plan::{generate_plan, MigrationPlan};
pub use schema::{
    CIMap, CIString, Capabilities, ColumnInfo, ForeignKey, IndexInfo, SchemaSnapshot, TableInfo,
    TriggerInfo, ViewInfo,
};
pub use script::{Action, Reply};
