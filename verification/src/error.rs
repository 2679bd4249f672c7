//! The errors of convergence, plan execution and schema validation.

use vstd::prelude::*;

use crate::format::{decimal_of, glue2, signed_decimal_of};
#[allow(unused_imports)]
use crate::format::{decimal, signed_decimal};
use crate::lists::clone_strings;
use crate::text::Text;

verus! {

/// What can go wrong. Errors of the database and of the file system are held by
/// their messages.
#[derive(Debug, PartialEq, Eq)]
pub enum MigrateError {
    /// An error of the database.
    Turso(String),
    /// A file could not be read or written.
    Io { path: String, source: String },
    /// A statement of the migration failed.
    Statement { stmt: String, source: String, phase: String },
    /// A rebuild left a row whose foreign key points nowhere.
    ForeignKeyViolation { table: String, rowid: i64, parent: String },
    /// The schema, or a request about it, is not acceptable.
    Schema(String),
    /// The connection does not allow writes.
    ReadOnly,
    /// Another migration holds the lease.
    MigrationBusy { owner: String, remaining_secs: u64 },
    /// The caller's hook refused the destructive changes.
    PreDestructiveHookRejected { message: String, blocked_operations: Vec<String> },
    /// The schema uses something that the connection cannot do.
    UnsupportedFeature(String),
    /// A failpoint stopped the migration.
    InjectedFailure { failpoint: String },
    /// The policy forbids a change.
    PolicyViolation { message: String, blocked_operations: Vec<String> },
}

#[verifier::ext_equal]
pub enum ErrorModel {
    Turso(Text),
    Io { path: Text, source: Text },
    Statement { stmt: Text, source: Text, phase: Text },
    ForeignKeyViolation { table: Text, rowid: i64, parent: Text },
    Schema(Text),
    ReadOnly,
    MigrationBusy { owner: Text, remaining_secs: u64 },
    PreDestructiveHookRejected { message: Text, blocked_operations: Seq<Text> },
    UnsupportedFeature(Text),
    InjectedFailure { failpoint: Text },
    PolicyViolation { message: Text, blocked_operations: Seq<Text> },
}

impl DeepView for MigrateError {
    type V = ErrorModel;

    open spec fn deep_view(&self) -> ErrorModel {
        match self {
            MigrateError::Turso(e) => ErrorModel::Turso(e@),
            MigrateError::Io { path, source } => ErrorModel::Io { path: path@, source: source@ },
            MigrateError::Statement { stmt, source, phase } => ErrorModel::Statement {
                stmt: stmt@,
                source: source@,
                phase: phase@,
            },
            MigrateError::ForeignKeyViolation {
                table,
                rowid,
                parent,
            } => ErrorModel::ForeignKeyViolation { table: table@, rowid: *rowid, parent: parent@ },
            MigrateError::Schema(m) => ErrorModel::Schema(m@),
            MigrateError::ReadOnly => ErrorModel::ReadOnly,
            MigrateError::MigrationBusy { owner, remaining_secs } => ErrorModel::MigrationBusy {
                owner: owner@,
                remaining_secs: *remaining_secs,
            },
            MigrateError::PreDestructiveHookRejected {
                message,
                blocked_operations,
            } => ErrorModel::PreDestructiveHookRejected {
                message: message@,
                blocked_operations: blocked_operations.deep_view(),
            },
            MigrateError::UnsupportedFeature(m) => ErrorModel::UnsupportedFeature(m@),
            MigrateError::InjectedFailure { failpoint } => ErrorModel::InjectedFailure {
                failpoint: failpoint@,
            },
            MigrateError::PolicyViolation {
                message,
                blocked_operations,
            } => ErrorModel::PolicyViolation {
                message: message@,
                blocked_operations: blocked_operations.deep_view(),
            },
        }
    }
}

impl ErrorModel {
    /// The message for people.
    pub open spec fn message(self) -> Text {
        match self {
            ErrorModel::Turso(e) => "turso error: "@ + e,
            ErrorModel::Io { path, source } => "I/O error at "@ + path + ": "@ + source,
            ErrorModel::Statement {
                stmt,
                source,
                phase,
            } => "migration statement failed ("@ + phase + "): "@ + stmt + "; cause: "@ + source,
            ErrorModel::ForeignKeyViolation {
                table,
                rowid,
                parent,
            } => "foreign key violation: table="@ + table + ", rowid="@ + signed_decimal(
                rowid as int,
            ) + ", references="@ + parent,
            ErrorModel::Schema(m) => "schema error: "@ + m,
            ErrorModel::ReadOnly => "database is read-only: migrations require write access"@,
            ErrorModel::MigrationBusy {
                owner,
                remaining_secs,
            } => "migration busy: another migration is in progress (owner="@ + owner
                + ", expires in "@ + decimal(remaining_secs as nat) + "s)"@,
            ErrorModel::PreDestructiveHookRejected {
                message,
                ..
            } => "pre-destructive hook rejected migration: "@ + message,
            ErrorModel::UnsupportedFeature(m) => "unsupported feature: "@ + m,
            ErrorModel::InjectedFailure { failpoint } => "injected failpoint triggered: "@
                + failpoint,
            ErrorModel::PolicyViolation { message, .. } => "policy violation: "@ + message,
        }
    }
}

impl Clone for MigrateError {
    fn clone(&self) -> (r: Self)
        ensures
            r.deep_view() == self.deep_view(),
    {
        match self {
            MigrateError::Turso(e) => MigrateError::Turso(e.clone()),
            MigrateError::Io { path, source } => MigrateError::Io {
                path: path.clone(),
                source: source.clone(),
            },
            MigrateError::Statement { stmt, source, phase } => MigrateError::Statement {
                stmt: stmt.clone(),
                source: source.clone(),
                phase: phase.clone(),
            },
            MigrateError::ForeignKeyViolation {
                table,
                rowid,
                parent,
            } => MigrateError::ForeignKeyViolation {
                table: table.clone(),
                rowid: *rowid,
                parent: parent.clone(),
            },
            MigrateError::Schema(m) => MigrateError::Schema(m.clone()),
            MigrateError::ReadOnly => MigrateError::ReadOnly,
            MigrateError::MigrationBusy { owner, remaining_secs } => MigrateError::MigrationBusy {
                owner: owner.clone(),
                remaining_secs: *remaining_secs,
            },
            MigrateError::PreDestructiveHookRejected {
                message,
                blocked_operations,
            } => MigrateError::PreDestructiveHookRejected {
                message: message.clone(),
                blocked_operations: clone_strings(blocked_operations),
            },
            MigrateError::UnsupportedFeature(m) => MigrateError::UnsupportedFeature(m.clone()),
            MigrateError::InjectedFailure { failpoint } => MigrateError::InjectedFailure {
                failpoint: failpoint.clone(),
            },
            MigrateError::PolicyViolation {
                message,
                blocked_operations,
            } => MigrateError::PolicyViolation {
                message: message.clone(),
                blocked_operations: clone_strings(blocked_operations),
            },
        }
    }
}

impl MigrateError {
    /// The message for people.
    pub fn to_string(&self) -> (r: String)
        ensures
            r@ == self.deep_view().message(),
    {
        match self {
            MigrateError::Turso(e) => glue2("turso error: ", e.as_str()),
            MigrateError::Io { path, source } => {
                let mut out = glue2("I/O error at ", path.as_str());
                out.append(": ");
                out.append(source.as_str());
                out
            },
            MigrateError::Statement { stmt, source, phase } => {
                let mut out = glue2("migration statement failed (", phase.as_str());
                out.append("): ");
                out.append(stmt.as_str());
                out.append("; cause: ");
                out.append(source.as_str());
                out
            },
            MigrateError::ForeignKeyViolation { table, rowid, parent } => {
                let id = signed_decimal_of(*rowid);
                let mut out = glue2("foreign key violation: table=", table.as_str());
                out.append(", rowid=");
                out.append(id.as_str());
                out.append(", references=");
                out.append(parent.as_str());
                out
            },
            MigrateError::Schema(m) => glue2("schema error: ", m.as_str()),
            MigrateError::ReadOnly => "database is read-only: migrations require write access".to_owned(),
            MigrateError::MigrationBusy { owner, remaining_secs } => {
                let secs = decimal_of(*remaining_secs);
                let mut out = glue2(
                    "migration busy: another migration is in progress (owner=",
                    owner.as_str(),
                );
                out.append(", expires in ");
                out.append(secs.as_str());
                out.append("s)");
                out
            },
            MigrateError::PreDestructiveHookRejected { message, .. } => glue2(
                "pre-destructive hook rejected migration: ",
                message.as_str(),
            ),
            MigrateError::UnsupportedFeature(m) => glue2("unsupported feature: ", m.as_str()),
            MigrateError::InjectedFailure { failpoint } => glue2(
                "injected failpoint triggered: ",
                failpoint.as_str(),
            ),
            MigrateError::PolicyViolation { message, .. } => glue2(
                "policy violation: ",
                message.as_str(),
            ),
        }
    }
}

} // verus!
