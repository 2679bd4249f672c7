//! What stands in the way of a migration: the policy of the caller, features that the
//! database lacks, and failpoints.

use vstd::prelude::*;

use crate::diff::SchemaDiff;
#[allow(unused_imports)]
use crate::diff::DiffModel;
use crate::error::MigrateError;
#[allow(unused_imports)]
use crate::error::ErrorModel;
#[allow(unused_imports)]
use crate::format::{decimal, joined};
use crate::format::{decimal_of, decimal_of_wide, glue3, glue5, join};
use crate::lists::{clone_pairs, clone_strings};
#[allow(unused_imports)]
use crate::normalize::{is_quote, lemma_literal_tail, literal_len, normal};
use crate::normalize::{literal_end, normalize_sql};
#[allow(unused_imports)]
use crate::options::{prefixed, prefixed_pairs, DestructiveModel};
use crate::options::{
    prefix_names, prefix_pairs, ConvergePolicy, DestructiveChangeSet, Failpoint,
};
#[allow(unused_imports)]
use crate::schema::{ColumnModel, SnapshotModel, TableModel};
use crate::schema::{Capabilities, SchemaSnapshot, TableInfo};
#[allow(unused_imports)]
use crate::search::{matches_at, starts_with};
use crate::search::{chars_match_at, lower_starts_with};
#[allow(unused_imports)]
use crate::text::lower;
use crate::text::{chars_of, Text};

verus! {

// ---------------------------------------------------------------------------
// Policy
// ---------------------------------------------------------------------------

/// How many tables a migration creates, drops and rebuilds.
pub open spec fn tables_affected(diff: DiffModel) -> nat {
    diff.tables_to_create.len() + diff.tables_to_drop.len() + diff.tables_to_rebuild.len()
}

/// What the policy has against the changes, if anything: lost tables, then lost columns,
/// then rebuilt tables, then too many of them.
pub open spec fn policy_violation(diff: DiffModel, policy: ConvergePolicy) -> Option<ErrorModel> {
    if !policy.allow_table_drops && diff.tables_to_drop.len() > 0 {
        Some(
            ErrorModel::PolicyViolation {
                message: "Would drop "@ + decimal(diff.tables_to_drop.len()) + " table(s): "@
                    + joined(diff.tables_to_drop, ", "@)
                    + ". Set allow_table_drops=true to permit."@,
                blocked_operations: prefixed("DROP TABLE "@, diff.tables_to_drop),
            },
        )
    } else if !policy.allow_column_drops && diff.columns_to_drop.len() > 0 {
        Some(
            ErrorModel::PolicyViolation {
                message: "Would drop "@ + decimal(diff.columns_to_drop.len())
                    + " column(s). Set allow_column_drops=true to permit."@,
                blocked_operations: prefixed_pairs("DROP COLUMN "@, diff.columns_to_drop),
            },
        )
    } else if !policy.allow_table_rebuilds && diff.tables_to_rebuild.len() > 0 {
        Some(
            ErrorModel::PolicyViolation {
                message: "Would rebuild "@ + decimal(diff.tables_to_rebuild.len())
                    + " table(s). Set allow_table_rebuilds=true to permit."@,
                blocked_operations: prefixed("REBUILD TABLE "@, diff.tables_to_rebuild),
            },
        )
    } else {
        match policy.max_tables_affected {
            Some(max) if tables_affected(diff) > max => Some(
                ErrorModel::PolicyViolation {
                    message: "Would affect "@ + decimal(tables_affected(diff))
                        + " table(s), exceeding max_tables_affected="@ + decimal(max as nat) + "."@,
                    blocked_operations: seq![decimal(tables_affected(diff)) + " tables affected"@],
                },
            ),
            _ => None,
        }
    }
}

/// Whether the policy allows the changes.
pub fn check_policy(diff: &SchemaDiff, policy: &ConvergePolicy) -> (r: Result<(), MigrateError>)
    ensures
        match policy_violation(diff.deep_view(), *policy) {
            Some(e) => r matches Err(x) && x.deep_view() == e,
            None => r is Ok,
        },
{
    if !policy.allow_table_drops && diff.tables_to_drop.len() > 0 {
        let n = decimal_of(diff.tables_to_drop.len() as u64);
        let names = join(&diff.tables_to_drop, ", ");
        return Err(
            MigrateError::PolicyViolation {
                message: glue5(
                    "Would drop ",
                    n.as_str(),
                    " table(s): ",
                    names.as_str(),
                    ". Set allow_table_drops=true to permit.",
                ),
                blocked_operations: prefix_names("DROP TABLE ", &diff.tables_to_drop),
            },
        );
    }
    if !policy.allow_column_drops && diff.columns_to_drop.len() > 0 {
        let n = decimal_of(diff.columns_to_drop.len() as u64);
        return Err(
            MigrateError::PolicyViolation {
                message: glue3(
                    "Would drop ",
                    n.as_str(),
                    " column(s). Set allow_column_drops=true to permit.",
                ),
                blocked_operations: prefix_pairs("DROP COLUMN ", &diff.columns_to_drop),
            },
        );
    }
    if !policy.allow_table_rebuilds && diff.tables_to_rebuild.len() > 0 {
        let n = decimal_of(diff.tables_to_rebuild.len() as u64);
        return Err(
            MigrateError::PolicyViolation {
                message: glue3(
                    "Would rebuild ",
                    n.as_str(),
                    " table(s). Set allow_table_rebuilds=true to permit.",
                ),
                blocked_operations: prefix_names("REBUILD TABLE ", &diff.tables_to_rebuild),
            },
        );
    }
    if let Some(max) = policy.max_tables_affected {
        let total: u128 = diff.tables_to_create.len() as u128 + diff.tables_to_drop.len() as u128
            + diff.tables_to_rebuild.len() as u128;
        if total > max as u128 {
            let t = decimal_of_wide(total);
            let m = decimal_of(max as u64);
            let mut blocked: Vec<String> = Vec::new();
            blocked.push(crate::format::glue2(t.as_str(), " tables affected"));
            assert(blocked.deep_view() =~= seq![
                decimal(tables_affected(diff.deep_view())) + " tables affected"@,
            ]);
            return Err(
                MigrateError::PolicyViolation {
                    message: glue5(
                        "Would affect ",
                        t.as_str(),
                        " table(s), exceeding max_tables_affected=",
                        m.as_str(),
                        ".",
                    ),
                    blocked_operations: blocked,
                },
            );
        }
    }
    Ok(())
}

/// The changes that can lose data.
pub open spec fn destructive_changes(diff: DiffModel) -> DestructiveModel {
    DestructiveModel {
        tables_to_drop: diff.tables_to_drop,
        columns_to_drop: diff.columns_to_drop,
        tables_to_rebuild: diff.tables_to_rebuild,
    }
}

/// The changes that can lose data.
pub fn extract_destructive_changes(diff: &SchemaDiff) -> (r: DestructiveChangeSet)
    ensures
        r.deep_view() == destructive_changes(diff.deep_view()),
{
    DestructiveChangeSet {
        tables_to_drop: clone_strings(&diff.tables_to_drop),
        columns_to_drop: clone_pairs(&diff.columns_to_drop),
        tables_to_rebuild: clone_strings(&diff.tables_to_rebuild),
    }
}

// ---------------------------------------------------------------------------
// Features
// ---------------------------------------------------------------------------

pub open spec fn uses_fts(s: SnapshotModel) -> bool {
    exists|i: int| 0 <= i < s.indexes.len() && (#[trigger] s.indexes[i]).1.is_fts
}

pub open spec fn uses_materialized(s: SnapshotModel) -> bool {
    exists|i: int| 0 <= i < s.views.len() && (#[trigger] s.views[i]).1.is_materialized
}

pub open spec fn is_vector(c: ColumnModel) -> bool {
    starts_with(lower(c.col_type), "vector"@)
}

pub open spec fn has_vector(t: TableModel) -> bool {
    exists|i: int| 0 <= i < t.columns.len() && is_vector(#[trigger] t.columns[i])
}

pub open spec fn uses_vector(s: SnapshotModel) -> bool {
    exists|i: int| 0 <= i < s.tables.len() && has_vector((#[trigger] s.tables[i]).1)
}

pub open spec fn uses_without_rowid(s: SnapshotModel) -> bool {
    exists|i: int| 0 <= i < s.tables.len() && (#[trigger] s.tables[i]).1.is_without_rowid
}

pub open spec fn has_generated(t: TableModel) -> bool {
    exists|i: int| 0 <= i < t.columns.len() && (#[trigger] t.columns[i]).is_generated
}

pub open spec fn uses_generated(s: SnapshotModel) -> bool {
    exists|i: int| 0 <= i < s.tables.len() && has_generated((#[trigger] s.tables[i]).1)
}

/// The first feature that the schema uses and the database lacks, in words.
pub open spec fn missing_feature(s: SnapshotModel, caps: Capabilities) -> Option<Text> {
    if uses_fts(s) && !caps.has_fts_module {
        Some(
            "Schema uses FTS indexes but the target connection lacks the FTS module. Ensure .experimental_index_method(true) is set on your turso::Builder."@,
        )
    } else if uses_materialized(s) && !caps.has_materialized_views {
        Some(
            "Schema uses materialized views but the target connection doesn't support them. Ensure .experimental_materialized_views(true) is set on your turso::Builder."@,
        )
    } else if uses_vector(s) && !caps.has_vector_module {
        Some(
            "Schema uses vector columns but the target connection lacks the vector module."@,
        )
    } else if uses_without_rowid(s) && !caps.supports_without_rowid {
        Some("Schema uses WITHOUT ROWID tables but the target connection doesn't support them."@)
    } else if uses_generated(s) && !caps.supports_generated_columns {
        Some("Schema uses GENERATED columns but the target connection doesn't support them."@)
    } else if s.triggers.len() > 0 && !caps.has_triggers {
        Some(
            "Schema uses triggers but the target connection doesn't support them. Ensure .experimental_triggers(true) is set on your turso::Builder."@,
        )
    } else {
        None
    }
}

fn find_fts(s: &SchemaSnapshot) -> (r: bool)
    ensures
        r == uses_fts(s.deep_view()),
{
    let ghost m = s.deep_view();
    let mut i: usize = 0;
    while i < s.indexes.len()
        invariant
            i <= s.indexes@.len(),
            m == s.deep_view(),
            forall|j: int| 0 <= j < i ==> !(#[trigger] m.indexes[j]).1.is_fts,
        decreases s.indexes@.len() - i,
    {
        let index = s.indexes.value_at(i);
        assert(m.indexes[i as int].1 == index.deep_view());
        if index.is_fts {
            return true;
        }
        i += 1;
    }
    false
}

fn find_materialized(s: &SchemaSnapshot) -> (r: bool)
    ensures
        r == uses_materialized(s.deep_view()),
{
    let ghost m = s.deep_view();
    let mut i: usize = 0;
    while i < s.views.len()
        invariant
            i <= s.views@.len(),
            m == s.deep_view(),
            forall|j: int| 0 <= j < i ==> !(#[trigger] m.views[j]).1.is_materialized,
        decreases s.views@.len() - i,
    {
        let view = s.views.value_at(i);
        assert(m.views[i as int].1 == view.deep_view());
        if view.is_materialized {
            return true;
        }
        i += 1;
    }
    false
}

fn find_vector_column(t: &TableInfo) -> (r: bool)
    ensures
        r == has_vector(t.deep_view()),
{
    let ghost m = t.deep_view();
    let mut i: usize = 0;
    while i < t.columns.len()
        invariant
            i <= t.columns.len(),
            m == t.deep_view(),
            forall|j: int| 0 <= j < i ==> !is_vector(#[trigger] m.columns[j]),
        decreases t.columns.len() - i,
    {
        assert(m.columns[i as int] == t.columns@[i as int].deep_view());
        if lower_starts_with(t.columns[i].col_type.as_str(), "vector") {
            return true;
        }
        i += 1;
    }
    false
}

fn find_generated_column(t: &TableInfo) -> (r: bool)
    ensures
        r == has_generated(t.deep_view()),
{
    let ghost m = t.deep_view();
    let mut i: usize = 0;
    while i < t.columns.len()
        invariant
            i <= t.columns.len(),
            m == t.deep_view(),
            forall|j: int| 0 <= j < i ==> !(#[trigger] m.columns[j]).is_generated,
        decreases t.columns.len() - i,
    {
        assert(m.columns[i as int] == t.columns@[i as int].deep_view());
        if t.columns[i].is_generated {
            return true;
        }
        i += 1;
    }
    false
}

/// Whether any table has a vector column, is without row ids, has a generated column.
fn find_table_features(s: &SchemaSnapshot) -> (r: (bool, bool, bool))
    ensures
        r.0 == uses_vector(s.deep_view()),
        r.1 == uses_without_rowid(s.deep_view()),
        r.2 == uses_generated(s.deep_view()),
{
    let ghost m = s.deep_view();
    let mut vector = false;
    let mut without_rowid = false;
    let mut generated = false;
    let mut i: usize = 0;
    while i < s.tables.len()
        invariant
            i <= s.tables@.len(),
            m == s.deep_view(),
            vector ==> uses_vector(m),
            without_rowid ==> uses_without_rowid(m),
            generated ==> uses_generated(m),
            !vector ==> forall|j: int| 0 <= j < i ==> !has_vector((#[trigger] m.tables[j]).1),
            !without_rowid ==> forall|j: int|
                0 <= j < i ==> !(#[trigger] m.tables[j]).1.is_without_rowid,
            !generated ==> forall|j: int|
                0 <= j < i ==> !has_generated((#[trigger] m.tables[j]).1),
        decreases s.tables@.len() - i,
    {
        let table = s.tables.value_at(i);
        assert(m.tables[i as int].1 == table.deep_view());
        if find_vector_column(table) {
            vector = true;
        }
        if table.is_without_rowid {
            without_rowid = true;
        }
        if find_generated_column(table) {
            generated = true;
        }
        i += 1;
    }
    (vector, without_rowid, generated)
}

/// Whether the database has all that the schema uses.
pub fn validate_features(desired: &SchemaSnapshot, caps: &Capabilities) -> (r: Result<
    (),
    MigrateError,
>)
    ensures
        match missing_feature(desired.deep_view(), *caps) {
            Some(m) => r matches Err(x) && x.deep_view() == ErrorModel::UnsupportedFeature(m),
            None => r is Ok,
        },
{
    let (vector, without_rowid, generated) = find_table_features(desired);
    let message = if find_fts(desired) && !caps.has_fts_module {
        "Schema uses FTS indexes but the target connection lacks the FTS module. Ensure .experimental_index_method(true) is set on your turso::Builder."
    } else if find_materialized(desired) && !caps.has_materialized_views {
        "Schema uses materialized views but the target connection doesn't support them. Ensure .experimental_materialized_views(true) is set on your turso::Builder."
    } else if vector && !caps.has_vector_module {
        "Schema uses vector columns but the target connection lacks the vector module."
    } else if without_rowid && !caps.supports_without_rowid {
        "Schema uses WITHOUT ROWID tables but the target connection doesn't support them."
    } else if generated && !caps.supports_generated_columns {
        "Schema uses GENERATED columns but the target connection doesn't support them."
    } else if desired.triggers.len() > 0 && !caps.has_triggers {
        "Schema uses triggers but the target connection doesn't support them. Ensure .experimental_triggers(true) is set on your turso::Builder."
    } else {
        return Ok(());
    };
    Err(MigrateError::UnsupportedFeature(message.to_owned()))
}

// ---------------------------------------------------------------------------
// Features, by the text of the schema
// ---------------------------------------------------------------------------

/// Whether a text in normal form says the phrase outside of literals.
pub open spec fn says(t: Text, phrase: Text) -> bool
    decreases t.len(),
{
    if t.len() == 0 {
        false
    } else if is_quote(t[0]) {
        proof {
            lemma_literal_tail(t.skip(1), t[0]);
        }
        says(t.skip(literal_len(t) as int), phrase)
    } else {
        matches_at(t, phrase, 0) || says(t.skip(1), phrase)
    }
}

/// Whether the text of a schema mentions tables without row ids.
pub open spec fn mentions_without_rowid(sql: Text) -> bool {
    says(normal(sql), "without rowid"@)
}

/// Whether the text of a schema mentions generated columns.
pub open spec fn mentions_generated(sql: Text) -> bool {
    says(normal(sql), "generated always"@)
}

/// What the text of a schema already shows to be lacking, in words. The database would
/// refuse such a text with a message that helps nobody.
pub open spec fn unreadable(sql: Text, caps: Capabilities) -> Option<Text> {
    if mentions_without_rowid(sql) && !caps.supports_without_rowid {
        Some("Schema uses WITHOUT ROWID tables but the target connection doesn't support them."@)
    } else if mentions_generated(sql) && !caps.supports_generated_columns {
        Some("Schema uses GENERATED columns but the target connection doesn't support them."@)
    } else {
        None
    }
}

fn find_phrase(v: &[char], phrase: &[char]) -> (r: bool)
    ensures
        r == says(v@, phrase@),
{
    let mut i: usize = 0;
    assert(v@.skip(0) == v@);
    while i < v.len()
        invariant
            i <= v.len(),
            says(v@, phrase@) == says(v@.skip(i as int), phrase@),
        decreases v.len() - i,
    {
        let ghost here = v@.skip(i as int);
        if v[i] == '\'' || v[i] == '"' {
            let end = literal_end(v, i);
            assert(here.skip(literal_len(here) as int) == v@.skip(end as int));
            i = end;
        } else {
            let found = chars_match_at(v, phrase, i);
            assert(found == matches_at(here, phrase@, 0)) by {
                lemma_matches_in_tail(v@, phrase@, i as int);
            }
            if found {
                return true;
            }
            assert(here.skip(1) == v@.skip(i + 1));
            i += 1;
        }
    }
    false
}

proof fn lemma_matches_in_tail(t: Text, p: Text, i: int)
    requires
        0 <= i <= t.len(),
    ensures
        matches_at(t.skip(i), p, 0) == matches_at(t, p, i),
{
    if matches_at(t, p, i) {
        assert(t.skip(i).subrange(0, p.len() as int) =~= t.subrange(i, i + p.len()));
    }
    if matches_at(t.skip(i), p, 0) {
        assert(t.skip(i).subrange(0, p.len() as int) =~= t.subrange(i, i + p.len()));
    }
}

/// Whether the text of a schema mentions tables without row ids, and generated columns.
pub fn scan_features(schema_sql: &str) -> (r: (bool, bool))
    ensures
        r == (mentions_without_rowid(schema_sql@), mentions_generated(schema_sql@)),
{
    let form = normalize_sql(schema_sql);
    let v = chars_of(form.as_str());
    let a = chars_of("without rowid");
    let b = chars_of("generated always");
    (find_phrase(v.as_slice(), a.as_slice()), find_phrase(v.as_slice(), b.as_slice()))
}

/// Whether the text of the schema shows a feature that the database lacks.
pub fn check_schema_text(schema_sql: &str, caps: &Capabilities) -> (r: Result<(), MigrateError>)
    ensures
        match unreadable(schema_sql@, *caps) {
            Some(m) => r matches Err(x) && x.deep_view() == ErrorModel::UnsupportedFeature(m),
            None => r is Ok,
        },
{
    let (without_rowid, generated) = scan_features(schema_sql);
    if without_rowid && !caps.supports_without_rowid {
        return Err(
            MigrateError::UnsupportedFeature(
                "Schema uses WITHOUT ROWID tables but the target connection doesn't support them.".to_owned(),
            ),
        );
    }
    if generated && !caps.supports_generated_columns {
        return Err(
            MigrateError::UnsupportedFeature(
                "Schema uses GENERATED columns but the target connection doesn't support them.".to_owned(),
            ),
        );
    }
    Ok(())
}

// ---------------------------------------------------------------------------
// Failpoints
// ---------------------------------------------------------------------------

/// The error of a failpoint.
pub open spec fn injected(point: Failpoint) -> ErrorModel {
    ErrorModel::InjectedFailure { failpoint: point.name() }
}

/// Stops at the failpoint that is set.
pub fn check_failpoint(configured: Option<Failpoint>, target: Failpoint) -> (r: Result<
    (),
    MigrateError,
>)
    ensures
        if configured == Some(target) {
            r matches Err(x) && x.deep_view() == injected(target)
        } else {
            r is Ok
        },
{
    match configured {
        Some(point) => if point == target {
            Err(MigrateError::InjectedFailure { failpoint: target.as_str().to_owned() })
        } else {
            Ok(())
        },
        None => Ok(()),
    }
}

// ---------------------------------------------------------------------------
// Laws
// ---------------------------------------------------------------------------

/// The policy that a caller gets without asking lets no table and no column be dropped.
pub proof fn lemma_default_policy_keeps_data(diff: DiffModel, policy: ConvergePolicy)
    requires
        !policy.allow_table_drops,
        !policy.allow_column_drops,
        policy_violation(diff, policy) is None,
    ensures
        diff.tables_to_drop.len() == 0,
        diff.columns_to_drop.len() == 0,
{
}

/// The permissive policy lets everything pass.
pub proof fn lemma_permissive_policy_allows(diff: DiffModel, policy: ConvergePolicy)
    requires
        policy.allow_table_drops,
        policy.allow_column_drops,
        policy.allow_table_rebuilds,
        policy.max_tables_affected is None,
    ensures
        policy_violation(diff, policy) is None,
{
}

/// Where nothing has to change, no policy has anything against it.
pub proof fn lemma_nothing_violates_nothing(diff: DiffModel, policy: ConvergePolicy)
    requires
        diff.nothing(),
    ensures
        policy_violation(diff, policy) is None,
        !destructive_changes(diff).has_changes(),
{
}

/// Where the database can do everything, no schema is refused.
pub proof fn lemma_full_database_lacks_nothing(s: SnapshotModel, sql: Text, caps: Capabilities)
    requires
        caps.has_fts_module,
        caps.has_vector_module,
        caps.has_materialized_views,
        caps.supports_without_rowid,
        caps.supports_generated_columns,
        caps.has_triggers,
    ensures
        missing_feature(s, caps) is None,
        unreadable(sql, caps) is None,
{
}

} // verus!
