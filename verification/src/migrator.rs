//! A schema text with its fingerprint, and the plans that lead to it.

use vstd::prelude::*;

use crate::diff::compute_diff;
#[allow(unused_imports)]
use crate::diff::{difference, DiffModel};
use crate::error::MigrateError;
#[allow(unused_imports)]
use crate::error::ErrorModel;
use crate::hash::hash_schema;
#[allow(unused_imports)]
use crate::hash::schema_digest;
use crate::plan::{generate_plan, MigrationPlan};
#[allow(unused_imports)]
use crate::plan::{first_refusal, plan_of, PlanModel};
use crate::schema::SchemaSnapshot;
#[allow(unused_imports)]
use crate::schema::SnapshotModel;
use crate::text::Text;

verus! {

/// A schema to migrate to.
#[derive(Debug)]
pub struct Migrator {
    schema_sql: String,
    schema_hash: String,
    allow_deletions: bool,
}

pub struct MigratorModel {
    pub schema_sql: Text,
    pub schema_hash: Text,
    pub allow_deletions: bool,
}

impl DeepView for Migrator {
    type V = MigratorModel;

    closed spec fn deep_view(&self) -> MigratorModel {
        MigratorModel {
            schema_sql: self.schema_sql@,
            schema_hash: self.schema_hash@,
            allow_deletions: self.allow_deletions,
        }
    }
}

/// The plan for a difference, or the error where a rebuild would leave a column without
/// a value.
pub open spec fn planned(
    diff: DiffModel,
    desired: SnapshotModel,
    actual: SnapshotModel,
) -> Result<PlanModel, ErrorModel> {
    match first_refusal(diff.tables_to_rebuild, desired, actual, 0) {
        Some(m) => Err(ErrorModel::Schema(m)),
        None => Ok(plan_of(diff, desired, actual)),
    }
}

/// The difference that a migration makes up: tables that the schema does not have stay,
/// unless they may be deleted.
pub open spec fn spared(diff: DiffModel, allow_deletions: bool) -> DiffModel {
    if allow_deletions {
        diff
    } else {
        DiffModel { tables_to_drop: Seq::empty(), ..diff }
    }
}

impl Migrator {
    /// A migrator to the schema text, which deletes no table.
    pub fn new(schema_sql: &str) -> (r: Self)
        ensures
            r.deep_view() == (MigratorModel {
                schema_sql: schema_sql@,
                schema_hash: schema_digest(schema_sql@),
                allow_deletions: false,
            }),
    {
        Migrator {
            schema_sql: schema_sql.to_owned(),
            schema_hash: hash_schema(schema_sql),
            allow_deletions: false,
        }
    }

    /// Says whether tables that the schema does not have are deleted.
    pub fn allow_deletions(self, allow: bool) -> (r: Self)
        ensures
            r.deep_view() == (MigratorModel { allow_deletions: allow, ..self.deep_view() }),
    {
        Migrator { allow_deletions: allow, ..self }
    }

    /// The schema text.
    pub fn schema_sql(&self) -> (r: &str)
        ensures
            r@ == self.deep_view().schema_sql,
    {
        self.schema_sql.as_str()
    }

    /// The fingerprint of the schema text.
    pub fn schema_hash(&self) -> (r: &str)
        ensures
            r@ == self.deep_view().schema_hash,
    {
        self.schema_hash.as_str()
    }

    /// The plan that leads from the one schema to the other, deletions included.
    pub fn plan(&self, desired: &SchemaSnapshot, actual: &SchemaSnapshot) -> (r: Result<
        MigrationPlan,
        MigrateError,
    >)
        ensures
            match planned(
                difference(desired.deep_view(), actual.deep_view(), Seq::empty()),
                desired.deep_view(),
                actual.deep_view(),
            ) {
                Ok(p) => r matches Ok(plan) && plan.deep_view() == p,
                Err(m) => r matches Err(e) && e.deep_view() == m,
            },
    {
        let diff = compute_diff(desired, actual);
        generate_plan(&diff, desired, actual)
    }

    /// The plan that is to be run: no table is deleted unless deletions are allowed.
    pub fn migrate(&self, desired: &SchemaSnapshot, actual: &SchemaSnapshot) -> (r: Result<
        MigrationPlan,
        MigrateError,
    >)
        ensures
            match planned(
                spared(
                    difference(desired.deep_view(), actual.deep_view(), Seq::empty()),
                    self.deep_view().allow_deletions,
                ),
                desired.deep_view(),
                actual.deep_view(),
            ) {
                Ok(p) => r matches Ok(plan) && plan.deep_view() == p,
                Err(m) => r matches Err(e) && e.deep_view() == m,
            },
    {
        let mut diff = compute_diff(desired, actual);
        let ghost all = diff.deep_view();
        if !self.allow_deletions {
            diff.tables_to_drop = Vec::new();
            assert(diff.tables_to_drop.deep_view() =~= Seq::empty());
        }
        assert(diff.deep_view() == spared(all, self.allow_deletions));
        generate_plan(&diff, desired, actual)
    }
}

} // verus!
