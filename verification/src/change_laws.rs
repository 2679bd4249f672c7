//! What a difference between two schemas is for: every way in which they differ is in it,
//! and nothing is in it without a reason. The statements speak of the columns, indexes,
//! views and triggers themselves.

use vstd::prelude::*;

#[allow(unused_imports)]
use crate::diff::{
    addable, column_altered, difference, droppable, entry_change, rebuilds_of, table_altered,
};
#[allow(unused_imports)]
use crate::diff_laws::lemma_created_and_dropped_tables;
#[allow(unused_imports)]
use crate::lists::{has_name, lemma_gather_contains, lemma_name_index_is, name_index};
#[allow(unused_imports)]
use crate::normalize::normal;
#[allow(unused_imports)]
use crate::options::HintModel;
#[allow(unused_imports)]
use crate::schema::{
    column_names, keys, lemma_distinct, lookup, ColumnModel, SnapshotModel, TableModel,
};
#[allow(unused_imports)]
use crate::text::{lower, same_name, Text};

verus! {

// ---------------------------------------------------------------------------
// Words of the laws
// ---------------------------------------------------------------------------

/// Whether one of the columns has the name, up to ASCII case.
pub open spec fn is_column(columns: Seq<ColumnModel>, name: Text) -> bool {
    exists|k: int| 0 <= k < columns.len() && lower((#[trigger] columns[k]).name) == lower(name)
}

/// Whether the column `k` is the first one of the name, up to ASCII case.
pub open spec fn is_first_column(columns: Seq<ColumnModel>, name: Text, k: int) -> bool {
    &&& 0 <= k < columns.len()
    &&& lower(columns[k].name) == lower(name)
    &&& forall|j: int| 0 <= j < k ==> lower((#[trigger] columns[j]).name) != lower(name)
}

/// Whether the table `m` of the one schema has the name of the table `i` of the other.
pub open spec fn is_match(desired: SnapshotModel, actual: SnapshotModel, i: int, m: int) -> bool {
    &&& 0 <= i < desired.tables.len()
    &&& 0 <= m < actual.tables.len()
    &&& lower(desired.tables[i].0) == lower(actual.tables[m].0)
}

/// Whether two DEFAULT expressions say different things.
pub open spec fn defaults_differ(a: Option<Text>, b: Option<Text>) -> bool {
    match (a, b) {
        (Some(x), Some(y)) => normal(x) != normal(y),
        (None, None) => false,
        _ => true,
    }
}

/// A name is one of the column names where a column has it.
pub proof fn lemma_has_column(columns: Seq<ColumnModel>, name: Text)
    ensures
        has_name(column_names(columns), name) == is_column(columns, name),
{
    let names = column_names(columns);
    if has_name(names, name) {
        let k = choose|k: int| 0 <= k < names.len() && same_name(#[trigger] names[k], name);
        assert(lower(columns[k].name) == lower(name));
    }
    if is_column(columns, name) {
        let k = choose|k: int|
            0 <= k < columns.len() && lower((#[trigger] columns[k]).name) == lower(name);
        assert(same_name(names[k], name));
    }
}

/// The first column of a name is the one that is found.
pub proof fn lemma_first_column(columns: Seq<ColumnModel>, name: Text, k: int)
    requires
        is_first_column(columns, name, k),
    ensures
        name_index(column_names(columns), name) == Some(k),
{
    let names = column_names(columns);
    assert forall|j: int| 0 <= j < k implies !same_name(#[trigger] names[j], name) by {
        assert(lower(columns[j].name) != lower(name));
    }
    lemma_name_index_is(names, name, k);
}

/// The table of the same name is the one that is looked up.
pub proof fn lemma_matched_table(desired: SnapshotModel, actual: SnapshotModel, i: int, m: int)
    requires
        is_match(desired, actual, i, m),
        actual.sorted(),
    ensures
        lookup(actual.tables, desired.tables[i].0) == Some(actual.tables[m].1),
{
    lemma_distinct(actual.tables, desired.tables[i].0, m);
}

/// A table whose change is a rebuild is listed.
pub proof fn lemma_rebuild_listed(
    desired: SnapshotModel,
    actual: SnapshotModel,
    hints: Seq<HintModel>,
    i: int,
)
    requires
        0 <= i < desired.tables.len(),
        entry_change(desired.tables[i], actual, hints).rebuild,
    ensures
        difference(desired, actual, hints).tables_to_rebuild.contains(desired.tables[i].0),
{
    let f = rebuilds_of(actual, hints);
    let n = desired.tables[i].0;
    assert(f(desired.tables[i])[0] == n);
    lemma_gather_contains(desired.tables, f, n);
}

// ---------------------------------------------------------------------------
// Rebuilt tables
// ---------------------------------------------------------------------------

/// A table is rebuilt where a visible wanted column is in it with another type, another
/// nullability, another default, another place in the primary key, another collation, or
/// generated where it should not be or the other way round.
pub proof fn lemma_changed_column_rebuilds(
    desired: SnapshotModel,
    actual: SnapshotModel,
    hints: Seq<HintModel>,
    i: int,
    m: int,
    j: int,
    k: int,
)
    requires
        actual.sorted(),
        is_match(desired, actual, i, m),
        0 <= j < desired.tables[i].1.columns.len(),
        is_first_column(
            actual.tables[m].1.columns,
            desired.tables[i].1.columns[j].name,
            k,
        ),
        !desired.tables[i].1.columns[j].is_hidden,
        ({
            let wanted = desired.tables[i].1.columns[j];
            let there = actual.tables[m].1.columns[k];
            ||| lower(wanted.col_type) != lower(there.col_type)
            ||| wanted.notnull != there.notnull
            ||| defaults_differ(wanted.default_value, there.default_value)
            ||| wanted.pk != there.pk
            ||| wanted.collation != there.collation
            ||| wanted.is_generated != there.is_generated
        }),
    ensures
        difference(desired, actual, hints).tables_to_rebuild.contains(desired.tables[i].0),
{
    let e = desired.tables[i];
    let there = actual.tables[m].1;
    lemma_matched_table(desired, actual, i, m);
    lemma_first_column(there.columns, e.1.columns[j].name, k);
    assert(column_altered(e.1.columns[j], there.columns));
    assert(table_altered(e.1, there));
    lemma_rebuild_listed(desired, actual, hints, i);
}

/// A table is rebuilt where its CHECK constraints are not the wanted ones.
pub proof fn lemma_changed_checks_rebuild(
    desired: SnapshotModel,
    actual: SnapshotModel,
    hints: Seq<HintModel>,
    i: int,
    m: int,
)
    requires
        actual.sorted(),
        is_match(desired, actual, i, m),
        desired.tables[i].1.check_constraints != actual.tables[m].1.check_constraints,
    ensures
        difference(desired, actual, hints).tables_to_rebuild.contains(desired.tables[i].0),
{
    lemma_matched_table(desired, actual, i, m);
    assert(table_altered(desired.tables[i].1, actual.tables[m].1));
    lemma_rebuild_listed(desired, actual, hints, i);
}

/// Where nothing has to change, the two schemas have the same tables, and what the tables
/// share is the same: CHECK constraints, and every field of every column.
pub proof fn lemma_no_difference_means_agreement(
    desired: SnapshotModel,
    actual: SnapshotModel,
    hints: Seq<HintModel>,
    i: int,
)
    requires
        actual.sorted(),
        desired.sorted(),
        difference(desired, actual, hints).nothing(),
        0 <= i < desired.tables.len(),
    ensures
        exists|m: int| #[trigger] is_match(desired, actual, i, m),
        forall|m: int, j: int, k: int|
            #![trigger is_match(desired, actual, i, m), desired.tables[i].1.columns[j], actual.tables[m].1.columns[k]]
            is_match(desired, actual, i, m) && 0 <= j < desired.tables[i].1.columns.len()
                && is_first_column(
                actual.tables[m].1.columns,
                desired.tables[i].1.columns[j].name,
                k,
            ) && !desired.tables[i].1.columns[j].is_hidden ==> {
                let wanted = desired.tables[i].1.columns[j];
                let there = actual.tables[m].1.columns[k];
                &&& lower(wanted.col_type) == lower(there.col_type)
                &&& wanted.notnull == there.notnull
                &&& !defaults_differ(wanted.default_value, there.default_value)
                &&& wanted.pk == there.pk
                &&& wanted.collation == there.collation
                &&& wanted.is_generated == there.is_generated
                &&& desired.tables[i].1.check_constraints == actual.tables[m].1.check_constraints
            },
{
    let d = difference(desired, actual, hints);
    let n = desired.tables[i].0;
    lemma_created_and_dropped_tables(desired, actual, hints, n);
    assert(keys(desired.tables)[i] == n);
    assert(d.tables_to_create.len() == 0);
    assert(has_name(keys(actual.tables), n));
    let names = keys(actual.tables);
    let m = choose|m: int| 0 <= m < names.len() && same_name(#[trigger] names[m], n);
    assert(is_match(desired, actual, i, m));
    assert forall|m: int, j: int, k: int|
        #![trigger is_match(desired, actual, i, m), desired.tables[i].1.columns[j], actual.tables[m].1.columns[k]]
        is_match(desired, actual, i, m) && 0 <= j < desired.tables[i].1.columns.len()
            && is_first_column(
            actual.tables[m].1.columns,
            desired.tables[i].1.columns[j].name,
            k,
        ) && !desired.tables[i].1.columns[j].is_hidden implies {
        let wanted = desired.tables[i].1.columns[j];
        let there = actual.tables[m].1.columns[k];
        &&& lower(wanted.col_type) == lower(there.col_type)
        &&& wanted.notnull == there.notnull
        &&& !defaults_differ(wanted.default_value, there.default_value)
        &&& wanted.pk == there.pk
        &&& wanted.collation == there.collation
        &&& wanted.is_generated == there.is_generated
        &&& desired.tables[i].1.check_constraints == actual.tables[m].1.check_constraints
    } by {
        let wanted = desired.tables[i].1.columns[j];
        let there = actual.tables[m].1.columns[k];
        if lower(wanted.col_type) != lower(there.col_type) || wanted.notnull != there.notnull
            || defaults_differ(wanted.default_value, there.default_value) || wanted.pk != there.pk
            || wanted.collation != there.collation || wanted.is_generated != there.is_generated {
            lemma_changed_column_rebuilds(desired, actual, hints, i, m, j, k);
        }
        if desired.tables[i].1.check_constraints != actual.tables[m].1.check_constraints {
            lemma_changed_checks_rebuild(desired, actual, hints, i, m);
        }
    }
}

/// Whether a column takes more than ALTER TABLE ADD COLUMN can give: it is in the primary
/// key, must not be null without a default, or is generated.
pub open spec fn cannot_be_added(c: ColumnModel) -> bool {
    c.pk != 0 || (c.notnull && c.default_value is None) || c.is_generated
}

/// Whether something holds a column in its table: the primary key, an index of the table
/// that uses it, a trigger on the table, a view that names the table, a foreign key from
/// it or to it.
pub open spec fn cannot_be_dropped(c: ColumnModel, table: TableModel, s: SnapshotModel) -> bool {
    ||| c.pk != 0
    ||| exists|i: int, j: int|
        0 <= i < s.indexes.len() && lower((#[trigger] s.indexes[i]).1.table_name) == lower(
            table.name,
        ) && 0 <= j < s.indexes[i].1.columns.len() && lower(
            #[trigger] s.indexes[i].1.columns[j],
        ) == lower(c.name)
    ||| exists|i: int|
        0 <= i < s.triggers.len() && lower((#[trigger] s.triggers[i]).1.table_name) == lower(
            table.name,
        )
    ||| exists|i: int, a: Text, b: Text|
        0 <= i < s.views.len() && lower((#[trigger] s.views[i]).1.sql) == #[trigger] (a + lower(
            table.name,
        ) + b)
    ||| exists|i: int, j: int|
        0 <= i < table.foreign_keys.len() && 0 <= j < (
        #[trigger] table.foreign_keys[i]).from_columns.len() && lower(
            #[trigger] table.foreign_keys[i].from_columns[j],
        ) == lower(c.name)
    ||| exists|t: int, i: int, j: int|
        0 <= t < s.tables.len() && 0 <= i < (#[trigger] s.tables[t]).1.foreign_keys.len() && lower(
            (#[trigger] s.tables[t].1.foreign_keys[i]).to_table,
        ) == lower(table.name) && 0 <= j < s.tables[t].1.foreign_keys[i].to_columns.len() && lower(
            #[trigger] s.tables[t].1.foreign_keys[i].to_columns[j],
        ) == lower(c.name)
}

proof fn lemma_named(names: Seq<Text>, n: Text)
    ensures
        has_name(names, n) == exists|j: int|
            0 <= j < names.len() && lower(#[trigger] names[j]) == lower(n),
{
    if has_name(names, n) {
        let j = choose|j: int| 0 <= j < names.len() && same_name(#[trigger] names[j], n);
        assert(lower(names[j]) == lower(n));
    }
    if exists|j: int| 0 <= j < names.len() && lower(#[trigger] names[j]) == lower(n) {
        let j = choose|j: int| 0 <= j < names.len() && lower(#[trigger] names[j]) == lower(n);
        assert(same_name(names[j], n));
    }
}

/// A column can be dropped exactly where nothing holds it.
pub proof fn lemma_droppable(c: ColumnModel, table: TableModel, s: SnapshotModel)
    ensures
        droppable(c, table, s) == !cannot_be_dropped(c, table, s),
{
    if !droppable(c, table, s) {
        if c.pk == 0 {
            if crate::diff::is_indexed(s.indexes, table.name, c.name) {
                let i = choose|i: int|
                    0 <= i < s.indexes.len() && same_name(
                        (#[trigger] s.indexes[i]).1.table_name,
                        table.name,
                    ) && has_name(s.indexes[i].1.columns, c.name);
                lemma_named(s.indexes[i].1.columns, c.name);
                let j = choose|j: int|
                    0 <= j < s.indexes[i].1.columns.len() && lower(
                        #[trigger] s.indexes[i].1.columns[j],
                    ) == lower(c.name);
                assert(lower(s.indexes[i].1.columns[j]) == lower(c.name));
            } else if crate::diff::has_table_trigger(s.triggers, table.name) {
                let i = choose|i: int|
                    0 <= i < s.triggers.len() && same_name(
                        (#[trigger] s.triggers[i]).1.table_name,
                        table.name,
                    );
                assert(lower(s.triggers[i].1.table_name) == lower(table.name));
            } else if crate::diff::is_in_view(s.views, table.name) {
                let i = choose|i: int|
                    0 <= i < s.views.len() && crate::search::contains(
                        lower((#[trigger] s.views[i]).1.sql),
                        lower(table.name),
                    );
                let (a, b) = lemma_contains_parts(lower(s.views[i].1.sql), lower(table.name));
                assert(lower(s.views[i].1.sql) == a + lower(table.name) + b);
            } else if crate::diff::starts_key(table.foreign_keys, c.name) {
                let i = choose|i: int|
                    0 <= i < table.foreign_keys.len() && has_name(
                        (#[trigger] table.foreign_keys[i]).from_columns,
                        c.name,
                    );
                lemma_named(table.foreign_keys[i].from_columns, c.name);
                let j = choose|j: int|
                    0 <= j < table.foreign_keys[i].from_columns.len() && lower(
                        #[trigger] table.foreign_keys[i].from_columns[j],
                    ) == lower(c.name);
                assert(lower(table.foreign_keys[i].from_columns[j]) == lower(c.name));
            } else {
                let t = choose|t: int|
                    0 <= t < s.tables.len() && crate::diff::ends_key(
                        (#[trigger] s.tables[t]).1.foreign_keys,
                        table.name,
                        c.name,
                    );
                let fks = s.tables[t].1.foreign_keys;
                let i = choose|i: int|
                    0 <= i < fks.len() && same_name((#[trigger] fks[i]).to_table, table.name)
                        && has_name(fks[i].to_columns, c.name);
                lemma_named(fks[i].to_columns, c.name);
                let j = choose|j: int|
                    0 <= j < fks[i].to_columns.len() && lower(#[trigger] fks[i].to_columns[j])
                        == lower(c.name);
                assert(lower(s.tables[t].1.foreign_keys[i].to_columns[j]) == lower(c.name));
            }
        }
    }
    if cannot_be_dropped(c, table, s) {
        lemma_held_is_not_droppable(c, table, s);
    }
}

proof fn lemma_contains_parts(t: Text, p: Text) -> (r: (Text, Text))
    requires
        crate::search::contains(t, p),
    ensures
        t == r.0 + p + r.1,
{
    let k = choose|k: int| #[trigger] crate::search::matches_at(t, p, k);
    let a = t.take(k);
    let b = t.skip(k + p.len());
    assert(t =~= a + t.subrange(k, k + p.len()) + b);
    (a, b)
}

proof fn lemma_parts_contained(t: Text, p: Text, a: Text, b: Text)
    requires
        t == a + p + b,
    ensures
        crate::search::contains(t, p),
{
    assert(t.subrange(a.len() as int, (a.len() + p.len()) as int) =~= p);
    assert(crate::search::matches_at(t, p, a.len() as int));
}

proof fn lemma_held_is_not_droppable(c: ColumnModel, table: TableModel, s: SnapshotModel)
    requires
        cannot_be_dropped(c, table, s),
    ensures
        !droppable(c, table, s),
{
    if c.pk != 0 {
    } else if exists|i: int, j: int|
        0 <= i < s.indexes.len() && lower((#[trigger] s.indexes[i]).1.table_name) == lower(
            table.name,
        ) && 0 <= j < s.indexes[i].1.columns.len() && lower(
            #[trigger] s.indexes[i].1.columns[j],
        ) == lower(c.name) {
        let (i, j) = choose|i: int, j: int|
            0 <= i < s.indexes.len() && lower((#[trigger] s.indexes[i]).1.table_name) == lower(
                table.name,
            ) && 0 <= j < s.indexes[i].1.columns.len() && lower(
                #[trigger] s.indexes[i].1.columns[j],
            ) == lower(c.name);
        lemma_named(s.indexes[i].1.columns, c.name);
        assert(same_name(s.indexes[i].1.table_name, table.name));
    } else if exists|i: int|
        0 <= i < s.triggers.len() && lower((#[trigger] s.triggers[i]).1.table_name) == lower(
            table.name,
        ) {
        let i = choose|i: int|
            0 <= i < s.triggers.len() && lower((#[trigger] s.triggers[i]).1.table_name) == lower(
                table.name,
            );
        assert(same_name(s.triggers[i].1.table_name, table.name));
    } else if exists|i: int, a: Text, b: Text|
        0 <= i < s.views.len() && lower((#[trigger] s.views[i]).1.sql) == #[trigger] (a + lower(
            table.name,
        ) + b) {
        let (i, a, b) = choose|i: int, a: Text, b: Text|
            0 <= i < s.views.len() && lower((#[trigger] s.views[i]).1.sql) == #[trigger] (a + lower(
                table.name,
            ) + b);
        lemma_parts_contained(lower(s.views[i].1.sql), lower(table.name), a, b);
    } else if exists|i: int, j: int|
        0 <= i < table.foreign_keys.len() && 0 <= j < (
        #[trigger] table.foreign_keys[i]).from_columns.len() && lower(
            #[trigger] table.foreign_keys[i].from_columns[j],
        ) == lower(c.name) {
        let (i, j) = choose|i: int, j: int|
            0 <= i < table.foreign_keys.len() && 0 <= j < (
            #[trigger] table.foreign_keys[i]).from_columns.len() && lower(
                #[trigger] table.foreign_keys[i].from_columns[j],
            ) == lower(c.name);
        lemma_named(table.foreign_keys[i].from_columns, c.name);
    } else {
        let (t, i, j) = choose|t: int, i: int, j: int|
            0 <= t < s.tables.len() && 0 <= i < (#[trigger] s.tables[t]).1.foreign_keys.len()
                && lower((#[trigger] s.tables[t].1.foreign_keys[i]).to_table) == lower(table.name)
                && 0 <= j < s.tables[t].1.foreign_keys[i].to_columns.len() && lower(
                #[trigger] s.tables[t].1.foreign_keys[i].to_columns[j],
            ) == lower(c.name);
        let fks = s.tables[t].1.foreign_keys;
        lemma_named(fks[i].to_columns, c.name);
        assert(same_name(fks[i].to_table, table.name));
        assert(crate::diff::ends_key(fks, table.name, c.name));
    }
}

/// A column can be added in place exactly where nothing stands against it.
pub proof fn lemma_addable(c: ColumnModel)
    ensures
        addable(c) == !cannot_be_added(c),
{
}

} // verus!
