//! What the statements of a plan say. Each law speaks of the text of the statements and
//! of the columns, tables, indexes, views and triggers that they are about.

use vstd::prelude::*;

#[allow(unused_imports)]
use crate::diff::DiffModel;
#[allow(unused_imports)]
use crate::format::{decimal, doubled, joined, quoted_ident};
#[allow(unused_imports)]
use crate::lists::{
    gather, has_name, increasing, lemma_gather_contains, lemma_name_index, lemma_sorted_set,
    sorted_set,
};
#[allow(unused_imports)]
use crate::plan::{
    add_column_statements, copied_value, copied_values, copy_statement, drop_column_statements,
    drop_statements, if_in, if_insertable, if_not_protected, index_on, insertable_columns,
    ordered_tables, ordered_views, plan_of, quoted_names, rebuild_statements, rebuilds,
    rename_statements, sql_in, trigger_on, with_indexes, with_triggers, with_views,
};
#[allow(unused_imports)]
use crate::plan_laws::{lemma_new_tables_in_order, lemma_views_in_order};
#[allow(unused_imports)]
use crate::schema::{
    column_names, index_texts, keys, lemma_distinct, lower_keys, sorted_keys, table_texts,
    trigger_texts, view_texts, ColumnModel, IndexModel, SnapshotModel, TableModel, TriggerModel,
    ViewModel,
};
#[allow(unused_imports)]
use crate::search::starts_with;
#[allow(unused_imports)]
use crate::text::{lower, same_name, Text};

verus! {

// ---------------------------------------------------------------------------
// Picking items
// ---------------------------------------------------------------------------

/// Strictly increasing positions of a list of `n` items.
pub open spec fn positions(at: Seq<int>, n: int) -> bool {
    &&& forall|i: int| 0 <= i < at.len() ==> 0 <= #[trigger] at[i] < n
    &&& forall|i: int, j: int| 0 <= i < j < at.len() ==> #[trigger] at[i] < #[trigger] at[j]
}

/// Where each item gives one thing or none, what is gathered stands for the items that
/// give one, in their order.
pub proof fn lemma_gathered_at<A, B>(s: Seq<A>, f: spec_fn(A) -> Seq<B>) -> (at: Seq<int>)
    requires
        forall|x: A| (#[trigger] f(x)).len() <= 1,
    ensures
        positions(at, s.len() as int),
        at.len() == gather(s, f).len(),
        forall|i: int|
            0 <= i < at.len() ==> f(s[#[trigger] at[i]]).len() == 1 && f(s[at[i]])[0] == gather(
                s,
                f,
            )[i],
        forall|j: int|
            0 <= j < s.len() && f(#[trigger] s[j]).len() == 1 ==> at.contains(j),
    decreases s.len(),
{
    if s.len() == 0 {
        Seq::empty()
    } else {
        let d = s.drop_last();
        let before = lemma_gathered_at(d, f);
        let last = s.len() - 1;
        assert(s[last] == s.last());
        let at = if f(s.last()).len() == 1 {
            before.push(last)
        } else {
            before
        };
        assert forall|j: int| 0 <= j < s.len() && f(#[trigger] s[j]).len() == 1 implies at.contains(
            j,
        ) by {
            if j == last {
                assert(at[before.len() as int] == j);
            } else {
                assert(d[j] == s[j]);
                let k = choose|k: int| 0 <= k < before.len() && before[k] == j;
                assert(at[k] == j);
            }
        }
        assert forall|i: int| 0 <= i < at.len() implies f(s[#[trigger] at[i]]).len() == 1 && f(
            s[at[i]],
        )[0] == gather(s, f)[i] by {
            if i < before.len() {
                assert(at[i] == before[i]);
                assert(d[before[i]] == s[before[i]]);
            }
        }
        assert forall|i: int| 0 <= i < at.len() implies 0 <= #[trigger] at[i] < s.len() by {
            if i < before.len() {
                assert(at[i] == before[i]);
            }
        }
        assert forall|i: int, j: int| 0 <= i < j < at.len() implies #[trigger] at[i]
            < #[trigger] at[j] by {
            assert(at[i] == before[i]);
            if j < before.len() {
                assert(at[j] == before[j]);
            }
        }
        at
    }
}

// ---------------------------------------------------------------------------
// The rows of a rebuilt table
// ---------------------------------------------------------------------------

/// Whether one of the columns has the name, up to ASCII case, and takes values.
pub open spec fn is_filled_column(columns: Seq<ColumnModel>, name: Text) -> bool {
    exists|k: int|
        0 <= k < columns.len() && lower((#[trigger] columns[k]).name) == lower(name)
            && !columns[k].is_generated && !columns[k].is_hidden
}

/// The columns that take values, at their places.
pub proof fn lemma_insertable_columns(columns: Seq<ColumnModel>) -> (at: Seq<int>)
    ensures
        positions(at, columns.len() as int),
        at.len() == insertable_columns(columns).len(),
        forall|i: int|
            0 <= i < at.len() ==> columns[#[trigger] at[i]] == insertable_columns(columns)[i],
        forall|j: int|
            0 <= j < columns.len() ==> (at.contains(j) <==> !(#[trigger] columns[j]).is_generated
                && !columns[j].is_hidden),
{
    let f = if_insertable();
    let at = lemma_gathered_at(columns, f);
    assert forall|j: int| 0 <= j < columns.len() implies (at.contains(j) <==> !(
    #[trigger] columns[j]).is_generated && !columns[j].is_hidden) by {
        if at.contains(j) {
            let i = choose|i: int| 0 <= i < at.len() && at[i] == j;
            assert(f(columns[at[i]]).len() == 1);
        }
    }
    at
}

proof fn lemma_filled_column(columns: Seq<ColumnModel>, name: Text)
    ensures
        has_name(column_names(insertable_columns(columns)), name) == is_filled_column(
            columns,
            name,
        ),
{
    let kept = insertable_columns(columns);
    let names = column_names(kept);
    let at = lemma_insertable_columns(columns);
    lemma_name_index(names, name);
    if has_name(names, name) {
        let i = crate::lists::name_index(names, name)->0;
        assert(columns[at[i]] == kept[i]);
        assert(at.contains(at[i]));
        assert(lower(columns[at[i]].name) == lower(name));
    }
    if is_filled_column(columns, name) {
        let k = choose|k: int|
            0 <= k < columns.len() && lower((#[trigger] columns[k]).name) == lower(name)
                && !columns[k].is_generated && !columns[k].is_hidden;
        assert(at.contains(k));
        let i = choose|i: int| 0 <= i < at.len() && at[i] == k;
        assert(kept[i] == columns[at[i]]);
        assert(same_name(names[i], name));
    }
}

/// The statement that copies the rows of a rebuilt table names each wanted column that
/// takes values, in their order, and selects for each of them the old column of the same
/// name, whether or not there is a default. A column that the old table lacks gets its
/// default, and NULL where it has none.
pub proof fn lemma_copy_keeps_old_values(
    table: Text,
    temp: Text,
    desired: Seq<ColumnModel>,
    actual: Seq<ColumnModel>,
) -> (r: (Seq<int>, Seq<Text>, Seq<Text>))
    ensures
        ({
            let (at, names, values) = r;
            &&& copy_statement(table, temp, desired, actual) == "INSERT INTO "@ + quoted_ident(temp)
                + " ("@ + joined(names, ", "@) + ") SELECT "@ + joined(values, ", "@) + " FROM "@
                + quoted_ident(table)
            &&& names.len() == at.len()
            &&& values.len() == at.len()
            &&& positions(at, desired.len() as int)
            &&& forall|j: int|
                0 <= j < desired.len() ==> (at.contains(j) <==> !(
                #[trigger] desired[j]).is_generated && !desired[j].is_hidden)
            &&& forall|i: int|
                0 <= i < at.len() ==> #[trigger] names[i] == quoted_ident(desired[at[i]].name)
            &&& forall|i: int|
                0 <= i < at.len() && is_filled_column(actual, desired[at[i]].name)
                    ==> #[trigger] values[i] == quoted_ident(desired[at[i]].name)
            &&& forall|i: int|
                0 <= i < at.len() && !is_filled_column(actual, desired[at[i]].name)
                    && desired[at[i]].default_value is Some ==> #[trigger] values[i]
                    == desired[at[i]].default_value->0
            &&& forall|i: int|
                0 <= i < at.len() && !is_filled_column(actual, desired[at[i]].name)
                    && desired[at[i]].default_value is None ==> #[trigger] values[i] == "NULL"@
        }),
{
    let at = lemma_insertable_columns(desired);
    let columns = insertable_columns(desired);
    let names = quoted_names(columns);
    let values = copied_values(columns, actual);
    assert forall|i: int| 0 <= i < at.len() implies #[trigger] columns[i] == desired[at[i]] && has_name(
        column_names(insertable_columns(actual)),
        desired[at[i]].name,
    ) == is_filled_column(actual, desired[at[i]].name) by {
        assert(desired[at[i]] == columns[i]);
        lemma_filled_column(actual, desired[at[i]].name);
    }
    assert forall|i: int| 0 <= i < at.len() implies #[trigger] names[i] == quoted_ident(
        desired[at[i]].name,
    ) by {
        assert(columns[i] == desired[at[i]]);
    }
    assert forall|i: int| 0 <= i < at.len() implies #[trigger] values[i] == copied_value(
        desired[at[i]],
        actual,
    ) && columns[i] == desired[at[i]] by {
        assert(columns[i] == desired[at[i]]);
    }
    (at, names, values)
}

// ---------------------------------------------------------------------------
// The groups of statements
// ---------------------------------------------------------------------------

/// The first `n` lists, one behind the other.
pub open spec fn strung(g: Seq<Seq<Text>>, n: int) -> Seq<Text>
    decreases n,
{
    if n <= 0 {
        Seq::empty()
    } else {
        strung(g, n - 1) + g[n - 1]
    }
}

/// Each list stands behind those before it.
pub proof fn lemma_strung(g: Seq<Seq<Text>>, k: int, n: int)
    requires
        0 <= k < n,
    ensures
        strung(g, k).len() + g[k].len() <= strung(g, n).len(),
        forall|j: int|
            0 <= j < g[k].len() ==> strung(g, n)[strung(g, k).len() + j] == #[trigger] g[k][j],
    decreases n - k,
{
    if k + 1 < n {
        lemma_strung(g, k, n - 1);
    }
}

/// The groups of the statements that run in transactions.
pub open spec fn groups(
    diff: DiffModel,
    desired: SnapshotModel,
    actual: SnapshotModel,
) -> Seq<Seq<Text>> {
    let rebuilt = diff.tables_to_rebuild;
    seq![
        drop_statements(
            "DROP TRIGGER IF EXISTS "@,
            with_triggers(diff.triggers_to_drop, actual.triggers, rebuilt),
        ),
        drop_statements(
            "DROP VIEW IF EXISTS "@,
            gather(
                with_views(diff.views_to_drop, actual.views, rebuilt),
                if_in(keys(actual.views), true),
            ),
        ),
        drop_statements(
            "DROP INDEX IF EXISTS "@,
            with_indexes(diff.indexes_to_drop, false, actual.indexes, rebuilt),
        ),
        drop_statements(
            "DROP TABLE IF EXISTS "@,
            gather(diff.tables_to_drop, if_not_protected()),
        ),
        gather(
            ordered_tables(diff.tables_to_create, desired, actual),
            sql_in(table_texts(desired.tables)),
        ),
        rename_statements(diff.columns_to_rename),
        add_column_statements(diff.columns_to_add),
        drop_column_statements(diff.columns_to_drop),
        rebuilds(rebuilt, desired, actual, rebuilt.len() as int),
        gather(
            with_indexes(diff.indexes_to_create, false, desired.indexes, rebuilt),
            sql_in(index_texts(desired.indexes)),
        ),
        gather(
            ordered_views(with_views(diff.views_to_create, desired.views, rebuilt), desired.views),
            sql_in(view_texts(desired.views)),
        ),
        gather(
            with_triggers(diff.triggers_to_create, desired.triggers, rebuilt),
            sql_in(trigger_texts(desired.triggers)),
        ),
    ]
}

/// The statements that run in transactions are those of the groups, in their order: drop
/// triggers, views, indexes and tables; create tables; rename, add and drop columns;
/// rebuild tables; create indexes, views and triggers.
pub proof fn lemma_groups_in_order(
    diff: DiffModel,
    desired: SnapshotModel,
    actual: SnapshotModel,
)
    ensures
        groups(diff, desired, actual).len() == 12,
        plan_of(diff, desired, actual).transactional_stmts == strung(
            groups(diff, desired, actual),
            12,
        ),
{
    let g = groups(diff, desired, actual);
    reveal_with_fuel(strung, 13);
    assert(Seq::<Text>::empty() + g[0] =~= g[0]);
}

/// A list of statements that drop the names.
pub open spec fn drops(list: Seq<Text>, prefix: Text, names: Seq<Text>) -> bool {
    &&& list.len() == names.len()
    &&& forall|i: int| 0 <= i < list.len() ==> #[trigger] list[i] == prefix + quoted_ident(names[i])
}

/// Whether one of the names is the given one, up to ASCII case.
pub open spec fn is_named(names: Seq<Text>, name: Text) -> bool {
    exists|k: int| 0 <= k < names.len() && lower(#[trigger] names[k]) == lower(name)
}

/// `has_name` tells whether a name occurs, up to ASCII case.
pub proof fn lemma_is_named(names: Seq<Text>, name: Text)
    ensures
        has_name(names, name) == is_named(names, name),
{
    lemma_name_index(names, name);
    if has_name(names, name) {
        let k = crate::lists::name_index(names, name)->0;
        assert(lower(names[k]) == lower(name));
    }
    if is_named(names, name) {
        let k = choose|k: int| 0 <= k < names.len() && lower(#[trigger] names[k]) == lower(name);
        assert(same_name(names[k], name));
    }
}

/// The triggers to create, and those of the schema on rebuilt tables.
pub open spec fn trigger_must_come(diff: DiffModel, desired: SnapshotModel, name: Text) -> bool {
    ||| is_named(diff.triggers_to_create, name)
    ||| exists|k: int|
        0 <= k < desired.triggers.len() && lower((#[trigger] desired.triggers[k]).1.name) == lower(
            name,
        ) && is_named(diff.tables_to_rebuild, desired.triggers[k].1.table_name)
}

proof fn lemma_with_triggers(
    names: Seq<Text>,
    triggers: Seq<(Text, TriggerModel)>,
    rebuilt: Seq<Text>,
    x: Text,
)
    ensures
        increasing(with_triggers(names, triggers, rebuilt)),
        with_triggers(names, triggers, rebuilt).contains(x) <==> names.contains(x) || exists|k: int|
            0 <= k < triggers.len() && (#[trigger] triggers[k]).1.name == x && is_named(
                rebuilt,
                triggers[k].1.table_name,
            ),
{
    let f = trigger_on(rebuilt);
    let found = gather(triggers, f);
    lemma_sorted_set(names + found);
    lemma_gather_contains(triggers, f, x);
    lemma_in_both(names, found, x);
    if found.contains(x) {
        let k = choose|k: int| 0 <= k < triggers.len() && f(#[trigger] triggers[k]).contains(x);
        lemma_is_named(rebuilt, triggers[k].1.table_name);
        assert(triggers[k].1.name == x);
    }
    if exists|k: int|
        0 <= k < triggers.len() && (#[trigger] triggers[k]).1.name == x && is_named(
            rebuilt,
            triggers[k].1.table_name,
        ) {
        let k = choose|k: int|
            0 <= k < triggers.len() && (#[trigger] triggers[k]).1.name == x && is_named(
                rebuilt,
                triggers[k].1.table_name,
            );
        lemma_is_named(rebuilt, triggers[k].1.table_name);
        assert(f(triggers[k])[0] == x);
    }
}

/// The indexes that are named, and those of the kind on rebuilt tables.
pub proof fn lemma_with_indexes(
    names: Seq<Text>,
    fts: bool,
    indexes: Seq<(Text, IndexModel)>,
    rebuilt: Seq<Text>,
    x: Text,
)
    ensures
        increasing(with_indexes(names, fts, indexes, rebuilt)),
        with_indexes(names, fts, indexes, rebuilt).contains(x) <==> names.contains(x) || exists|
            k: int,
        |
            0 <= k < indexes.len() && (#[trigger] indexes[k]).1.name == x && indexes[k].1.is_fts
                == fts && is_named(rebuilt, indexes[k].1.table_name),
{
    let f = index_on(fts, rebuilt);
    let found = gather(indexes, f);
    lemma_sorted_set(names + found);
    lemma_gather_contains(indexes, f, x);
    lemma_in_both(names, found, x);
    if found.contains(x) {
        let k = choose|k: int| 0 <= k < indexes.len() && f(#[trigger] indexes[k]).contains(x);
        lemma_is_named(rebuilt, indexes[k].1.table_name);
        assert(indexes[k].1.name == x);
    }
    if exists|k: int|
        0 <= k < indexes.len() && (#[trigger] indexes[k]).1.name == x && indexes[k].1.is_fts == fts
            && is_named(rebuilt, indexes[k].1.table_name) {
        let k = choose|k: int|
            0 <= k < indexes.len() && (#[trigger] indexes[k]).1.name == x && indexes[k].1.is_fts
                == fts && is_named(rebuilt, indexes[k].1.table_name);
        lemma_is_named(rebuilt, indexes[k].1.table_name);
        assert(f(indexes[k])[0] == x);
    }
}

/// The views that are named, and all of them where a table is rebuilt.
pub proof fn lemma_with_views(
    names: Seq<Text>,
    views: Seq<(Text, ViewModel)>,
    rebuilt: Seq<Text>,
    x: Text,
)
    ensures
        increasing(with_views(names, views, rebuilt)),
        with_views(names, views, rebuilt).contains(x) <==> names.contains(x) || rebuilt.len() > 0
            && exists|k: int| 0 <= k < views.len() && (#[trigger] views[k]).0 == x,
{
    lemma_sorted_set(names);
    lemma_sorted_set(names + keys(views));
    lemma_in_both(names, keys(views), x);
    if keys(views).contains(x) {
        let k = choose|k: int| 0 <= k < keys(views).len() && keys(views)[k] == x;
        assert(views[k].0 == x);
    }
    if exists|k: int| 0 <= k < views.len() && (#[trigger] views[k]).0 == x {
        let k = choose|k: int| 0 <= k < views.len() && (#[trigger] views[k]).0 == x;
        assert(keys(views)[k] == x);
    }
}

/// What two lists hold together.
pub proof fn lemma_in_both(a: Seq<Text>, b: Seq<Text>, x: Text)
    ensures
        (a + b).contains(x) <==> a.contains(x) || b.contains(x),
{
    if a.contains(x) {
        let k = choose|k: int| 0 <= k < a.len() && a[k] == x;
        assert((a + b)[k] == x);
    }
    if b.contains(x) {
        let k = choose|k: int| 0 <= k < b.len() && b[k] == x;
        assert((a + b)[a.len() + k] == x);
    }
    if (a + b).contains(x) {
        let k = choose|k: int| 0 <= k < (a + b).len() && (a + b)[k] == x;
        if k < a.len() {
            assert(a[k] == x);
        } else {
            assert(b[k - a.len()] == x);
        }
    }
}

/// The first group drops each trigger that must go, once: those to drop and those on
/// rebuilt tables.
pub proof fn lemma_triggers_dropped(
    diff: DiffModel,
    desired: SnapshotModel,
    actual: SnapshotModel,
) -> (names: Seq<Text>)
    ensures
        drops(groups(diff, desired, actual)[0], "DROP TRIGGER IF EXISTS "@, names),
        increasing(names),
        forall|x: Text|
            #[trigger] names.contains(x) <==> diff.triggers_to_drop.contains(x) || exists|k: int|
                0 <= k < actual.triggers.len() && (#[trigger] actual.triggers[k]).1.name == x
                    && is_named(diff.tables_to_rebuild, actual.triggers[k].1.table_name),
{
    let names = with_triggers(diff.triggers_to_drop, actual.triggers, diff.tables_to_rebuild);
    assert forall|x: Text|
        #[trigger] names.contains(x) <==> diff.triggers_to_drop.contains(x) || exists|k: int|
            0 <= k < actual.triggers.len() && (#[trigger] actual.triggers[k]).1.name == x
                && is_named(diff.tables_to_rebuild, actual.triggers[k].1.table_name) by {
        lemma_with_triggers(diff.triggers_to_drop, actual.triggers, diff.tables_to_rebuild, x);
    }
    lemma_with_triggers(
        diff.triggers_to_drop,
        actual.triggers,
        diff.tables_to_rebuild,
        Seq::empty(),
    );
    names
}

/// The second group drops each view that must go, once: of the views that there are,
/// those to drop, and all of them where a table is rebuilt.
pub proof fn lemma_views_dropped(
    diff: DiffModel,
    desired: SnapshotModel,
    actual: SnapshotModel,
) -> (names: Seq<Text>)
    ensures
        drops(groups(diff, desired, actual)[1], "DROP VIEW IF EXISTS "@, names),
        increasing(names),
        forall|x: Text|
            #[trigger] names.contains(x) <==> (diff.views_to_drop.contains(x) && exists|k: int|
                0 <= k < actual.views.len() && lower((#[trigger] actual.views[k]).0) == lower(x))
                || (diff.tables_to_rebuild.len() > 0 && exists|k: int|
                0 <= k < actual.views.len() && (#[trigger] actual.views[k]).0 == x),
{
    let all = with_views(diff.views_to_drop, actual.views, diff.tables_to_rebuild);
    let there = keys(actual.views);
    let f = if_in(there, true);
    let names = gather(all, f);
    let at = lemma_gathered_at(all, f);
    lemma_with_views(diff.views_to_drop, actual.views, diff.tables_to_rebuild, Seq::empty());
    assert forall|i: int, j: int| 0 <= i < j < names.len() implies crate::lists::less(
        #[trigger] names[i],
        #[trigger] names[j],
    ) by {
        assert(at[i] < at[j]);
        assert(f(all[at[i]])[0] == names[i]);
        assert(f(all[at[j]])[0] == names[j]);
    }
    assert forall|x: Text|
        #[trigger] names.contains(x) <==> (diff.views_to_drop.contains(x) && exists|k: int|
            0 <= k < actual.views.len() && lower((#[trigger] actual.views[k]).0) == lower(x)) || (
        diff.tables_to_rebuild.len() > 0 && exists|k: int|
            0 <= k < actual.views.len() && (#[trigger] actual.views[k]).0 == x) by {
        lemma_with_views(diff.views_to_drop, actual.views, diff.tables_to_rebuild, x);
        lemma_gather_contains(all, f, x);
        lemma_is_named(there, x);
        if is_named(there, x) {
            let k = choose|k: int| 0 <= k < there.len() && lower(#[trigger] there[k]) == lower(x);
            assert(lower(actual.views[k].0) == lower(x));
        }
        if exists|k: int|
            0 <= k < actual.views.len() && lower((#[trigger] actual.views[k]).0) == lower(x) {
            let k = choose|k: int|
                0 <= k < actual.views.len() && lower((#[trigger] actual.views[k]).0) == lower(x);
            assert(lower(there[k]) == lower(x));
        }
        if all.contains(x) && is_named(there, x) {
            let i = choose|i: int| 0 <= i < all.len() && all[i] == x;
            assert(f(all[i])[0] == x);
        }
        if names.contains(x) {
            let i = choose|i: int| 0 <= i < all.len() && f(#[trigger] all[i]).contains(x);
            assert(all[i] == x);
        }
    }
    names
}

/// The third group drops each index that must go and is no full-text index, once.
pub proof fn lemma_indexes_dropped(
    diff: DiffModel,
    desired: SnapshotModel,
    actual: SnapshotModel,
) -> (names: Seq<Text>)
    ensures
        drops(groups(diff, desired, actual)[2], "DROP INDEX IF EXISTS "@, names),
        increasing(names),
        forall|x: Text|
            #[trigger] names.contains(x) <==> diff.indexes_to_drop.contains(x) || exists|k: int|
                0 <= k < actual.indexes.len() && (#[trigger] actual.indexes[k]).1.name == x
                    && !actual.indexes[k].1.is_fts && is_named(
                    diff.tables_to_rebuild,
                    actual.indexes[k].1.table_name,
                ),
{
    let rebuilt = diff.tables_to_rebuild;
    let names = with_indexes(diff.indexes_to_drop, false, actual.indexes, rebuilt);
    lemma_with_indexes(diff.indexes_to_drop, false, actual.indexes, rebuilt, Seq::empty());
    assert forall|x: Text|
        #[trigger] names.contains(x) <==> diff.indexes_to_drop.contains(x) || exists|k: int|
            0 <= k < actual.indexes.len() && (#[trigger] actual.indexes[k]).1.name == x
                && !actual.indexes[k].1.is_fts && is_named(
                diff.tables_to_rebuild,
                actual.indexes[k].1.table_name,
            ) by {
        lemma_with_indexes(diff.indexes_to_drop, false, actual.indexes, rebuilt, x);
    }
    names
}

/// Whether the text begins with `head`.
pub open spec fn begins(t: Text, head: Text) -> bool {
    exists|rest: Text| t == #[trigger] (head + rest)
}

/// The fourth group drops the tables to drop, in their order, but for the tables of the
/// database itself and of the library.
pub proof fn lemma_tables_dropped(
    diff: DiffModel,
    desired: SnapshotModel,
    actual: SnapshotModel,
) -> (at: Seq<int>)
    ensures
        positions(at, diff.tables_to_drop.len() as int),
        drops(
            groups(diff, desired, actual)[3],
            "DROP TABLE IF EXISTS "@,
            Seq::new(at.len(), |i: int| diff.tables_to_drop[at[i]]),
        ),
        forall|k: int|
            0 <= k < diff.tables_to_drop.len() ==> (at.contains(k) <==> {
                let n = lower(#[trigger] diff.tables_to_drop[k]);
                &&& n != "_schema_meta"@
                &&& n != "_turso_migrations"@
                &&& !begins(n, "_converge_new_"@)
                &&& !begins(n, "_cap_probe_"@)
                &&& !begins(n, "sqlite_"@)
                &&& !begins(n, "fts_dir_"@)
                &&& !begins(n, "__turso_internal"@)
            }),
{
    let all = diff.tables_to_drop;
    let f = if_not_protected();
    let at = lemma_gathered_at(all, f);
    let names = gather(all, f);
    assert forall|i: int| 0 <= i < at.len() implies all[#[trigger] at[i]] == names[i] by {
        assert(f(all[at[i]])[0] == names[i]);
    }
    assert forall|k: int| 0 <= k < all.len() implies (at.contains(k) <==> {
        let n = lower(#[trigger] all[k]);
        &&& n != "_schema_meta"@
        &&& n != "_turso_migrations"@
        &&& !begins(n, "_converge_new_"@)
        &&& !begins(n, "_cap_probe_"@)
        &&& !begins(n, "sqlite_"@)
        &&& !begins(n, "fts_dir_"@)
        &&& !begins(n, "__turso_internal"@)
    }) by {
        let n = lower(all[k]);
        lemma_begins(n, "_converge_new_"@);
        lemma_begins(n, "_cap_probe_"@);
        lemma_begins(n, "sqlite_"@);
        lemma_begins(n, "fts_dir_"@);
        lemma_begins(n, "__turso_internal"@);
        if at.contains(k) {
            let i = choose|i: int| 0 <= i < at.len() && at[i] == k;
            assert(f(all[at[i]]).len() == 1);
        } else {
            assert(f(all[k]).len() != 1);
        }
    }
    assert(names =~= Seq::new(at.len(), |i: int| diff.tables_to_drop[at[i]]));
    at
}

/// `starts_with` tells whether a text begins with another one.
pub proof fn lemma_begins(t: Text, head: Text)
    ensures
        starts_with(t, head) == begins(t, head),
{
    if starts_with(t, head) {
        assert(t =~= head + t.skip(head.len() as int));
    }
    if begins(t, head) {
        let rest = choose|rest: Text| t == #[trigger] (head + rest);
        assert(t.subrange(0, head.len() as int) =~= head);
    }
}

/// The sixth, seventh and eighth groups rename, add and drop the columns, one statement
/// for each, in the order of the difference.
pub proof fn lemma_column_statements(
    diff: DiffModel,
    desired: SnapshotModel,
    actual: SnapshotModel,
)
    ensures
        ({
            let g = groups(diff, desired, actual);
            &&& g[5].len() == diff.columns_to_rename.len()
            &&& forall|i: int|
                0 <= i < g[5].len() ==> #[trigger] g[5][i] == "ALTER TABLE "@ + quoted_ident(
                    diff.columns_to_rename[i].0,
                ) + " RENAME COLUMN "@ + quoted_ident(diff.columns_to_rename[i].1) + " TO "@
                    + quoted_ident(diff.columns_to_rename[i].2)
            &&& g[6].len() == diff.columns_to_add.len()
            &&& forall|i: int|
                0 <= i < g[6].len() ==> #[trigger] g[6][i] == "ALTER TABLE "@ + quoted_ident(
                    diff.columns_to_add[i].0,
                ) + " ADD COLUMN "@ + quoted_ident(diff.columns_to_add[i].1.name) + " "@
                    + diff.columns_to_add[i].1.col_type + constraints(diff.columns_to_add[i].1)
            &&& g[7].len() == diff.columns_to_drop.len()
            &&& forall|i: int|
                0 <= i < g[7].len() ==> #[trigger] g[7][i] == "ALTER TABLE "@ + quoted_ident(
                    diff.columns_to_drop[i].0,
                ) + " DROP COLUMN "@ + quoted_ident(diff.columns_to_drop[i].1)
        }),
{
    let g = groups(diff, desired, actual);
    assert forall|i: int| 0 <= i < g[6].len() implies #[trigger] g[6][i] == "ALTER TABLE "@
        + quoted_ident(diff.columns_to_add[i].0) + " ADD COLUMN "@ + quoted_ident(
        diff.columns_to_add[i].1.name,
    ) + " "@ + diff.columns_to_add[i].1.col_type + constraints(diff.columns_to_add[i].1) by {
        let c = diff.columns_to_add[i].1;
        let head = "ALTER TABLE "@ + quoted_ident(diff.columns_to_add[i].0) + " ADD COLUMN "@
            + quoted_ident(c.name) + " "@ + c.col_type;
        assert(crate::plan::add_column_statement(diff.columns_to_add[i].0, c) =~= head
            + constraints(c));
    }
}

/// What follows the type of a column: NOT NULL, the default and the collation, each
/// where the column has it.
pub open spec fn constraints(c: ColumnModel) -> Text {
    let d = match c.default_value {
        Some(d) => " DEFAULT "@ + d,
        None => Seq::empty(),
    };
    let l = match c.collation {
        Some(l) => " COLLATE "@ + l,
        None => Seq::empty(),
    };
    if c.notnull {
        " NOT NULL"@ + d + l
    } else {
        d + l
    }
}

// ---------------------------------------------------------------------------
// What is created
// ---------------------------------------------------------------------------

/// Whether `t` is the text of an entry with one of the names.
spec fn is_text_of(names: Seq<Text>, texts: Seq<(Text, Text)>, t: Text) -> bool {
    exists|k: int|
        0 <= k < texts.len() && is_named(names, (#[trigger] texts[k]).0) && texts[k].1 == t
}

/// The statements gathered for names are those of the entries of the names.
proof fn lemma_gathered_texts(names: Seq<Text>, texts: Seq<(Text, Text)>, t: Text)
    requires
        sorted_keys(texts),
    ensures
        gather(names, sql_in(texts)).contains(t) <==> is_text_of(names, texts, t),
{
    let f = sql_in(texts);
    lemma_gather_contains(names, f, t);
    if is_text_of(names, texts, t) {
        let k = choose|k: int|
            0 <= k < texts.len() && is_named(names, (#[trigger] texts[k]).0) && texts[k].1 == t;
        let i = choose|i: int|
            0 <= i < names.len() && lower(#[trigger] names[i]) == lower(texts[k].0);
        lemma_distinct(texts, names[i], k);
        assert(f(names[i])[0] == t);
    }
    if gather(names, f).contains(t) {
        let i = choose|i: int| 0 <= i < names.len() && f(#[trigger] names[i]).contains(t);
        lemma_name_index(keys(texts), names[i]);
        let k = crate::lists::name_index(keys(texts), names[i])->0;
        assert(keys(texts)[k] == texts[k].0);
        assert(lower(names[i]) == lower(texts[k].0));
        assert(is_named(names, texts[k].0));
        assert(texts[k].1 == t);
    }
}

/// Two lists with the same members name the same things.
proof fn lemma_same_members(a: Seq<Text>, b: Seq<Text>, x: Text)
    requires
        forall|y: Text| a.contains(y) <==> b.contains(y),
    ensures
        is_named(a, x) == is_named(b, x),
{
    if is_named(a, x) {
        let k = choose|k: int| 0 <= k < a.len() && lower(#[trigger] a[k]) == lower(x);
        assert(a.contains(a[k]));
        let m = choose|m: int| 0 <= m < b.len() && b[m] == a[k];
        assert(lower(b[m]) == lower(x));
    }
    if is_named(b, x) {
        let k = choose|k: int| 0 <= k < b.len() && lower(#[trigger] b[k]) == lower(x);
        assert(b.contains(b[k]));
        let m = choose|m: int| 0 <= m < a.len() && a[m] == b[k];
        assert(lower(a[m]) == lower(x));
    }
}

/// Whether `t` is the statement of a wanted table that is to be created.
pub open spec fn creates_table(diff: DiffModel, desired: SnapshotModel, t: Text) -> bool {
    exists|k: int|
        0 <= k < desired.tables.len() && is_named(
            diff.tables_to_create,
            (#[trigger] desired.tables[k]).0,
        ) && desired.tables[k].1.sql == t
}

/// The fifth group holds the statement of each wanted table that is to be created, and
/// no other statement.
pub proof fn lemma_tables_created(
    diff: DiffModel,
    desired: SnapshotModel,
    actual: SnapshotModel,
    t: Text,
)
    requires
        desired.sorted(),
    ensures
        groups(diff, desired, actual)[4].contains(t) <==> creates_table(diff, desired, t),
{
    broadcast use vstd::seq_lib::group_to_multiset_ensures;

    let names = ordered_tables(diff.tables_to_create, desired, actual);
    let texts = table_texts(desired.tables);
    let set = sorted_set(diff.tables_to_create);
    assert(lower_keys(texts) =~= lower_keys(desired.tables));
    lemma_gathered_texts(names, texts, t);
    lemma_sorted_set(diff.tables_to_create);
    let n = lemma_new_tables_in_order(diff.tables_to_create, desired, actual);
    assert forall|y: Text| names.contains(y) <==> diff.tables_to_create.contains(y) by {
        assert(names.to_multiset().contains(y) <==> set.to_multiset().contains(y));
        assert(set.contains(y) <==> diff.tables_to_create.contains(y));
    }
    if creates_table(diff, desired, t) {
        let k = choose|k: int|
            0 <= k < desired.tables.len() && is_named(
                diff.tables_to_create,
                (#[trigger] desired.tables[k]).0,
            ) && desired.tables[k].1.sql == t;
        lemma_same_members(names, diff.tables_to_create, desired.tables[k].0);
        assert(texts[k].1 == t);
    }
    if is_text_of(names, texts, t) {
        let k = choose|k: int|
            0 <= k < texts.len() && is_named(names, (#[trigger] texts[k]).0) && texts[k].1 == t;
        lemma_same_members(names, diff.tables_to_create, desired.tables[k].0);
        assert(desired.tables[k].1.sql == t);
    }
}

/// Whether an index of the name is to be created: one that is listed, or one of the kind
/// on a rebuilt table.
pub open spec fn index_must_come(
    listed: Seq<Text>,
    fts: bool,
    diff: DiffModel,
    desired: SnapshotModel,
    name: Text,
) -> bool {
    ||| is_named(listed, name)
    ||| exists|k: int|
        0 <= k < desired.indexes.len() && lower((#[trigger] desired.indexes[k]).1.name) == lower(
            name,
        ) && desired.indexes[k].1.is_fts == fts && is_named(
            diff.tables_to_rebuild,
            desired.indexes[k].1.table_name,
        )
}

/// Whether `t` is the statement of a wanted index that is to be created.
pub open spec fn creates_index(
    listed: Seq<Text>,
    fts: bool,
    diff: DiffModel,
    desired: SnapshotModel,
    t: Text,
) -> bool {
    exists|k: int|
        0 <= k < desired.indexes.len() && index_must_come(
            listed,
            fts,
            diff,
            desired,
            (#[trigger] desired.indexes[k]).0,
        ) && desired.indexes[k].1.sql == t
}

proof fn lemma_index_texts(
    listed: Seq<Text>,
    fts: bool,
    diff: DiffModel,
    desired: SnapshotModel,
    t: Text,
)
    requires
        desired.sorted(),
    ensures
        gather(
            with_indexes(listed, fts, desired.indexes, diff.tables_to_rebuild),
            sql_in(index_texts(desired.indexes)),
        ).contains(t) <==> creates_index(listed, fts, diff, desired, t),
{
    let rebuilt = diff.tables_to_rebuild;
    let names = with_indexes(listed, fts, desired.indexes, rebuilt);
    let texts = index_texts(desired.indexes);
    assert(lower_keys(texts) =~= lower_keys(desired.indexes));
    lemma_gathered_texts(names, texts, t);
    assert forall|x: Text| #[trigger] is_named(names, x) == index_must_come(
        listed,
        fts,
        diff,
        desired,
        x,
    ) by {
        if is_named(names, x) {
            let i = choose|i: int| 0 <= i < names.len() && lower(#[trigger] names[i]) == lower(x);
            assert(names.contains(names[i]));
            lemma_with_indexes(listed, fts, desired.indexes, rebuilt, names[i]);
            if listed.contains(names[i]) {
                let m = choose|m: int| 0 <= m < listed.len() && listed[m] == names[i];
                assert(lower(listed[m]) == lower(x));
            }
        }
        if is_named(listed, x) {
            let m = choose|m: int| 0 <= m < listed.len() && lower(#[trigger] listed[m]) == lower(x);
            assert(listed.contains(listed[m]));
            lemma_with_indexes(listed, fts, desired.indexes, rebuilt, listed[m]);
            let i = choose|i: int| 0 <= i < names.len() && names[i] == listed[m];
            assert(lower(names[i]) == lower(x));
        } else if index_must_come(listed, fts, diff, desired, x) {
            let k = choose|k: int|
                0 <= k < desired.indexes.len() && lower((#[trigger] desired.indexes[k]).1.name)
                    == lower(x) && desired.indexes[k].1.is_fts == fts && is_named(
                    diff.tables_to_rebuild,
                    desired.indexes[k].1.table_name,
                );
            let y = desired.indexes[k].1.name;
            lemma_with_indexes(listed, fts, desired.indexes, rebuilt, y);
            let i = choose|i: int| 0 <= i < names.len() && names[i] == y;
            assert(lower(names[i]) == lower(x));
        }
    }
    if creates_index(listed, fts, diff, desired, t) {
        let k = choose|k: int|
            0 <= k < desired.indexes.len() && index_must_come(
                listed,
                fts,
                diff,
                desired,
                (#[trigger] desired.indexes[k]).0,
            ) && desired.indexes[k].1.sql == t;
        assert(is_named(names, texts[k].0));
    }
    if is_text_of(names, texts, t) {
        let k = choose|k: int|
            0 <= k < texts.len() && is_named(names, (#[trigger] texts[k]).0) && texts[k].1 == t;
        assert(desired.indexes[k].0 == texts[k].0);
    }
}

/// The tenth group holds the statement of each wanted index that is to be created, and no
/// other statement: those that are named, and those that are on a rebuilt table and no
/// full-text indexes.
pub proof fn lemma_indexes_created(
    diff: DiffModel,
    desired: SnapshotModel,
    actual: SnapshotModel,
    t: Text,
)
    requires
        desired.sorted(),
    ensures
        groups(diff, desired, actual)[9].contains(t) <==> creates_index(
            diff.indexes_to_create,
            false,
            diff,
            desired,
            t,
        ),
{
    lemma_index_texts(diff.indexes_to_create, false, diff, desired, t);
}

/// Whether `t` is the statement of a wanted view that is to be created: one that is
/// listed, or any where a table is rebuilt.
pub open spec fn creates_view(diff: DiffModel, desired: SnapshotModel, t: Text) -> bool {
    exists|k: int|
        0 <= k < desired.views.len() && (diff.tables_to_rebuild.len() > 0 || is_named(
            diff.views_to_create,
            (#[trigger] desired.views[k]).0,
        )) && desired.views[k].1.sql == t
}

/// The eleventh group holds the statement of each wanted view that is to be created, and
/// no other statement: those that are named, and all of them where a table is rebuilt.
pub proof fn lemma_views_created(
    diff: DiffModel,
    desired: SnapshotModel,
    actual: SnapshotModel,
    t: Text,
)
    requires
        desired.sorted(),
    ensures
        groups(diff, desired, actual)[10].contains(t) <==> creates_view(diff, desired, t),
{
    broadcast use vstd::seq_lib::group_to_multiset_ensures;

    let rebuilt = diff.tables_to_rebuild;
    let set = with_views(diff.views_to_create, desired.views, rebuilt);
    let names = ordered_views(set, desired.views);
    let texts = view_texts(desired.views);
    assert(lower_keys(texts) =~= lower_keys(desired.views));
    lemma_gathered_texts(names, texts, t);
    let n = lemma_views_in_order(set, desired.views);
    assert forall|y: Text| names.contains(y) <==> set.contains(y) by {
        assert(names.to_multiset().contains(y) <==> set.to_multiset().contains(y));
    }
    assert forall|k: int| 0 <= k < desired.views.len() implies is_named(
        names,
        (#[trigger] desired.views[k]).0,
    ) == (rebuilt.len() > 0 || is_named(diff.views_to_create, desired.views[k].0)) by {
        let x = desired.views[k].0;
        lemma_same_members(names, set, x);
        lemma_with_views(diff.views_to_create, desired.views, rebuilt, x);
        if rebuilt.len() > 0 {
            assert(set.contains(x));
            let i = choose|i: int| 0 <= i < set.len() && set[i] == x;
            assert(lower(set[i]) == lower(x));
        } else {
            lemma_sorted_set(diff.views_to_create);
            lemma_same_members(set, diff.views_to_create, x);
        }
    }
    if creates_view(diff, desired, t) {
        let k = choose|k: int|
            0 <= k < desired.views.len() && (diff.tables_to_rebuild.len() > 0 || is_named(
                diff.views_to_create,
                (#[trigger] desired.views[k]).0,
            )) && desired.views[k].1.sql == t;
        assert(is_named(names, desired.views[k].0));
        assert(texts[k].1 == t);
    }
    if is_text_of(names, texts, t) {
        let k = choose|k: int|
            0 <= k < texts.len() && is_named(names, (#[trigger] texts[k]).0) && texts[k].1 == t;
        assert(desired.views[k].0 == texts[k].0);
    }
}

/// Whether `t` is the statement of a wanted trigger that is to be created.
pub open spec fn creates_trigger(diff: DiffModel, desired: SnapshotModel, t: Text) -> bool {
    exists|k: int|
        0 <= k < desired.triggers.len() && trigger_must_come(
            diff,
            desired,
            (#[trigger] desired.triggers[k]).0,
        ) && desired.triggers[k].1.sql == t
}

/// The last group holds the statement of each wanted trigger that is to be created, and
/// no other statement: those that are named, and those on rebuilt tables.
pub proof fn lemma_triggers_created(
    diff: DiffModel,
    desired: SnapshotModel,
    actual: SnapshotModel,
    t: Text,
)
    requires
        desired.sorted(),
    ensures
        groups(diff, desired, actual)[11].contains(t) <==> creates_trigger(diff, desired, t),
{
    let rebuilt = diff.tables_to_rebuild;
    let listed = diff.triggers_to_create;
    let names = with_triggers(listed, desired.triggers, rebuilt);
    let texts = trigger_texts(desired.triggers);
    assert(lower_keys(texts) =~= lower_keys(desired.triggers));
    lemma_gathered_texts(names, texts, t);
    assert forall|x: Text| #[trigger] is_named(names, x) == trigger_must_come(diff, desired, x) by {
        if is_named(names, x) {
            let i = choose|i: int| 0 <= i < names.len() && lower(#[trigger] names[i]) == lower(x);
            assert(names.contains(names[i]));
            lemma_with_triggers(listed, desired.triggers, rebuilt, names[i]);
            if listed.contains(names[i]) {
                let m = choose|m: int| 0 <= m < listed.len() && listed[m] == names[i];
                assert(lower(listed[m]) == lower(x));
            }
        }
        if is_named(listed, x) {
            let m = choose|m: int| 0 <= m < listed.len() && lower(#[trigger] listed[m]) == lower(x);
            assert(listed.contains(listed[m]));
            lemma_with_triggers(listed, desired.triggers, rebuilt, listed[m]);
            let i = choose|i: int| 0 <= i < names.len() && names[i] == listed[m];
            assert(lower(names[i]) == lower(x));
        } else if trigger_must_come(diff, desired, x) {
            let k = choose|k: int|
                0 <= k < desired.triggers.len() && lower((#[trigger] desired.triggers[k]).1.name)
                    == lower(x) && is_named(rebuilt, desired.triggers[k].1.table_name);
            let y = desired.triggers[k].1.name;
            lemma_with_triggers(listed, desired.triggers, rebuilt, y);
            let i = choose|i: int| 0 <= i < names.len() && names[i] == y;
            assert(lower(names[i]) == lower(x));
        }
    }
    if creates_trigger(diff, desired, t) {
        let k = choose|k: int|
            0 <= k < desired.triggers.len() && trigger_must_come(
                diff,
                desired,
                (#[trigger] desired.triggers[k]).0,
            ) && desired.triggers[k].1.sql == t;
        assert(is_named(names, texts[k].0));
    }
    if is_text_of(names, texts, t) {
        let k = choose|k: int|
            0 <= k < texts.len() && is_named(names, (#[trigger] texts[k]).0) && texts[k].1 == t;
        assert(desired.triggers[k].0 == texts[k].0);
    }
}

/// Outside transactions the plan first drops the full-text indexes that must go, each
/// once, and then creates those that must come, and does nothing else there.
pub proof fn lemma_full_text_statements(
    diff: DiffModel,
    desired: SnapshotModel,
    actual: SnapshotModel,
) -> (r: (Seq<Text>, Seq<Text>, Seq<Text>))
    requires
        desired.sorted(),
    ensures
        ({
            let (gone, names, come) = r;
            &&& plan_of(diff, desired, actual).non_transactional_stmts == gone + come
            &&& drops(gone, "DROP INDEX IF EXISTS "@, names)
            &&& increasing(names)
            &&& forall|x: Text|
                #[trigger] names.contains(x) <==> diff.fts_indexes_to_drop.contains(x) || exists|
                    k: int,
                |
                    0 <= k < actual.indexes.len() && (#[trigger] actual.indexes[k]).1.name == x
                        && actual.indexes[k].1.is_fts && is_named(
                        diff.tables_to_rebuild,
                        actual.indexes[k].1.table_name,
                    )
            &&& forall|t: Text|
                #[trigger] come.contains(t) <==> creates_index(
                    diff.fts_indexes_to_create,
                    true,
                    diff,
                    desired,
                    t,
                )
        }),
{
    let rebuilt = diff.tables_to_rebuild;
    let names = with_indexes(diff.fts_indexes_to_drop, true, actual.indexes, rebuilt);
    let gone = drop_statements("DROP INDEX IF EXISTS "@, names);
    let come = gather(
        with_indexes(diff.fts_indexes_to_create, true, desired.indexes, rebuilt),
        sql_in(index_texts(desired.indexes)),
    );
    assert forall|t: Text| #[trigger] come.contains(t) <==> creates_index(
        diff.fts_indexes_to_create,
        true,
        diff,
        desired,
        t,
    ) by {
        lemma_index_texts(diff.fts_indexes_to_create, true, diff, desired, t);
    }
    lemma_with_indexes(diff.fts_indexes_to_drop, true, actual.indexes, rebuilt, Seq::empty());
    assert forall|x: Text|
        #[trigger] names.contains(x) <==> diff.fts_indexes_to_drop.contains(x) || exists|k: int|
            0 <= k < actual.indexes.len() && (#[trigger] actual.indexes[k]).1.name == x
                && actual.indexes[k].1.is_fts && is_named(
                diff.tables_to_rebuild,
                actual.indexes[k].1.table_name,
            ) by {
        lemma_with_indexes(diff.fts_indexes_to_drop, true, actual.indexes, rebuilt, x);
    }
    (gone, names, come)
}

// ---------------------------------------------------------------------------
// A table that is rebuilt
// ---------------------------------------------------------------------------

/// A rebuild makes the new table, copies the rows, drops the old table and gives the new
/// one its name, in this order and with no other statement between them.
pub proof fn lemma_rebuild_replaces_table(
    table: Text,
    n: nat,
    desired: TableModel,
    actual: TableModel,
) -> (r: (Text, int))
    ensures
        ({
            let (temp, p) = r;
            let s = rebuild_statements(table, n, desired, actual);
            &&& temp == "_converge_new_"@ + table + "_"@ + decimal(n)
            &&& 1 <= p <= 2
            &&& p + 4 <= s.len() <= p + 6
            &&& s[0] == "DROP TABLE IF EXISTS "@ + quoted_ident(temp)
            &&& s[p] == crate::plan::with_table_name(desired.sql, temp)
            &&& s[p + 1] == copy_statement(table, temp, desired.columns, actual.columns)
            &&& s[p + 2] == "DROP TABLE "@ + quoted_ident(table)
            &&& s[p + 3] == "ALTER TABLE "@ + quoted_ident(temp) + " RENAME TO "@ + quoted_ident(
                table,
            )
            &&& (p == 2 <==> actual.has_autoincrement)
            &&& actual.has_autoincrement ==> s[1]
                == "INSERT OR REPLACE INTO _schema_meta (key, value) SELECT 'autoincrement_seq_"@
                + doubled(table, '\'') + "', seq FROM sqlite_sequence WHERE name = '"@ + doubled(
                table,
                '\'',
            ) + "'"@
            &&& desired.has_autoincrement ==> s.len() == p + 6 && s[p + 4]
                == "INSERT OR REPLACE INTO sqlite_sequence (name, seq) SELECT '"@ + doubled(
                table,
                '\'',
            )
                + "', CAST(value AS INTEGER) FROM _schema_meta WHERE key = 'autoincrement_seq_"@
                + doubled(table, '\'') + "'"@
            &&& actual.has_autoincrement || desired.has_autoincrement ==> s.last()
                == "DELETE FROM _schema_meta WHERE key = 'autoincrement_seq_"@ + doubled(
                table,
                '\'',
            ) + "'"@
            &&& !actual.has_autoincrement && !desired.has_autoincrement ==> s.len() == p + 4
            &&& actual.has_autoincrement && !desired.has_autoincrement ==> s.len() == p + 5
        }),
{
    let temp = crate::plan::temp_name(table, n);
    let p = if actual.has_autoincrement {
        2
    } else {
        1int
    };
    (temp, p)
}

/// The rebuilds of the first `n` tables are part of those of the first `m`.
proof fn lemma_rebuilds_part(
    tables: Seq<Text>,
    desired: SnapshotModel,
    actual: SnapshotModel,
    n: int,
    m: int,
)
    requires
        0 <= n <= m,
    ensures
        rebuilds(tables, desired, actual, n).len() <= rebuilds(tables, desired, actual, m).len(),
        rebuilds(tables, desired, actual, m).take(
            rebuilds(tables, desired, actual, n).len() as int,
        ) == rebuilds(tables, desired, actual, n),
    decreases m - n,
{
    let small = rebuilds(tables, desired, actual, n);
    if n < m {
        lemma_rebuilds_part(tables, desired, actual, n, m - 1);
        let mid = rebuilds(tables, desired, actual, m - 1);
        let all = rebuilds(tables, desired, actual, m);
        assert(all.take(mid.len() as int) =~= mid);
        assert(all.take(small.len() as int) =~= mid.take(small.len() as int));
    } else {
        assert(small.take(small.len() as int) =~= small);
    }
}

/// The plan holds the whole rebuild of every table to rebuild that both schemas have, its
/// statements one behind the other; and the rebuilds stand in the order of their tables.
pub proof fn lemma_rebuild_in_plan(
    diff: DiffModel,
    desired: SnapshotModel,
    actual: SnapshotModel,
    n: int,
    i: int,
    m: int,
) -> (p: int)
    requires
        desired.sorted(),
        actual.sorted(),
        0 <= n < diff.tables_to_rebuild.len(),
        0 <= i < desired.tables.len(),
        lower(desired.tables[i].0) == lower(diff.tables_to_rebuild[n]),
        0 <= m < actual.tables.len(),
        lower(actual.tables[m].0) == lower(diff.tables_to_rebuild[n]),
    ensures
        ({
            let s = plan_of(diff, desired, actual).transactional_stmts;
            let one = rebuild_statements(
                diff.tables_to_rebuild[n],
                n as nat,
                desired.tables[i].1,
                actual.tables[m].1,
            );
            &&& 0 <= p
            &&& p + one.len() <= s.len()
            &&& forall|k: int| 0 <= k < one.len() ==> s[p + k] == #[trigger] one[k]
        }),
{
    let tables = diff.tables_to_rebuild;
    let t = tables[n];
    lemma_distinct(desired.tables, t, i);
    lemma_distinct(actual.tables, t, m);
    lemma_rebuilds_part(tables, desired, actual, n + 1, tables.len() as int);
    let all = rebuilds(tables, desired, actual, tables.len() as int);
    let upto = rebuilds(tables, desired, actual, n + 1);
    let before = rebuilds(tables, desired, actual, n);
    let one = rebuild_statements(t, n as nat, desired.tables[i].1, actual.tables[m].1);
    assert(upto == before + one);
    let g = groups(diff, desired, actual);
    lemma_groups_in_order(diff, desired, actual);
    lemma_strung(g, 8, 12);
    let s = plan_of(diff, desired, actual).transactional_stmts;
    let q = strung(g, 8).len() as int;
    assert forall|k: int| 0 <= k < one.len() implies s[q + before.len() + k] == #[trigger] one[k] by {
        assert(upto[before.len() + k] == one[k]);
        assert(all[before.len() + k] == all.take(upto.len() as int)[before.len() + k]);
        assert(g[8][before.len() + k] == all[before.len() + k]);
    }
    q + before.len()
}

} // verus!
