//! What holds of every difference between two schemas.

use vstd::prelude::*;

#[allow(unused_imports)]
use crate::diff::{
    addable, added_labels, column_altered, created, creations, difference, droppable, dropped,
    dropped_labels, entry_change, fresh_columns, if_missing, index_creations, index_removals,
    index_replacements, listed, lost_columns, lost_from, missing_names, rebuilds_of,
    renamed_labels, renames_of, replacements, stuck, table_altered, table_change, table_renames,
    tagged, tagged_pairs, adds_of, drops_of, ChangeModel, DiffModel,
};
#[allow(unused_imports)]
use crate::lists::{
    gather, has_name, lemma_gather_contains, lemma_gather_empty, lemma_name_index,
    lemma_name_index_is, name_index,
};
#[allow(unused_imports)]
use crate::normalize::normal;
#[allow(unused_imports)]
use crate::options::HintModel;
#[allow(unused_imports)]
use crate::rename::{
    after_removals, candidate, from_the_back, hinted, hinted_pairs, not_taken, pair_names,
    pair_slot, paired, partner, place_renames, renamable, renames, single_drops, PairModel,
};
#[allow(unused_imports)]
use crate::schema::{
    column_names, keys, lemma_distinct, lookup, sorted_keys, trigger_texts, view_texts,
    ColumnModel, IndexModel, SnapshotModel, TableModel,
};
#[allow(unused_imports)]
use crate::text::{same_name, Text};

verus! {

// ---------------------------------------------------------------------------
// A schema and itself
// ---------------------------------------------------------------------------

/// Whether no two columns have the same name, up to ASCII case.
pub open spec fn distinct_columns(columns: Seq<ColumnModel>) -> bool {
    forall|i: int, j: int|
        0 <= i < j < columns.len() ==> !same_name(
            (#[trigger] columns[i]).name,
            (#[trigger] columns[j]).name,
        )
}

/// Whether no table has two columns of the same name.
pub open spec fn proper_tables(tables: Seq<(Text, TableModel)>) -> bool {
    forall|i: int|
        0 <= i < tables.len() ==> distinct_columns((#[trigger] tables[i]).1.columns)
}

proof fn lemma_own_column(columns: Seq<ColumnModel>, i: int)
    requires
        0 <= i < columns.len(),
    ensures
        has_name(column_names(columns), columns[i].name),
        distinct_columns(columns) ==> name_index(column_names(columns), columns[i].name) == Some(i),
{
    let names = column_names(columns);
    assert(same_name(names[i], columns[i].name));
    if distinct_columns(columns) {
        assert forall|j: int| 0 <= j < i implies !same_name(
            #[trigger] names[j],
            columns[i].name,
        ) by {
            assert(!same_name(columns[j].name, columns[i].name));
        }
        lemma_name_index_is(names, columns[i].name, i);
    }
}

/// A table needs nothing to become itself.
proof fn lemma_table_unchanged(
    name: Text,
    t: TableModel,
    snapshot: SnapshotModel,
    hints: Seq<HintModel>,
)
    requires
        distinct_columns(t.columns),
    ensures
        table_change(name, t, t, snapshot, hints) == (ChangeModel {
            rebuild: false,
            add: Seq::empty(),
            drop: Seq::empty(),
            renamed: Seq::empty(),
        }),
{
    let c = t.columns;
    let lost = lost_columns(c, c);
    assert forall|i: int| 0 <= i < c.len() implies lost_from(c)(#[trigger] c[i]).len() == 0 by {
        lemma_own_column(c, i);
    }
    lemma_gather_empty(c, lost_from(c));
    assert(lost =~= Seq::empty());
    assert(column_names(lost) =~= Seq::empty());
    let f = hinted(name, c, c, lost, Seq::empty());
    assert forall|i: int| 0 <= i < hints.len() implies f(#[trigger] hints[i]).len() == 0 by {
        lemma_name_index(Seq::empty(), hints[i].from);
    }
    lemma_gather_empty(hints, f);
    let pairs = hinted_pairs(name, c, c, lost, Seq::empty(), hints);
    assert(pairs =~= Seq::empty());
    let r = table_renames(name, t, t, hints);
    assert(r.renamed =~= Seq::empty());
    assert(r.add =~= Seq::empty());
    assert(r.drop =~= Seq::empty());
    assert forall|i: int| 0 <= i < c.len() implies !column_altered(#[trigger] c[i], c) by {
        lemma_own_column(c, i);
    }
}

/// Nothing has to change where the database has the wanted schema already.
pub proof fn lemma_no_difference_to_itself(s: SnapshotModel, hints: Seq<HintModel>)
    requires
        s.sorted(),
        proper_tables(s.tables),
    ensures
        difference(s, s, hints).nothing(),
{
    let d = difference(s, s, hints);
    let none = ChangeModel {
        rebuild: false,
        add: Seq::empty(),
        drop: Seq::empty(),
        renamed: Seq::empty(),
    };
    assert forall|i: int| 0 <= i < s.tables.len() implies entry_change(
        #[trigger] s.tables[i],
        s,
        hints,
    ) == none by {
        lemma_distinct(s.tables, s.tables[i].0, i);
        lemma_table_unchanged(s.tables[i].0, s.tables[i].1, s, hints);
    }
    lemma_nothing_missing(keys(s.tables));
    lemma_gather_empty(s.tables, rebuilds_of(s, hints));
    lemma_gather_empty(s.tables, adds_of(s, hints));
    lemma_gather_empty(s.tables, drops_of(s, hints));
    lemma_gather_empty(s.tables, renames_of(s, hints));
    assert forall|i: int, fts: bool|
        0 <= i < s.indexes.len() implies index_creations(
        fts,
        s.indexes,
        d.tables_to_rebuild,
    )(#[trigger] s.indexes[i]).len() == 0 && #[trigger] index_replacements(
        fts,
        s.indexes,
        d.tables_to_rebuild,
    )(s.indexes[i]).len() == 0 && index_removals(fts, s.indexes)(s.indexes[i]).len() == 0 by {
        lemma_distinct(s.indexes, s.indexes[i].0, i);
        assert(same_name(keys(s.indexes)[i], s.indexes[i].0));
    }
    assert forall|i: int| 0 <= i < s.indexes.len() implies index_creations(
        false,
        s.indexes,
        d.tables_to_rebuild,
    )(#[trigger] s.indexes[i]).len() == 0 by {
        assert(index_replacements(false, s.indexes, d.tables_to_rebuild)(s.indexes[i]).len() == 0);
    }
    assert forall|i: int| 0 <= i < s.indexes.len() implies index_creations(
        true,
        s.indexes,
        d.tables_to_rebuild,
    )(#[trigger] s.indexes[i]).len() == 0 by {
        assert(index_replacements(true, s.indexes, d.tables_to_rebuild)(s.indexes[i]).len() == 0);
    }
    lemma_gather_empty(s.indexes, index_creations(false, s.indexes, d.tables_to_rebuild));
    lemma_gather_empty(s.indexes, index_creations(true, s.indexes, d.tables_to_rebuild));
    lemma_gather_empty(s.indexes, index_replacements(false, s.indexes, d.tables_to_rebuild));
    lemma_gather_empty(s.indexes, index_replacements(true, s.indexes, d.tables_to_rebuild));
    assert forall|i: int| 0 <= i < s.indexes.len() implies index_removals(false, s.indexes)(
        #[trigger] s.indexes[i],
    ).len() == 0 by {
        assert(same_name(keys(s.indexes)[i], s.indexes[i].0));
    }
    assert forall|i: int| 0 <= i < s.indexes.len() implies index_removals(true, s.indexes)(
        #[trigger] s.indexes[i],
    ).len() == 0 by {
        assert(same_name(keys(s.indexes)[i], s.indexes[i].0));
    }
    lemma_gather_empty(s.indexes, index_removals(false, s.indexes));
    lemma_gather_empty(s.indexes, index_removals(true, s.indexes));
    let v = view_texts(s.views);
    assert(crate::schema::lower_keys(v) =~= crate::schema::lower_keys(s.views));
    lemma_statements_unchanged(v);
    let t = trigger_texts(s.triggers);
    assert(crate::schema::lower_keys(t) =~= crate::schema::lower_keys(s.triggers));
    lemma_statements_unchanged(t);
}

proof fn lemma_nothing_missing(names: Seq<Text>)
    ensures
        missing_names(names, names).len() == 0,
{
    assert forall|i: int| 0 <= i < names.len() implies if_missing(names)(
        #[trigger] names[i],
    ).len() == 0 by {
        assert(same_name(names[i], names[i]));
    }
    lemma_gather_empty(names, if_missing(names));
}

proof fn lemma_statements_unchanged(s: Seq<(Text, Text)>)
    requires
        sorted_keys(s),
    ensures
        created(s, s).len() == 0,
        dropped(s, s).len() == 0,
{
    assert forall|i: int| 0 <= i < s.len() implies creations(s)(#[trigger] s[i]).len() == 0 by {
        lemma_distinct(s, s[i].0, i);
    }
    assert forall|i: int| 0 <= i < s.len() implies replacements(s)(#[trigger] s[i]).len() == 0 by {
        lemma_distinct(s, s[i].0, i);
    }
    lemma_gather_empty(s, creations(s));
    lemma_gather_empty(s, replacements(s));
    lemma_nothing_missing(keys(s));
}

// ---------------------------------------------------------------------------
// Tables
// ---------------------------------------------------------------------------

proof fn lemma_missing_names(from: Seq<Text>, other: Seq<Text>, n: Text)
    ensures
        missing_names(from, other).contains(n) <==> from.contains(n) && !has_name(other, n),
{
    let f = if_missing(other);
    lemma_gather_contains(from, f, n);
    if missing_names(from, other).contains(n) {
        let i = choose|i: int| 0 <= i < from.len() && f(#[trigger] from[i]).contains(n);
        assert(f(from[i]).contains(n));
        assert(!has_name(other, from[i]));
        assert(f(from[i]) =~= seq![from[i]]);
        assert(from[i] == n);
    }
    if from.contains(n) && !has_name(other, n) {
        let i = choose|i: int| 0 <= i < from.len() && from[i] == n;
        assert(f(from[i]) =~= seq![n]);
        assert(f(from[i])[0] == n);
        assert(f(from[i]).contains(n));
    }
}

/// A table is created exactly where it is wanted and the database has none of its
/// name, and dropped exactly where the database has it and none of its name is
/// wanted.
pub proof fn lemma_created_and_dropped_tables(
    desired: SnapshotModel,
    actual: SnapshotModel,
    hints: Seq<HintModel>,
    n: Text,
)
    ensures
        difference(desired, actual, hints).tables_to_create.contains(n) <==> keys(
            desired.tables,
        ).contains(n) && !has_name(keys(actual.tables), n),
        difference(desired, actual, hints).tables_to_drop.contains(n) <==> keys(
            actual.tables,
        ).contains(n) && !has_name(keys(desired.tables), n),
{
    lemma_missing_names(keys(desired.tables), keys(actual.tables), n);
    lemma_missing_names(keys(actual.tables), keys(desired.tables), n);
}

/// No name is both created and dropped, whatever its case.
pub proof fn lemma_never_created_and_dropped(
    desired: SnapshotModel,
    actual: SnapshotModel,
    hints: Seq<HintModel>,
    created_name: Text,
    dropped_name: Text,
)
    requires
        difference(desired, actual, hints).tables_to_create.contains(created_name),
        difference(desired, actual, hints).tables_to_drop.contains(dropped_name),
    ensures
        !same_name(created_name, dropped_name),
{
    lemma_created_and_dropped_tables(desired, actual, hints, created_name);
    lemma_created_and_dropped_tables(desired, actual, hints, dropped_name);
    let names = keys(actual.tables);
    let i = choose|i: int| 0 <= i < names.len() && names[i] == dropped_name;
    assert(!same_name(names[i], created_name));
}

/// The entry that a change of a column comes from.
pub proof fn lemma_add_source(
    desired: SnapshotModel,
    actual: SnapshotModel,
    hints: Seq<HintModel>,
    x: (Text, ColumnModel),
) -> (i: int)
    requires
        difference(desired, actual, hints).columns_to_add.contains(x),
    ensures
        0 <= i < desired.tables.len(),
        desired.tables[i].0 == x.0,
        entry_change(desired.tables[i], actual, hints).add.contains(x.1),
{
    let f = adds_of(actual, hints);
    lemma_gather_contains(desired.tables, f, x);
    let i = choose|i: int| 0 <= i < desired.tables.len() && f(#[trigger] desired.tables[i]).contains(x);
    let e = desired.tables[i];
    let add = entry_change(e, actual, hints).add;
    assert(f(e) == tagged(e.0, add));
    let k = choose|k: int| 0 <= k < tagged(e.0, add).len() && tagged(e.0, add)[k] == x;
    assert(add[k] == x.1);
    i
}

proof fn lemma_drop_source(
    desired: SnapshotModel,
    actual: SnapshotModel,
    hints: Seq<HintModel>,
    x: (Text, Text),
) -> (i: int)
    requires
        difference(desired, actual, hints).columns_to_drop.contains(x),
    ensures
        0 <= i < desired.tables.len(),
        desired.tables[i].0 == x.0,
        entry_change(desired.tables[i], actual, hints).drop.contains(x.1),
{
    let f = drops_of(actual, hints);
    lemma_gather_contains(desired.tables, f, x);
    let i = choose|i: int| 0 <= i < desired.tables.len() && f(#[trigger] desired.tables[i]).contains(x);
    let e = desired.tables[i];
    let drop = entry_change(e, actual, hints).drop;
    assert(f(e) == tagged(e.0, drop));
    let k = choose|k: int| 0 <= k < tagged(e.0, drop).len() && tagged(e.0, drop)[k] == x;
    assert(drop[k] == x.1);
    i
}

/// The entry that a rename comes from.
pub proof fn lemma_rename_source(
    desired: SnapshotModel,
    actual: SnapshotModel,
    hints: Seq<HintModel>,
    x: (Text, Text, Text),
) -> (i: int)
    requires
        difference(desired, actual, hints).columns_to_rename.contains(x),
    ensures
        0 <= i < desired.tables.len(),
        desired.tables[i].0 == x.0,
        entry_change(desired.tables[i], actual, hints).renamed.contains((x.1, x.2)),
{
    let f = renames_of(actual, hints);
    lemma_gather_contains(desired.tables, f, x);
    let i = choose|i: int| 0 <= i < desired.tables.len() && f(#[trigger] desired.tables[i]).contains(x);
    let e = desired.tables[i];
    let renamed = entry_change(e, actual, hints).renamed;
    assert(f(e) == tagged_pairs(e.0, renamed));
    let k = choose|k: int|
        0 <= k < tagged_pairs(e.0, renamed).len() && tagged_pairs(e.0, renamed)[k] == x;
    assert(renamed[k] == (x.1, x.2));
    i
}

/// The entry that a rebuild comes from.
pub proof fn lemma_rebuild_source(
    desired: SnapshotModel,
    actual: SnapshotModel,
    hints: Seq<HintModel>,
    n: Text,
) -> (i: int)
    requires
        difference(desired, actual, hints).tables_to_rebuild.contains(n),
    ensures
        0 <= i < desired.tables.len(),
        desired.tables[i].0 == n,
        entry_change(desired.tables[i], actual, hints).rebuild,
{
    let f = rebuilds_of(actual, hints);
    lemma_gather_contains(desired.tables, f, n);
    let i = choose|i: int| 0 <= i < desired.tables.len() && f(#[trigger] desired.tables[i]).contains(n);
    let e = desired.tables[i];
    assert(f(e).contains(n));
    assert(entry_change(e, actual, hints).rebuild);
    assert(f(e) =~= seq![e.0]);
    i
}

/// Whether a column of the table is added, dropped or renamed.
pub open spec fn is_column_changed(d: DiffModel, table: Text) -> bool {
    ||| exists|i: int| 0 <= i < d.columns_to_add.len() && (#[trigger] d.columns_to_add[i]).0 == table
    ||| exists|i: int|
        0 <= i < d.columns_to_drop.len() && (#[trigger] d.columns_to_drop[i]).0 == table
    ||| exists|i: int|
        0 <= i < d.columns_to_rename.len() && (#[trigger] d.columns_to_rename[i]).0 == table
}

/// A table that is rebuilt has no column added, dropped or renamed besides, and is
/// neither created nor dropped.
pub proof fn lemma_rebuilt_or_altered(
    desired: SnapshotModel,
    actual: SnapshotModel,
    hints: Seq<HintModel>,
    n: Text,
)
    requires
        sorted_keys(desired.tables),
        difference(desired, actual, hints).tables_to_rebuild.contains(n),
    ensures
        !is_column_changed(difference(desired, actual, hints), n),
        !difference(desired, actual, hints).tables_to_create.contains(n),
        !difference(desired, actual, hints).tables_to_drop.contains(n),
{
    let d = difference(desired, actual, hints);
    let r = lemma_rebuild_source(desired, actual, hints, n);
    lemma_distinct(desired.tables, n, r);
    if exists|i: int| 0 <= i < d.columns_to_add.len() && (#[trigger] d.columns_to_add[i]).0 == n {
        let i = choose|i: int|
            0 <= i < d.columns_to_add.len() && (#[trigger] d.columns_to_add[i]).0 == n;
        let k = lemma_add_source(desired, actual, hints, d.columns_to_add[i]);
        lemma_distinct(desired.tables, n, k);
    }
    if exists|i: int|
        0 <= i < d.columns_to_drop.len() && (#[trigger] d.columns_to_drop[i]).0 == n {
        let i = choose|i: int|
            0 <= i < d.columns_to_drop.len() && (#[trigger] d.columns_to_drop[i]).0 == n;
        let k = lemma_drop_source(desired, actual, hints, d.columns_to_drop[i]);
        lemma_distinct(desired.tables, n, k);
    }
    if exists|i: int|
        0 <= i < d.columns_to_rename.len() && (#[trigger] d.columns_to_rename[i]).0 == n {
        let i = choose|i: int|
            0 <= i < d.columns_to_rename.len() && (#[trigger] d.columns_to_rename[i]).0 == n;
        let k = lemma_rename_source(desired, actual, hints, d.columns_to_rename[i]);
        lemma_distinct(desired.tables, n, k);
    }
    lemma_created_and_dropped_tables(desired, actual, hints, n);
    lemma_name_index(keys(actual.tables), n);
    assert(same_name(keys(desired.tables)[r], n));
}

// ---------------------------------------------------------------------------
// Columns
// ---------------------------------------------------------------------------

/// Every column to add can be added without a rebuild.
pub proof fn lemma_added_columns_addable(
    desired: SnapshotModel,
    actual: SnapshotModel,
    hints: Seq<HintModel>,
    x: (Text, ColumnModel),
)
    requires
        difference(desired, actual, hints).columns_to_add.contains(x),
    ensures
        addable(x.1),
{
    let i = lemma_add_source(desired, actual, hints, x);
    let e = desired.tables[i];
    let there = lookup(actual.tables, e.0)->0;
    let r = table_renames(e.0, e.1, there, hints);
    let k = choose|k: int| 0 <= k < r.add.len() && r.add[k] == x.1;
    assert(addable(r.add[k]));
}

/// What is left to drop was to be dropped before.
proof fn lemma_drops_left(
    table: Text,
    desired: Seq<ColumnModel>,
    actual: Seq<ColumnModel>,
    add: Seq<ColumnModel>,
    drop: Seq<Text>,
    hints: Seq<HintModel>,
    n: Text,
)
    requires
        renames(table, desired, actual, add, drop, hints).drop.contains(n),
        crate::rename::hints_fit(table, desired, actual, add, drop, hints),
    ensures
        drop.contains(n),
{
    let pairs = hinted_pairs(table, desired, actual, add, drop, hints);
    let add1 = not_taken(add, pairs);
    let drop1 = after_removals(drop, pairs);
    lemma_single_drops(desired, actual, add1, drop1, drop1.len() as int, n);
    lemma_removals(drop, pairs, n);
}

/// What has no partner was to be dropped before.
proof fn lemma_single_drops(
    desired: Seq<ColumnModel>,
    actual: Seq<ColumnModel>,
    add: Seq<ColumnModel>,
    drop: Seq<Text>,
    k: int,
    n: Text,
)
    requires
        0 <= k <= drop.len(),
        single_drops(desired, actual, add, drop, k).contains(n),
    ensures
        drop.contains(n),
    decreases k,
{
    if k > 0 {
        let before = single_drops(desired, actual, add, drop, k - 1);
        let now = single_drops(desired, actual, add, drop, k);
        let m = choose|m: int| 0 <= m < now.len() && now[m] == n;
        if m < before.len() {
            assert(before[m] == n);
            lemma_single_drops(desired, actual, add, drop, k - 1, n);
        } else {
            assert(drop[k - 1] == n);
        }
    }
}

proof fn lemma_removals(drop: Seq<Text>, pairs: Seq<PairModel>, n: Text)
    requires
        crate::rename::removals_fit(drop.len() as int, pairs),
        after_removals(drop, pairs).contains(n),
    ensures
        drop.contains(n),
    decreases pairs.len(),
{
    if pairs.len() > 0 {
        let fewer = pairs.drop_last();
        assert forall|k: int| 0 <= k < fewer.len() implies 0 <= (#[trigger] fewer[k]).drop_at
            < drop.len() - k by {
            assert(fewer[k] == pairs[k]);
        }
        let s = after_removals(drop, fewer);
        let at = pairs.last().drop_at;
        lemma_removals_len(drop, fewer);
        assert(pairs[pairs.len() - 1] == pairs.last());
        let t = s.remove(at);
        let m = choose|m: int| 0 <= m < t.len() && t[m] == n;
        if m < at {
            assert(s[m] == n);
        } else {
            assert(s[m + 1] == n);
        }
        lemma_removals(drop, fewer, n);
    }
}

proof fn lemma_removals_len(drop: Seq<Text>, pairs: Seq<PairModel>)
    requires
        crate::rename::removals_fit(drop.len() as int, pairs),
    ensures
        after_removals(drop, pairs).len() == drop.len() - pairs.len(),
    decreases pairs.len(),
{
    if pairs.len() > 0 {
        let fewer = pairs.drop_last();
        assert forall|k: int| 0 <= k < fewer.len() implies 0 <= (#[trigger] fewer[k]).drop_at
            < drop.len() - k by {
            assert(fewer[k] == pairs[k]);
        }
        lemma_removals_len(drop, fewer);
        assert(pairs[pairs.len() - 1] == pairs.last());
    }
}

/// Every column to drop is a column of the actual table that is not wanted, is in no
/// key, index, view or trigger, and can be dropped without a rebuild.
pub proof fn lemma_dropped_columns_droppable(
    desired: SnapshotModel,
    actual: SnapshotModel,
    hints: Seq<HintModel>,
    x: (Text, Text),
) -> (c: ColumnModel)
    requires
        crate::diff::hints_applicable(desired, actual, hints),
        difference(desired, actual, hints).columns_to_drop.contains(x),
    ensures
        lookup(actual.tables, x.0) is Some,
        lookup(actual.tables, x.0)->0.columns.contains(c),
        same_name(c.name, x.1),
        droppable(c, lookup(actual.tables, x.0)->0, actual),
        forall|i: int|
            0 <= i < desired.tables.len() && (#[trigger] desired.tables[i]).0 == x.0 && sorted_keys(
                desired.tables,
            ) ==> !has_name(column_names(desired.tables[i].1.columns), c.name),
{
    let i = lemma_drop_source(desired, actual, hints, x);
    let e = desired.tables[i];
    let there = lookup(actual.tables, e.0)->0;
    let r = table_renames(e.0, e.1, there, hints);
    let lost = lost_columns(e.1.columns, there.columns);
    let names = column_names(lost);
    assert(crate::diff::entry_hints_fit(e, actual, hints));
    lemma_drops_left(
        e.0,
        e.1.columns,
        there.columns,
        fresh_columns(e.1.columns, there.columns),
        names,
        hints,
        x.1,
    );
    let m = choose|m: int| 0 <= m < r.drop.len() && r.drop[m] == x.1;
    assert(!stuck(r.drop[m], lost, there, actual));
    lemma_name_index(names, x.1);
    let q = choose|q: int| 0 <= q < names.len() && names[q] == x.1;
    assert(same_name(names[q], x.1));
    let k = name_index(names, x.1)->0;
    let c = lost[k];
    assert(names[k] == c.name);
    lemma_lost(e.1.columns, there.columns, k);
    assert forall|j: int|
        0 <= j < desired.tables.len() && (#[trigger] desired.tables[j]).0 == x.0 && sorted_keys(
            desired.tables,
        ) implies !has_name(column_names(desired.tables[j].1.columns), c.name) by {
        lemma_distinct(desired.tables, x.0, i);
        lemma_distinct(desired.tables, x.0, j);
    }
    c
}

/// A lost column is a column of the actual table whose name is not wanted.
pub proof fn lemma_lost(desired: Seq<ColumnModel>, actual: Seq<ColumnModel>, k: int)
    requires
        0 <= k < lost_columns(desired, actual).len(),
    ensures
        actual.contains(lost_columns(desired, actual)[k]),
        !lost_columns(desired, actual)[k].is_hidden,
        !has_name(column_names(desired), lost_columns(desired, actual)[k].name),
{
    let f = lost_from(desired);
    let c = lost_columns(desired, actual)[k];
    lemma_gather_contains(actual, f, c);
    assert(lost_columns(desired, actual).contains(c));
    let i = choose|i: int| 0 <= i < actual.len() && f(#[trigger] actual[i]).contains(c);
    assert(f(actual[i]).contains(c));
    assert(!(actual[i].is_hidden || has_name(column_names(desired), actual[i].name)));
    assert(f(actual[i]) =~= seq![actual[i]]);
}

// ---------------------------------------------------------------------------
// Renames
// ---------------------------------------------------------------------------

/// Whether the tables have columns of these names that differ in nothing else.
pub open spec fn rename_justified(
    desired: Seq<ColumnModel>,
    actual: Seq<ColumnModel>,
    from: Text,
    to: Text,
) -> bool {
    exists|i: int, j: int|
        0 <= i < actual.len() && 0 <= j < desired.len() && same_name(
            (#[trigger] actual[i]).name,
            from,
        ) && same_name((#[trigger] desired[j]).name, to) && renamable(actual[i], desired[j])
}

proof fn lemma_pairs_justified(
    table: Text,
    desired: Seq<ColumnModel>,
    actual: Seq<ColumnModel>,
    add: Seq<ColumnModel>,
    drop: Seq<Text>,
    p: PairModel,
    h: HintModel,
)
    requires
        hinted(table, desired, actual, add, drop)(h).contains(p),
    ensures
        rename_justified(desired, actual, p.from, p.to),
{
    let s = hinted(table, desired, actual, add, drop)(h);
    lemma_name_index(column_names(actual), drop[name_index(drop, h.from)->0]);
    lemma_name_index(column_names(desired), add[name_index(column_names(add), h.to)->0].name);
    let from = drop[name_index(drop, h.from)->0];
    let to = add[name_index(column_names(add), h.to)->0].name;
    let i = name_index(column_names(actual), from);
    let j = name_index(column_names(desired), to);
    assert(s.len() > 0);
    assert(same_name(actual[i->0].name, from));
    assert(same_name(desired[j->0].name, to));
}

proof fn lemma_from_the_back(s: Seq<PairModel>, p: PairModel)
    requires
        from_the_back(s).contains(p),
    ensures
        s.contains(p),
    decreases s.len(),
{
    if s.len() > 0 {
        let t = from_the_back(s.drop_last());
        let k = pair_slot(t, s.last().drop_at, 0);
        lemma_pair_slot(t, s.last().drop_at, 0);
        let u = t.insert(k, s.last());
        let m = choose|m: int| 0 <= m < u.len() && u[m] == p;
        if m == k {
            assert(s[s.len() - 1] == p);
        } else {
            if m < k {
                assert(t[m] == p);
            } else {
                assert(t[m - 1] == p);
            }
            lemma_from_the_back(s.drop_last(), p);
            let q = choose|q: int| 0 <= q < s.drop_last().len() && s.drop_last()[q] == p;
            assert(s[q] == p);
        }
    }
}

proof fn lemma_pair_slot(s: Seq<PairModel>, d: int, i: int)
    requires
        0 <= i <= s.len(),
    ensures
        i <= pair_slot(s, d, i) <= s.len(),
    decreases s.len() - i,
{
    if i < s.len() && s[i].drop_at >= d {
        lemma_pair_slot(s, d, i + 1);
    }
}

proof fn lemma_place_renames_justified(
    desired: Seq<ColumnModel>,
    actual: Seq<ColumnModel>,
    add: Seq<ColumnModel>,
    drop: Seq<Text>,
    n: int,
    x: (Text, Text),
)
    requires
        0 <= n <= drop.len(),
        forall|a: int| 0 <= a < add.len() ==> desired.contains(#[trigger] add[a]),
        place_renames(desired, actual, add, drop, n).contains(x),
    ensures
        rename_justified(desired, actual, x.0, x.1),
    decreases n,
{
    if n > 0 {
        let before = place_renames(desired, actual, add, drop, n - 1);
        let now = place_renames(desired, actual, add, drop, n);
        let m = choose|m: int| 0 <= m < now.len() && now[m] == x;
        if m < before.len() {
            assert(before[m] == x);
            lemma_place_renames_justified(desired, actual, add, drop, n - 1, x);
        } else {
            let a = partner(desired, actual, add, drop, n - 1);
            assert(paired(desired, actual, add, drop, n - 1, a));
            assert(candidate(desired, actual, add, drop, n - 1, a));
            lemma_name_index(column_names(actual), drop[n - 1]);
            let i = name_index(column_names(actual), drop[n - 1])->0;
            assert(same_name(actual[i].name, x.0));
            assert(desired.contains(add[a]));
            let j = choose|j: int| 0 <= j < desired.len() && desired[j] == add[a];
            assert(same_name(desired[j].name, x.1));
        }
    }
}

/// What is left of the new columns was among them.
pub proof fn lemma_not_taken(add: Seq<ColumnModel>, pairs: Seq<PairModel>, a: int)
    requires
        0 <= a < not_taken(add, pairs).len(),
    ensures
        add.contains(not_taken(add, pairs)[a]),
    decreases add.len(),
{
    if add.len() > 0 {
        let rest = not_taken(add.drop_last(), pairs);
        let c = not_taken(add, pairs)[a];
        if a < rest.len() {
            lemma_not_taken(add.drop_last(), pairs, a);
            let k = choose|k: int| 0 <= k < add.drop_last().len() && add.drop_last()[k] == c;
            assert(add[k] == c);
        } else {
            assert(add[add.len() - 1] == c);
        }
    }
}

/// Every renamed column is one of the actual table, and becomes one of the wanted
/// table that differs from it in nothing but its name.
pub proof fn lemma_renames_justified(
    desired: SnapshotModel,
    actual: SnapshotModel,
    hints: Seq<HintModel>,
    x: (Text, Text, Text),
) -> (i: int)
    requires
        difference(desired, actual, hints).columns_to_rename.contains(x),
    ensures
        0 <= i < desired.tables.len(),
        desired.tables[i].0 == x.0,
        lookup(actual.tables, x.0) is Some,
        rename_justified(
            desired.tables[i].1.columns,
            lookup(actual.tables, x.0)->0.columns,
            x.1,
            x.2,
        ),
{
    let i = lemma_rename_source(desired, actual, hints, x);
    let e = desired.tables[i];
    let there = lookup(actual.tables, e.0)->0;
    let de = e.1.columns;
    let ac = there.columns;
    let add = fresh_columns(de, ac);
    let drop = column_names(lost_columns(de, ac));
    let all = gather(hints, hinted(e.0, de, ac, add, drop));
    let pairs = hinted_pairs(e.0, de, ac, add, drop, hints);
    let add1 = not_taken(add, pairs);
    let drop1 = after_removals(drop, pairs);
    let second = place_renames(de, ac, add1, drop1, drop1.len() as int);
    let y = (x.1, x.2);
    let whole = pair_names(pairs) + second;
    let m = choose|m: int| 0 <= m < whole.len() && whole[m] == y;
    if m < pairs.len() {
        let p = pairs[m];
        assert(pairs.contains(p));
        lemma_from_the_back(all, p);
        lemma_gather_contains(hints, hinted(e.0, de, ac, add, drop), p);
        let k = choose|k: int|
            0 <= k < hints.len() && hinted(e.0, de, ac, add, drop)(#[trigger] hints[k]).contains(p);
        lemma_pairs_justified(e.0, de, ac, add, drop, p, hints[k]);
    } else {
        assert(second[m - pairs.len()] == y);
        assert forall|a: int| 0 <= a < add1.len() implies de.contains(#[trigger] add1[a]) by {
            lemma_not_taken(add, pairs, a);
            let k = choose|k: int| 0 <= k < add.len() && add[k] == add1[a];
            lemma_lost(ac, de, k);
        }
        lemma_place_renames_justified(de, ac, add1, drop1, drop1.len() as int, y);
    }
    i
}

// ---------------------------------------------------------------------------
// Formatting
// ---------------------------------------------------------------------------

/// Two indexes that differ at most in the formatting of their statements.
pub open spec fn alike_index(a: IndexModel, b: IndexModel) -> bool {
    &&& a.table_name == b.table_name
    &&& a.is_fts == b.is_fts
    &&& normal(a.sql) == normal(b.sql)
}

/// Two schemas that differ at most in the formatting of their statements.
pub open spec fn alike(a: SnapshotModel, b: SnapshotModel) -> bool {
    &&& a.tables.len() == b.tables.len()
    &&& forall|i: int|
        0 <= i < a.tables.len() ==> (#[trigger] a.tables[i]).0 == b.tables[i].0
            && a.tables[i].1.columns == b.tables[i].1.columns && a.tables[i].1.check_constraints
            == b.tables[i].1.check_constraints
    &&& a.indexes.len() == b.indexes.len()
    &&& forall|i: int|
        0 <= i < a.indexes.len() ==> (#[trigger] a.indexes[i]).0 == b.indexes[i].0 && alike_index(
            a.indexes[i].1,
            b.indexes[i].1,
        )
    &&& a.views.len() == b.views.len()
    &&& forall|i: int|
        0 <= i < a.views.len() ==> (#[trigger] a.views[i]).0 == b.views[i].0 && normal(
            a.views[i].1.sql,
        ) == normal(b.views[i].1.sql)
    &&& a.triggers.len() == b.triggers.len()
    &&& forall|i: int|
        0 <= i < a.triggers.len() ==> (#[trigger] a.triggers[i]).0 == b.triggers[i].0 && normal(
            a.triggers[i].1.sql,
        ) == normal(b.triggers[i].1.sql)
}

proof fn lemma_gather_alike<A, B>(
    s: Seq<A>,
    t: Seq<A>,
    f: spec_fn(A) -> Seq<B>,
    g: spec_fn(A) -> Seq<B>,
)
    requires
        s.len() == t.len(),
        forall|i: int| 0 <= i < s.len() ==> f(#[trigger] s[i]) == g(t[i]),
    ensures
        gather(s, f) == gather(t, g),
    decreases s.len(),
{
    if s.len() > 0 {
        let d = s.drop_last();
        let e = t.drop_last();
        assert forall|i: int| 0 <= i < d.len() implies f(#[trigger] d[i]) == g(e[i]) by {
            assert(d[i] == s[i]);
        }
        lemma_gather_alike(d, e, f, g);
        assert(s[s.len() - 1] == s.last());
    }
}

/// The formatting of the wanted schema does not matter: comments, white space and
/// the case of letters outside literals change no difference.
pub proof fn lemma_formatting_is_no_difference(
    a: SnapshotModel,
    b: SnapshotModel,
    actual: SnapshotModel,
    hints: Seq<HintModel>,
)
    requires
        alike(a, b),
    ensures
        difference(a, actual, hints) == difference(b, actual, hints),
{
    let x = difference(a, actual, hints);
    let y = difference(b, actual, hints);
    assert(keys(a.tables) =~= keys(b.tables));
    assert(keys(a.indexes) =~= keys(b.indexes));
    assert forall|i: int| 0 <= i < a.tables.len() implies entry_change(
        #[trigger] a.tables[i],
        actual,
        hints,
    ) == entry_change(b.tables[i], actual, hints) by {
        match lookup(actual.tables, a.tables[i].0) {
            Some(there) => {
                lemma_table_change_alike(
                    a.tables[i].0,
                    a.tables[i].1,
                    b.tables[i].1,
                    there,
                    actual,
                    hints,
                );
            },
            None => {},
        }
    }
    lemma_gather_alike(a.tables, b.tables, rebuilds_of(actual, hints), rebuilds_of(actual, hints));
    lemma_gather_alike(a.tables, b.tables, adds_of(actual, hints), adds_of(actual, hints));
    lemma_gather_alike(a.tables, b.tables, drops_of(actual, hints), drops_of(actual, hints));
    lemma_gather_alike(a.tables, b.tables, renames_of(actual, hints), renames_of(actual, hints));
    let rb = x.tables_to_rebuild;
    let ix = actual.indexes;
    lemma_gather_alike(
        a.indexes,
        b.indexes,
        index_creations(false, ix, rb),
        index_creations(false, ix, rb),
    );
    lemma_gather_alike(
        a.indexes,
        b.indexes,
        index_creations(true, ix, rb),
        index_creations(true, ix, rb),
    );
    lemma_gather_alike(
        a.indexes,
        b.indexes,
        index_replacements(false, ix, rb),
        index_replacements(false, ix, rb),
    );
    lemma_gather_alike(
        a.indexes,
        b.indexes,
        index_replacements(true, ix, rb),
        index_replacements(true, ix, rb),
    );
    lemma_gather_alike(ix, ix, index_removals(false, a.indexes), index_removals(false, b.indexes));
    lemma_gather_alike(ix, ix, index_removals(true, a.indexes), index_removals(true, b.indexes));
    lemma_statements_alike(view_texts(a.views), view_texts(b.views), view_texts(actual.views));
    lemma_statements_alike(
        trigger_texts(a.triggers),
        trigger_texts(b.triggers),
        trigger_texts(actual.triggers),
    );
    assert(x =~= y);
}

proof fn lemma_table_change_alike(
    name: Text,
    a: TableModel,
    b: TableModel,
    there: TableModel,
    snapshot: SnapshotModel,
    hints: Seq<HintModel>,
)
    requires
        a.columns == b.columns,
        a.check_constraints == b.check_constraints,
    ensures
        table_change(name, a, there, snapshot, hints) == table_change(
            name,
            b,
            there,
            snapshot,
            hints,
        ),
{
    assert(table_altered(a, there) == table_altered(b, there));
}

proof fn lemma_statements_alike(
    a: Seq<(Text, Text)>,
    b: Seq<(Text, Text)>,
    actual: Seq<(Text, Text)>,
)
    requires
        a.len() == b.len(),
        forall|i: int|
            0 <= i < a.len() ==> (#[trigger] a[i]).0 == b[i].0 && normal(a[i].1) == normal(b[i].1),
    ensures
        created(a, actual) == created(b, actual),
        dropped(a, actual) == dropped(b, actual),
{
    lemma_gather_alike(a, b, creations(actual), creations(actual));
    lemma_gather_alike(a, b, replacements(actual), replacements(actual));
    assert(keys(a) =~= keys(b));
}

// ---------------------------------------------------------------------------
// Display
// ---------------------------------------------------------------------------

/// Whether a text is empty or starts with one of the marks of a change.
spec fn marked(t: Text) -> bool {
    t.len() > 0 ==> t[0] == '+' || t[0] == '-' || t[0] == '~'
}

proof fn lemma_marked_join(a: Text, b: Text)
    requires
        marked(a),
        marked(b),
    ensures
        marked(a + b),
        (a + b).len() == a.len() + b.len(),
{
    if a.len() > 0 {
        assert((a + b)[0] == a[0]);
    } else {
        assert(a + b =~= b);
    }
}

proof fn lemma_listed_marked(prefix: Text, names: Seq<Text>, suffix: Text)
    requires
        marked(prefix),
        prefix.len() > 0,
    ensures
        marked(listed(prefix, names, suffix)),
        names.len() > 0 ==> listed(prefix, names, suffix).len() > 0,
    decreases names.len(),
{
    if names.len() > 0 {
        lemma_listed_marked(prefix, names.drop_last(), suffix);
        let head = listed(prefix, names.drop_last(), suffix);
        lemma_marked_join(head, prefix);
        let l = listed(prefix, names, suffix);
        assert(l[0] == (head + prefix)[0]);
    }
}

/// People are told that nothing changes exactly where nothing changes.
pub proof fn lemma_display_of_nothing(d: DiffModel)
    ensures
        d.display() == "(no changes)"@ <==> d.nothing(),
{
    reveal_strlit("(no changes)");
    reveal_strlit("+ TABLE ");
    reveal_strlit("- TABLE ");
    reveal_strlit("~ TABLE ");
    reveal_strlit("+ COLUMN ");
    reveal_strlit("- COLUMN ");
    reveal_strlit("~ COLUMN ");
    reveal_strlit("+ INDEX ");
    reveal_strlit("- INDEX ");
    reveal_strlit("+ FTS INDEX ");
    reveal_strlit("- FTS INDEX ");
    reveal_strlit("+ VIEW ");
    reveal_strlit("- VIEW ");
    reveal_strlit("+ TRIGGER ");
    reveal_strlit("- TRIGGER ");
    let nl = "\n"@;
    let p1 = listed("+ TABLE "@, d.tables_to_create, nl);
    let p2 = listed("~ TABLE "@, d.tables_to_rebuild, ": REBUILD\n"@);
    let p3 = listed("- TABLE "@, d.tables_to_drop, nl);
    let p4 = listed("+ COLUMN "@, added_labels(d.columns_to_add), nl);
    let p5 = listed("- COLUMN "@, dropped_labels(d.columns_to_drop), nl);
    let p6 = listed("~ COLUMN "@, renamed_labels(d.columns_to_rename), nl);
    let p7 = listed("+ INDEX "@, d.indexes_to_create, nl);
    let p8 = listed("- INDEX "@, d.indexes_to_drop, nl);
    let p9 = listed("+ FTS INDEX "@, d.fts_indexes_to_create, nl);
    let p10 = listed("- FTS INDEX "@, d.fts_indexes_to_drop, nl);
    let p11 = listed("+ VIEW "@, d.views_to_create, nl);
    let p12 = listed("- VIEW "@, d.views_to_drop, nl);
    let p13 = listed("+ TRIGGER "@, d.triggers_to_create, nl);
    let p14 = listed("- TRIGGER "@, d.triggers_to_drop, nl);
    lemma_listed_marked("+ TABLE "@, d.tables_to_create, nl);
    lemma_listed_marked("- TABLE "@, d.tables_to_drop, nl);
    lemma_listed_marked("~ TABLE "@, d.tables_to_rebuild, ": REBUILD\n"@);
    lemma_listed_marked("+ COLUMN "@, added_labels(d.columns_to_add), nl);
    lemma_listed_marked("- COLUMN "@, dropped_labels(d.columns_to_drop), nl);
    lemma_listed_marked("~ COLUMN "@, renamed_labels(d.columns_to_rename), nl);
    lemma_listed_marked("+ INDEX "@, d.indexes_to_create, nl);
    lemma_listed_marked("- INDEX "@, d.indexes_to_drop, nl);
    lemma_listed_marked("+ FTS INDEX "@, d.fts_indexes_to_create, nl);
    lemma_listed_marked("- FTS INDEX "@, d.fts_indexes_to_drop, nl);
    lemma_listed_marked("+ VIEW "@, d.views_to_create, nl);
    lemma_listed_marked("- VIEW "@, d.views_to_drop, nl);
    lemma_listed_marked("+ TRIGGER "@, d.triggers_to_create, nl);
    lemma_listed_marked("- TRIGGER "@, d.triggers_to_drop, nl);
    let q2 = p1 + p2;
    lemma_marked_join(p1, p2);
    let q3 = q2 + p3;
    lemma_marked_join(q2, p3);
    let q4 = q3 + p4;
    lemma_marked_join(q3, p4);
    let q5 = q4 + p5;
    lemma_marked_join(q4, p5);
    let q6 = q5 + p6;
    lemma_marked_join(q5, p6);
    let q7 = q6 + p7;
    lemma_marked_join(q6, p7);
    let q8 = q7 + p8;
    lemma_marked_join(q7, p8);
    let q9 = q8 + p9;
    lemma_marked_join(q8, p9);
    let q10 = q9 + p10;
    lemma_marked_join(q9, p10);
    let q11 = q10 + p11;
    lemma_marked_join(q10, p11);
    let q12 = q11 + p12;
    lemma_marked_join(q11, p12);
    let q13 = q12 + p13;
    lemma_marked_join(q12, p13);
    let q14 = q13 + p14;
    lemma_marked_join(q13, p14);
    if !d.nothing() {
        assert(d.display() == q14);
        assert(q14.len() > 0);
        assert("(no changes)"@[0] == '(');
    }
}

} // verus!
