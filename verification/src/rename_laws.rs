//! Why a table is rebuilt, a column added or a column renamed, and when a rename is owed.

use vstd::prelude::*;

#[allow(unused_imports)]
use crate::change_laws::{
    cannot_be_added, cannot_be_dropped, defaults_differ, is_column, is_first_column, is_match,
    lemma_droppable, lemma_first_column, lemma_has_column, lemma_matched_table,
    lemma_rebuild_listed,
};
#[allow(unused_imports)]
use crate::column_laws::{
    lemma_fresh, lemma_in_place_renames, lemma_pair_of_hint, lemma_rename_listed, lemma_same_pairs,
};
#[allow(unused_imports)]
use crate::diff::{
    addable, column_altered, difference, entry_change, fresh_columns, lost_columns, stuck,
    table_altered, table_renames,
};
#[allow(unused_imports)]
use crate::diff_laws::{
    lemma_add_source, lemma_added_columns_addable, lemma_lost, lemma_not_taken,
    lemma_rebuild_source, lemma_rename_source,
};
#[allow(unused_imports)]
use crate::lists::{
    gather, lemma_gather_contains, lemma_gather_step, lemma_name_index, lemma_name_index_is,
    name_index,
};
#[allow(unused_imports)]
use crate::options::HintModel;
#[allow(unused_imports)]
use crate::rename::{
    after_removals, candidate, column_place, hinted, hinted_pairs, if_visible,
    lemma_visible_prefix, not_taken, only_candidate, pair_names, paired, partner, place_renames,
    renamable, single_adds, taken, visible, PairModel,
};
#[allow(unused_imports)]
use crate::schema::{column_names, keys, lookup, ColumnModel, SnapshotModel, TableModel};
#[allow(unused_imports)]
use crate::statement_laws::{lemma_gathered_at, positions};
#[allow(unused_imports)]
use crate::text::{lower, same_name, Text};

verus! {

// ---------------------------------------------------------------------------
// Reasons
// ---------------------------------------------------------------------------

/// Whether the table of a name in a schema is the table `m`.
proof fn lemma_found_table(desired: SnapshotModel, actual: SnapshotModel, i: int) -> (m: int)
    requires
        0 <= i < desired.tables.len(),
        lookup(actual.tables, desired.tables[i].0) is Some,
    ensures
        is_match(desired, actual, i, m),
        lookup(actual.tables, desired.tables[i].0) == Some(actual.tables[m].1),
{
    let names = keys(actual.tables);
    lemma_name_index(names, desired.tables[i].0);
    let m = name_index(names, desired.tables[i].0)->0;
    assert(names[m] == actual.tables[m].0);
    m
}

proof fn lemma_single_adds(
    desired: Seq<ColumnModel>,
    actual: Seq<ColumnModel>,
    add: Seq<ColumnModel>,
    drop: Seq<Text>,
    n: int,
    c: ColumnModel,
)
    requires
        0 <= n <= add.len(),
        single_adds(desired, actual, add, drop, n).contains(c),
    ensures
        add.contains(c),
    decreases n,
{
    if n > 0 {
        let before = single_adds(desired, actual, add, drop, n - 1);
        let now = single_adds(desired, actual, add, drop, n);
        let m = choose|m: int| 0 <= m < now.len() && now[m] == c;
        if m < before.len() {
            assert(before[m] == c);
            lemma_single_adds(desired, actual, add, drop, n - 1, c);
        } else {
            assert(add[n - 1] == c);
        }
    }
}

/// A column that is left to add is a visible wanted one that the table lacks.
proof fn lemma_left_to_add(
    table: Text,
    desired: TableModel,
    actual: TableModel,
    hints: Seq<HintModel>,
    c: ColumnModel,
) -> (j: int)
    requires
        table_renames(table, desired, actual, hints).add.contains(c),
    ensures
        0 <= j < desired.columns.len(),
        desired.columns[j] == c,
        !c.is_hidden,
        !is_column(actual.columns, c.name),
{
    let add = fresh_columns(desired.columns, actual.columns);
    let drop = column_names(lost_columns(desired.columns, actual.columns));
    let pairs = hinted_pairs(table, desired.columns, actual.columns, add, drop, hints);
    let add1 = not_taken(add, pairs);
    let drop1 = after_removals(drop, pairs);
    lemma_single_adds(
        desired.columns,
        actual.columns,
        add1,
        drop1,
        add1.len() as int,
        c,
    );
    let a = choose|a: int| 0 <= a < add1.len() && add1[a] == c;
    lemma_not_taken(add, pairs, a);
    let k = choose|k: int| 0 <= k < add.len() && add[k] == c;
    lemma_lost(actual.columns, desired.columns, k);
    lemma_has_column(actual.columns, c.name);
    choose|j: int| 0 <= j < desired.columns.len() && desired.columns[j] == c
}

/// Every column that is added is a visible wanted one that the table lacks, and one that
/// can be added in place.
pub proof fn lemma_added_column_is_wanted(
    desired: SnapshotModel,
    actual: SnapshotModel,
    hints: Seq<HintModel>,
    x: (Text, ColumnModel),
) -> (r: (int, int, int))
    requires
        difference(desired, actual, hints).columns_to_add.contains(x),
    ensures
        ({
            let (i, m, j) = r;
            &&& is_match(desired, actual, i, m)
            &&& desired.tables[i].0 == x.0
            &&& 0 <= j < desired.tables[i].1.columns.len()
            &&& desired.tables[i].1.columns[j] == x.1
            &&& !x.1.is_hidden
            &&& !is_column(actual.tables[m].1.columns, x.1.name)
            &&& !cannot_be_added(x.1)
        }),
{
    let i = lemma_add_source(desired, actual, hints, x);
    lemma_added_columns_addable(desired, actual, hints, x);
    let e = desired.tables[i];
    assert(lookup(actual.tables, e.0) is Some);
    let m = lemma_found_table(desired, actual, i);
    let j = lemma_left_to_add(e.0, e.1, actual.tables[m].1, hints, x.1);
    (i, m, j)
}

/// Whether a visible wanted column is in the table and different there: in its type, its
/// nullability, its default, its place in the primary key, its collation, or in being
/// generated.
pub open spec fn column_changed(wanted: ColumnModel, there: ColumnModel) -> bool {
    ||| lower(wanted.col_type) != lower(there.col_type)
    ||| wanted.notnull != there.notnull
    ||| defaults_differ(wanted.default_value, there.default_value)
    ||| wanted.pk != there.pk
    ||| wanted.collation != there.collation
    ||| wanted.is_generated != there.is_generated
}

/// Whether a table has a reason to be rebuilt: other CHECK constraints, a column that is
/// different, a column to come that cannot be added, or one to go that cannot be dropped.
pub open spec fn must_be_rebuilt(desired: TableModel, actual: TableModel, s: SnapshotModel) -> bool {
    ||| desired.check_constraints != actual.check_constraints
    ||| exists|j: int, k: int|
        0 <= j < desired.columns.len() && is_first_column(
            actual.columns,
            (#[trigger] desired.columns[j]).name,
            k,
        ) && !desired.columns[j].is_hidden && column_changed(
            desired.columns[j],
            #[trigger] actual.columns[k],
        )
    ||| exists|j: int|
        0 <= j < desired.columns.len() && !(#[trigger] desired.columns[j]).is_hidden && !is_column(
            actual.columns,
            desired.columns[j].name,
        ) && cannot_be_added(desired.columns[j])
    ||| exists|k: int|
        0 <= k < actual.columns.len() && !(#[trigger] actual.columns[k]).is_hidden && !is_column(
            desired.columns,
            actual.columns[k].name,
        ) && cannot_be_dropped(actual.columns[k], actual, s)
}

/// No table is rebuilt without a reason.
pub proof fn lemma_rebuild_has_a_reason(
    desired: SnapshotModel,
    actual: SnapshotModel,
    hints: Seq<HintModel>,
    n: Text,
) -> (r: (int, int))
    requires
        difference(desired, actual, hints).tables_to_rebuild.contains(n),
    ensures
        is_match(desired, actual, r.0, r.1),
        desired.tables[r.0].0 == n,
        must_be_rebuilt(desired.tables[r.0].1, actual.tables[r.1].1, actual),
{
    let i = lemma_rebuild_source(desired, actual, hints, n);
    let e = desired.tables[i];
    assert(lookup(actual.tables, e.0) is Some);
    let m = lemma_found_table(desired, actual, i);
    let there = actual.tables[m].1;
    let r = table_renames(e.0, e.1, there, hints);
    let lost = lost_columns(e.1.columns, there.columns);
    if table_altered(e.1, there) {
        if e.1.check_constraints == there.check_constraints {
            let j = choose|j: int|
                0 <= j < e.1.columns.len() && column_altered(
                    #[trigger] e.1.columns[j],
                    there.columns,
                );
            let c = e.1.columns[j];
            let names = column_names(there.columns);
            lemma_name_index(names, c.name);
            let k = name_index(names, c.name)->0;
            assert forall|q: int| 0 <= q < k implies lower((#[trigger] there.columns[q]).name)
                != lower(c.name) by {
                assert(!same_name(names[q], c.name));
            }
            assert(lower(names[k]) == lower(c.name));
            assert(is_first_column(there.columns, c.name, k));
            assert(column_changed(c, there.columns[k]));
        }
    } else if exists|q: int| 0 <= q < r.add.len() && !addable(#[trigger] r.add[q]) {
        let q = choose|q: int| 0 <= q < r.add.len() && !addable(#[trigger] r.add[q]);
        assert(r.add.contains(r.add[q]));
        let j = lemma_left_to_add(e.0, e.1, there, hints, r.add[q]);
        assert(cannot_be_added(e.1.columns[j]));
    } else {
        let q = choose|q: int|
            0 <= q < r.drop.len() && stuck(#[trigger] r.drop[q], lost, there, actual);
        let names = column_names(lost);
        lemma_name_index(names, r.drop[q]);
        let a = name_index(names, r.drop[q])->0;
        lemma_lost(e.1.columns, there.columns, a);
        lemma_has_column(e.1.columns, lost[a].name);
        let k = choose|k: int| 0 <= k < there.columns.len() && there.columns[k] == lost[a];
        lemma_droppable(lost[a], there, actual);
        assert(cannot_be_dropped(there.columns[k], there, actual));
    }
    (i, m)
}

// ---------------------------------------------------------------------------
// Places
// ---------------------------------------------------------------------------

/// How many of the first `k` columns are visible: the place of the column `k` among the
/// visible ones.
pub open spec fn visible_before(columns: Seq<ColumnModel>, k: int) -> int
    decreases k,
{
    if k <= 0 {
        0
    } else if columns[k - 1].is_hidden {
        visible_before(columns, k - 1)
    } else {
        visible_before(columns, k - 1) + 1
    }
}

proof fn lemma_visible_count(columns: Seq<ColumnModel>, k: int)
    requires
        0 <= k <= columns.len(),
    ensures
        visible(columns.take(k)).len() == visible_before(columns, k),
    decreases k,
{
    if k > 0 {
        lemma_visible_count(columns, k - 1);
        lemma_gather_step(columns, k - 1, if_visible());
    }
}

/// The place of the first column of a name, where that one is visible.
proof fn lemma_place(columns: Seq<ColumnModel>, name: Text, k: int)
    requires
        is_first_column(columns, name, k),
        !columns[k].is_hidden,
    ensures
        column_place(columns, name) == Some(visible_before(columns, k)),
{
    let all = visible(columns);
    let names = column_names(all);
    let front = visible(columns.take(k));
    let upto = visible(columns.take(k + 1));
    lemma_visible_count(columns, k);
    lemma_gather_step(columns, k, if_visible());
    lemma_visible_prefix(columns, k + 1);
    let p = visible_before(columns, k);
    assert(upto == front + seq![columns[k]]);
    assert(upto[p] == columns[k]);
    assert(all[p] == columns[k]);
    assert forall|j: int| 0 <= j < p implies !same_name(#[trigger] names[j], name) by {
        assert(upto[j] == front[j]);
        assert(all[j] == upto[j]);
        let c = front[j];
        assert(front.contains(c));
        lemma_gather_contains(columns.take(k), if_visible(), c);
        let q = choose|q: int|
            0 <= q < columns.take(k).len() && if_visible()(#[trigger] columns.take(k)[q]).contains(c);
        assert(columns[q] == c);
        assert(lower(columns[q].name) != lower(name));
    }
    lemma_name_index_is(names, name, p);
}

/// Where a column of a name is visible and has a place, the first one that is visible has
/// that place.
proof fn lemma_placed(columns: Seq<ColumnModel>, name: Text) -> (k: int)
    requires
        column_place(columns, name) is Some,
    ensures
        0 <= k < columns.len(),
        lower(columns[k].name) == lower(name),
        !columns[k].is_hidden,
        column_place(columns, name) == Some(visible_before(columns, k)),
{
    let all = visible(columns);
    let names = column_names(all);
    lemma_name_index(names, name);
    let p = name_index(names, name)->0;
    assert(columns.take(columns.len() as int) =~= columns);
    lemma_nth_visible(columns, columns.len() as int, p)
}

proof fn lemma_nth_visible(columns: Seq<ColumnModel>, n: int, p: int) -> (k: int)
    requires
        0 <= n <= columns.len(),
        0 <= p < visible(columns.take(n)).len(),
    ensures
        0 <= k < n,
        !columns[k].is_hidden,
        columns[k] == visible(columns)[p],
        visible_before(columns, k) == p,
    decreases n,
{
    lemma_visible_count(columns, n);
    lemma_visible_prefix(columns, n);
    let d = visible(columns.take(n - 1));
    lemma_gather_step(columns, n - 1, if_visible());
    lemma_visible_count(columns, n - 1);
    if p < d.len() {
        lemma_nth_visible(columns, n - 1, p)
    } else {
        assert(visible(columns.take(n))[p] == columns[n - 1]);
        n - 1
    }
}

// ---------------------------------------------------------------------------
// Renames
// ---------------------------------------------------------------------------

/// Whether a hint asks for the rename.
pub open spec fn is_hinted(hints: Seq<HintModel>, x: (Text, Text, Text)) -> bool {
    exists|h: int|
        0 <= h < hints.len() && lower((#[trigger] hints[h]).table) == lower(x.0) && lower(
            hints[h].from,
        ) == lower(x.1) && lower(hints[h].to) == lower(x.2)
}

/// Whether the two tables have visible columns of the names at the same place.
pub open spec fn at_one_place(
    actual: Seq<ColumnModel>,
    desired: Seq<ColumnModel>,
    from: Text,
    to: Text,
) -> bool {
    exists|k: int, j: int|
        0 <= k < actual.len() && 0 <= j < desired.len() && lower((#[trigger] actual[k]).name)
            == lower(from) && lower((#[trigger] desired[j]).name) == lower(to)
            && !actual[k].is_hidden && !desired[j].is_hidden && visible_before(actual, k)
            == visible_before(desired, j)
}

/// A column is renamed where a hint asks for it, or where the new column stands at the
/// place of the old one; and nowhere else.
pub proof fn lemma_rename_has_a_reason(
    desired: SnapshotModel,
    actual: SnapshotModel,
    hints: Seq<HintModel>,
    x: (Text, Text, Text),
) -> (r: (int, int))
    requires
        difference(desired, actual, hints).columns_to_rename.contains(x),
    ensures
        is_match(desired, actual, r.0, r.1),
        desired.tables[r.0].0 == x.0,
        is_hinted(hints, x) || at_one_place(
            actual.tables[r.1].1.columns,
            desired.tables[r.0].1.columns,
            x.1,
            x.2,
        ),
{
    let i = lemma_rename_source(desired, actual, hints, x);
    let e = desired.tables[i];
    assert(lookup(actual.tables, e.0) is Some);
    let m = lemma_found_table(desired, actual, i);
    let de = e.1.columns;
    let ac = actual.tables[m].1.columns;
    let add = fresh_columns(de, ac);
    let drop = column_names(lost_columns(de, ac));
    let all = gather(hints, hinted(e.0, de, ac, add, drop));
    let pairs = hinted_pairs(e.0, de, ac, add, drop, hints);
    let add1 = not_taken(add, pairs);
    let drop1 = after_removals(drop, pairs);
    let first = pair_names(pairs);
    let second = place_renames(de, ac, add1, drop1, drop1.len() as int);
    let y = (x.1, x.2);
    let q = choose|q: int| 0 <= q < (first + second).len() && (first + second)[q] == y;
    if q < first.len() {
        assert(pairs.contains(pairs[q]));
        lemma_same_pairs(all, pairs[q]);
        let h = lemma_pair_of_hint(e.0, de, ac, add, drop, hints, pairs[q]);
        assert(lower(hints[h].table) == lower(x.0));
    } else {
        assert(second[q - first.len()] == y);
        let (j, a) = lemma_place_rename_source(de, ac, add1, drop1, drop1.len() as int, y);
        let names = column_names(ac);
        lemma_name_index(names, drop1[j]);
        let k = name_index(names, drop1[j])->0;
        assert forall|p: int| 0 <= p < k implies lower((#[trigger] ac[p]).name) != lower(
            ac[k].name,
        ) by {
            assert(!same_name(names[p], drop1[j]));
        }
        assert(is_first_column(ac, ac[k].name, k));
        lemma_place(ac, ac[k].name, k);
        let n = lemma_placed(de, add1[a].name);
        assert(lower(names[k]) == lower(drop1[j]));
        assert(lower(ac[k].name) == lower(x.1) && lower(de[n].name) == lower(x.2));
    }
    (i, m)
}

proof fn lemma_place_rename_source(
    desired: Seq<ColumnModel>,
    actual: Seq<ColumnModel>,
    add: Seq<ColumnModel>,
    drop: Seq<Text>,
    n: int,
    y: (Text, Text),
) -> (r: (int, int))
    requires
        0 <= n <= drop.len(),
        place_renames(desired, actual, add, drop, n).contains(y),
    ensures
        candidate(desired, actual, add, drop, r.0, r.1),
        y == (drop[r.0], add[r.1].name),
    decreases n,
{
    let now = place_renames(desired, actual, add, drop, n);
    let q = choose|q: int| 0 <= q < now.len() && now[q] == y;
    let before = place_renames(desired, actual, add, drop, n - 1);
    if q < before.len() {
        assert(before[q] == y);
        lemma_place_rename_source(desired, actual, add, drop, n - 1, y)
    } else {
        let a = partner(desired, actual, add, drop, n - 1);
        assert(paired(desired, actual, add, drop, n - 1, a));
        (n - 1, a)
    }
}

/// Whether two columns are alike in everything but the name, and neither is generated or
/// hidden.
pub open spec fn alike_but_for_the_name(a: ColumnModel, b: ColumnModel) -> bool {
    &&& lower(a.col_type) == lower(b.col_type)
    &&& a.notnull == b.notnull
    &&& a.pk == b.pk
    &&& a.collation == b.collation
    &&& !defaults_differ(a.default_value, b.default_value)
    &&& !a.is_generated && !b.is_generated
    &&& !a.is_hidden && !b.is_hidden
}

/// Whether no two columns have the same name, up to ASCII case.
pub open spec fn names_differ(columns: Seq<ColumnModel>) -> bool {
    forall|i: int, j: int|
        0 <= i < j < columns.len() ==> lower((#[trigger] columns[i]).name) != lower(
            (#[trigger] columns[j]).name,
        )
}

/// A hint is followed: where it names a column that is not wanted and a wanted one that is
/// not there, alike but for the name, the column is renamed, unless the table is rebuilt.
pub proof fn lemma_hint_is_followed(
    desired: SnapshotModel,
    actual: SnapshotModel,
    hints: Seq<HintModel>,
    i: int,
    m: int,
    h: int,
    k: int,
    j: int,
)
    requires
        actual.sorted(),
        is_match(desired, actual, i, m),
        0 <= h < hints.len(),
        lower(hints[h].table) == lower(desired.tables[i].0),
        0 <= k < actual.tables[m].1.columns.len(),
        lower(actual.tables[m].1.columns[k].name) == lower(hints[h].from),
        !is_column(desired.tables[i].1.columns, hints[h].from),
        0 <= j < desired.tables[i].1.columns.len(),
        lower(desired.tables[i].1.columns[j].name) == lower(hints[h].to),
        !is_column(actual.tables[m].1.columns, hints[h].to),
        names_differ(actual.tables[m].1.columns),
        names_differ(desired.tables[i].1.columns),
        alike_but_for_the_name(
            actual.tables[m].1.columns[k],
            desired.tables[i].1.columns[j],
        ),
    ensures
        ({
            let d = difference(desired, actual, hints);
            let t = desired.tables[i].0;
            ||| d.tables_to_rebuild.contains(t)
            ||| d.columns_to_rename.contains(
                (
                    t,
                    actual.tables[m].1.columns[k].name,
                    desired.tables[i].1.columns[j].name,
                ),
            )
        }),
{
    let e = desired.tables[i];
    let t = e.0;
    let de = e.1.columns;
    let ac = actual.tables[m].1.columns;
    let hint = hints[h];
    lemma_matched_table(desired, actual, i, m);
    let change = entry_change(e, actual, hints);
    if change.rebuild {
        lemma_rebuild_listed(desired, actual, hints, i);
    } else {
        let add = fresh_columns(de, ac);
        let lost = lost_columns(de, ac);
        let drop = column_names(lost);
        let f = hinted(t, de, ac, add, drop);
        let all = gather(hints, f);
        let pairs = hinted_pairs(t, de, ac, add, drop, hints);
        lemma_same_column(de, ac[k].name, hint.from);
        lemma_same_column(ac, de[j].name, hint.to);
        lemma_fresh(de, ac, j);
        lemma_fresh(ac, de, k);
        let a = lemma_found_among(ac, de, j, hint.to);
        let d = lemma_found_among(de, ac, k, hint.from);
        assert(drop[d] == ac[k].name);
        assert(add[a] == de[j]);
        lemma_first_column(ac, ac[k].name, k);
        lemma_first_column(de, de[j].name, j);
        assert(renamable(ac[k], de[j]));
        let p = PairModel { drop_at: d, add_at: a, from: ac[k].name, to: de[j].name };
        assert(f(hints[h]) == seq![p]);
        assert(f(hints[h])[0] == p);
        lemma_gather_contains(hints, f, p);
        lemma_same_pairs(all, p);
        let q = choose|q: int| 0 <= q < pairs.len() && pairs[q] == p;
        let x = (ac[k].name, de[j].name);
        assert(pair_names(pairs)[q] == x);
        assert(change.renamed[q] == x);
        lemma_rename_listed(desired, actual, hints, i, x);
    }
}

proof fn lemma_same_column(columns: Seq<ColumnModel>, a: Text, b: Text)
    requires
        lower(a) == lower(b),
    ensures
        is_column(columns, a) == is_column(columns, b),
{
    if is_column(columns, a) {
        let k = choose|k: int| 0 <= k < columns.len() && lower((#[trigger] columns[k]).name) == lower(a);
        assert(lower(columns[k].name) == lower(b));
    }
    if is_column(columns, b) {
        let k = choose|k: int| 0 <= k < columns.len() && lower((#[trigger] columns[k]).name) == lower(b);
        assert(lower(columns[k].name) == lower(a));
    }
}

/// A column that the other table lacks is found by its name among those that it lacks.
proof fn lemma_found_among(
    other: Seq<ColumnModel>,
    columns: Seq<ColumnModel>,
    k: int,
    name: Text,
) -> (a: int)
    requires
        0 <= k < columns.len(),
        !columns[k].is_hidden,
        !is_column(other, columns[k].name),
        lower(columns[k].name) == lower(name),
        names_differ(columns),
    ensures
        name_index(column_names(lost_columns(other, columns)), name) == Some(a),
        0 <= a < lost_columns(other, columns).len(),
        lost_columns(other, columns)[a] == columns[k],
{
    let lost = lost_columns(other, columns);
    let names = column_names(lost);
    lemma_fresh(columns, other, k);
    let q = choose|q: int| 0 <= q < lost.len() && lost[q] == columns[k];
    assert(same_name(names[q], name));
    lemma_name_index(names, name);
    let a = name_index(names, name)->0;
    lemma_lost(other, columns, a);
    let n = choose|n: int| 0 <= n < columns.len() && columns[n] == lost[a];
    assert(lower(names[a]) == lower(name));
    assert(n == k);
    a
}

/// Without hints, a column that is not wanted gets the name of a wanted one that is not
/// there and stands at its place, where the two are alike but for the name, unless the
/// table is rebuilt.
pub proof fn lemma_rename_by_place(
    desired: SnapshotModel,
    actual: SnapshotModel,
    i: int,
    m: int,
    k: int,
    j: int,
)
    requires
        actual.sorted(),
        is_match(desired, actual, i, m),
        0 <= k < actual.tables[m].1.columns.len(),
        !is_column(desired.tables[i].1.columns, actual.tables[m].1.columns[k].name),
        0 <= j < desired.tables[i].1.columns.len(),
        !is_column(actual.tables[m].1.columns, desired.tables[i].1.columns[j].name),
        names_differ(actual.tables[m].1.columns),
        names_differ(desired.tables[i].1.columns),
        alike_but_for_the_name(
            actual.tables[m].1.columns[k],
            desired.tables[i].1.columns[j],
        ),
        visible_before(actual.tables[m].1.columns, k) == visible_before(
            desired.tables[i].1.columns,
            j,
        ),
    ensures
        ({
            let d = difference(desired, actual, Seq::empty());
            let t = desired.tables[i].0;
            ||| d.tables_to_rebuild.contains(t)
            ||| d.columns_to_rename.contains(
                (
                    t,
                    actual.tables[m].1.columns[k].name,
                    desired.tables[i].1.columns[j].name,
                ),
            )
        }),
{
    let hints = Seq::<HintModel>::empty();
    let e = desired.tables[i];
    let t = e.0;
    let de = e.1.columns;
    let ac = actual.tables[m].1.columns;
    lemma_matched_table(desired, actual, i, m);
    let change = entry_change(e, actual, hints);
    if change.rebuild {
        lemma_rebuild_listed(desired, actual, hints, i);
    } else {
        let add = fresh_columns(de, ac);
        let lost = lost_columns(de, ac);
        let drop = column_names(lost);
        let pairs = hinted_pairs(t, de, ac, add, drop, hints);
        assert(gather(hints, hinted(t, de, ac, add, drop)) =~= Seq::<PairModel>::empty());
        assert(pairs =~= Seq::<PairModel>::empty());
        lemma_nothing_taken(add, pairs);
        let a = lemma_found_among(ac, de, j, de[j].name);
        let d = lemma_found_among(de, ac, k, ac[k].name);
        assert(drop[d] == ac[k].name);
        assert(is_first_column(ac, ac[k].name, k));
        assert(is_first_column(de, de[j].name, j));
        lemma_first_column(ac, ac[k].name, k);
        lemma_place(ac, ac[k].name, k);
        lemma_place(de, de[j].name, j);
        assert(candidate(de, ac, add, drop, d, a));
        assert forall|b: int| #[trigger] candidate(de, ac, add, drop, d, b) implies b == a by {
            lemma_lost(ac, de, b);
            let n = choose|n: int| 0 <= n < de.len() && de[n] == add[b];
            assert(is_first_column(de, de[n].name, n));
            lemma_place(de, de[n].name, n);
            lemma_places_differ(de, n, j);
            lemma_twice_among(ac, de, a, b);
        }
        assert(only_candidate(de, ac, add, drop, d, a));
        assert forall|c: int| #[trigger] only_candidate(de, ac, add, drop, c, a) implies c == d by {
            assert(candidate(de, ac, add, drop, c, a));
            lemma_lost(de, ac, c);
            let n = choose|n: int| 0 <= n < ac.len() && ac[n] == lost[c];
            assert(drop[c] == ac[n].name);
            assert(is_first_column(ac, ac[n].name, n));
            lemma_first_column(ac, ac[n].name, n);
            lemma_place(ac, ac[n].name, n);
            lemma_places_differ(ac, n, k);
            lemma_twice_among(de, ac, c, d);
        }
        assert(paired(de, ac, add, drop, d, a));
        lemma_in_place_renames(de, ac, add, drop, drop.len() as int, d, a);
        let second = place_renames(de, ac, add, drop, drop.len() as int);
        let x = (ac[k].name, de[j].name);
        assert(pair_names(pairs) =~= Seq::<(Text, Text)>::empty());
        assert(Seq::<(Text, Text)>::empty() + second =~= second);
        assert(change.renamed == second);
        lemma_rename_listed(desired, actual, hints, i, x);
    }
}

proof fn lemma_nothing_taken(add: Seq<ColumnModel>, pairs: Seq<PairModel>)
    requires
        pairs.len() == 0,
    ensures
        not_taken(add, pairs) == add,
    decreases add.len(),
{
    if add.len() > 0 {
        lemma_nothing_taken(add.drop_last(), pairs);
        assert(add.drop_last().push(add.last()) =~= add);
    }
}

proof fn lemma_visible_grows(columns: Seq<ColumnModel>, a: int, b: int)
    requires
        0 <= a < b <= columns.len(),
        !columns[a].is_hidden,
    ensures
        visible_before(columns, a) < visible_before(columns, b),
    decreases b - a,
{
    if a + 1 < b {
        lemma_visible_grows(columns, a, b - 1);
    }
}

/// Visible columns at the same place are the same column.
proof fn lemma_places_differ(columns: Seq<ColumnModel>, a: int, b: int)
    requires
        0 <= a < columns.len(),
        0 <= b < columns.len(),
        !columns[a].is_hidden,
        !columns[b].is_hidden,
        visible_before(columns, a) == visible_before(columns, b),
    ensures
        a == b,
{
    if a < b {
        lemma_visible_grows(columns, a, b);
    }
    if b < a {
        lemma_visible_grows(columns, b, a);
    }
}

/// A column is not twice among those that the other table lacks.
proof fn lemma_twice_among(other: Seq<ColumnModel>, columns: Seq<ColumnModel>, a: int, b: int)
    requires
        names_differ(columns),
        0 <= a < lost_columns(other, columns).len(),
        0 <= b < lost_columns(other, columns).len(),
        lost_columns(other, columns)[a] == lost_columns(other, columns)[b],
    ensures
        a == b,
{
    let f = crate::diff::lost_from(other);
    let lost = lost_columns(other, columns);
    let at = lemma_gathered_at(columns, f);
    assert(f(columns[at[a]])[0] == lost[a]);
    assert(f(columns[at[b]])[0] == lost[b]);
    assert(columns[at[a]] == lost[a]);
    assert(columns[at[b]] == lost[b]);
    if a < b {
        assert(at[a] < at[b]);
    }
    if b < a {
        assert(at[b] < at[a]);
    }
}

// ---------------------------------------------------------------------------
// The order of new columns
// ---------------------------------------------------------------------------

proof fn lemma_single_adds_places(
    desired: Seq<ColumnModel>,
    actual: Seq<ColumnModel>,
    add: Seq<ColumnModel>,
    drop: Seq<Text>,
    n: int,
) -> (at: Seq<int>)
    requires
        0 <= n <= add.len(),
    ensures
        positions(at, n),
        single_adds(desired, actual, add, drop, n) == Seq::new(at.len(), |i: int| add[at[i]]),
    decreases n,
{
    if n == 0 {
        let at = Seq::<int>::empty();
        assert(single_adds(desired, actual, add, drop, n) =~= Seq::new(
            at.len(),
            |i: int| add[at[i]],
        ));
        at
    } else {
        let before = lemma_single_adds_places(desired, actual, add, drop, n - 1);
        let at = if crate::rename::is_partner(desired, actual, add, drop, n - 1) {
            before
        } else {
            before.push(n - 1)
        };
        lemma_one_more_place(before, at, n - 1);
        assert(single_adds(desired, actual, add, drop, n) =~= Seq::new(
            at.len(),
            |i: int| add[at[i]],
        ));
        at
    }
}

proof fn lemma_one_more_place(before: Seq<int>, at: Seq<int>, n: int)
    requires
        positions(before, n),
        n >= 0,
        at == before || at == before.push(n),
    ensures
        positions(at, n + 1),
        forall|i: int| 0 <= i < before.len() ==> #[trigger] at[i] == before[i],
{
    assert forall|i: int| 0 <= i < at.len() implies 0 <= #[trigger] at[i] < n + 1 by {
        if i < before.len() {
            assert(at[i] == before[i]);
        }
    }
    assert forall|i: int, j: int| 0 <= i < j < at.len() implies #[trigger] at[i]
        < #[trigger] at[j] by {
        assert(at[i] == before[i]);
        if j < before.len() {
            assert(at[j] == before[j]);
        }
    }
}

proof fn lemma_not_taken_places(add: Seq<ColumnModel>, pairs: Seq<PairModel>) -> (at: Seq<int>)
    ensures
        positions(at, add.len() as int),
        not_taken(add, pairs) == Seq::new(at.len(), |i: int| add[at[i]]),
    decreases add.len(),
{
    if add.len() == 0 {
        let at = Seq::<int>::empty();
        assert(not_taken(add, pairs) =~= Seq::new(at.len(), |i: int| add[at[i]]));
        at
    } else {
        let d = add.drop_last();
        let n = d.len() as int;
        let before = lemma_not_taken_places(d, pairs);
        let at = if taken(pairs, n) {
            before
        } else {
            before.push(n)
        };
        lemma_one_more_place(before, at, n);
        assert forall|i: int| 0 <= i < before.len() implies d[#[trigger] before[i]]
            == add[before[i]] by {}
        assert(not_taken(add, pairs) =~= Seq::new(at.len(), |i: int| add[at[i]]));
        at
    }
}

/// The columns that are added to a table stand in the order of the wanted table.
proof fn lemma_entry_adds_places(
    e: (Text, TableModel),
    actual: SnapshotModel,
    hints: Seq<HintModel>,
) -> (at: Seq<int>)
    ensures
        positions(at, e.1.columns.len() as int),
        entry_change(e, actual, hints).add == Seq::new(at.len(), |i: int| e.1.columns[at[i]]),
{
    let change = entry_change(e, actual, hints);
    let empty = Seq::<int>::empty();
    if change.rebuild || lookup(actual.tables, e.0) is None {
        assert(change.add =~= Seq::new(empty.len(), |i: int| e.1.columns[empty[i]]));
        empty
    } else {
        let de = e.1.columns;
        let ac = lookup(actual.tables, e.0)->0.columns;
        let add = fresh_columns(de, ac);
        let drop = column_names(lost_columns(de, ac));
        let pairs = hinted_pairs(e.0, de, ac, add, drop, hints);
        let add1 = not_taken(add, pairs);
        let drop1 = after_removals(drop, pairs);
        let f = crate::diff::lost_from(ac);
        let x = lemma_gathered_at(de, f);
        let y = lemma_not_taken_places(add, pairs);
        let z = lemma_single_adds_places(de, ac, add1, drop1, add1.len() as int);
        let at = Seq::new(z.len(), |i: int| x[y[z[i]]]);
        assert forall|i: int| 0 <= i < x.len() implies de[#[trigger] x[i]] == add[i] by {
            assert(f(de[x[i]])[0] == add[i]);
        }
        assert forall|i: int| 0 <= i < at.len() implies 0 <= #[trigger] at[i] < de.len()
            && change.add[i] == de[at[i]] by {
            assert(0 <= z[i] < add1.len());
            assert(0 <= y[z[i]] < add.len());
            assert(0 <= x[y[z[i]]] < de.len());
            assert(add1[z[i]] == add[y[z[i]]]);
            assert(de[x[y[z[i]]]] == add[y[z[i]]]);
        }
        assert forall|i: int, j: int| 0 <= i < j < at.len() implies #[trigger] at[i]
            < #[trigger] at[j] by {
            assert(z[i] < z[j]);
            assert(0 <= z[i] && z[j] < add1.len());
            assert(y[z[i]] < y[z[j]]);
            assert(0 <= y[z[i]] && y[z[j]] < add.len());
            assert(x[y[z[i]]] < x[y[z[j]]]);
        }
        assert(change.add =~= Seq::new(at.len(), |i: int| de[at[i]]));
        at
    }
}

/// Whether one place comes before another: the table before the other one, or in the same
/// table the column before the other one.
pub open spec fn comes_before(a: (int, int), b: (int, int)) -> bool {
    a.0 < b.0 || a.0 == b.0 && a.1 < b.1
}

/// New columns are added in the order of the wanted schema: table by table, and in each
/// table column by column.
pub proof fn lemma_columns_added_in_order(
    desired: SnapshotModel,
    actual: SnapshotModel,
    hints: Seq<HintModel>,
) -> (at: Seq<(int, int)>)
    ensures
        at.len() == difference(desired, actual, hints).columns_to_add.len(),
        forall|i: int|
            0 <= i < at.len() ==> 0 <= (#[trigger] at[i]).0 < desired.tables.len() && 0 <= at[i].1
                < desired.tables[at[i].0].1.columns.len() && difference(
                desired,
                actual,
                hints,
            ).columns_to_add[i] == (
                desired.tables[at[i].0].0,
                desired.tables[at[i].0].1.columns[at[i].1],
            ),
        forall|i: int, j: int|
            0 <= i < j < at.len() ==> comes_before(#[trigger] at[i], #[trigger] at[j]),
{
    let n = desired.tables.len() as int;
    assert(desired.tables.take(n) =~= desired.tables);
    lemma_adds_upto(desired, actual, hints, n)
}

proof fn lemma_adds_upto(
    desired: SnapshotModel,
    actual: SnapshotModel,
    hints: Seq<HintModel>,
    n: int,
) -> (at: Seq<(int, int)>)
    requires
        0 <= n <= desired.tables.len(),
    ensures
        ({
            let list = gather(desired.tables.take(n), crate::diff::adds_of(actual, hints));
            &&& at.len() == list.len()
            &&& forall|i: int|
                0 <= i < at.len() ==> 0 <= (#[trigger] at[i]).0 < n && 0 <= at[i].1
                    < desired.tables[at[i].0].1.columns.len() && list[i] == (
                    desired.tables[at[i].0].0,
                    desired.tables[at[i].0].1.columns[at[i].1],
                )
            &&& forall|i: int, j: int|
                0 <= i < j < at.len() ==> comes_before(#[trigger] at[i], #[trigger] at[j])
        }),
    decreases n,
{
    let f = crate::diff::adds_of(actual, hints);
    let list = gather(desired.tables.take(n), f);
    if n == 0 {
        assert(desired.tables.take(0) =~= Seq::empty());
        Seq::empty()
    } else {
        let before = lemma_adds_upto(desired, actual, hints, n - 1);
        let first = gather(desired.tables.take(n - 1), f);
        let e = desired.tables[n - 1];
        lemma_gather_step(desired.tables, n - 1, f);
        let places = lemma_entry_adds_places(e, actual, hints);
        let add = entry_change(e, actual, hints).add;
        let at = before + Seq::new(places.len(), |i: int| (n - 1, places[i]));
        assert forall|i: int| 0 <= i < at.len() implies 0 <= (#[trigger] at[i]).0 < n && 0
            <= at[i].1 < desired.tables[at[i].0].1.columns.len() && list[i] == (
            desired.tables[at[i].0].0,
            desired.tables[at[i].0].1.columns[at[i].1],
        ) by {
            if i < before.len() {
                assert(at[i] == before[i]);
                assert(list[i] == first[i]);
            } else {
                let k = i - before.len();
                assert(at[i] == (n - 1, places[k]));
                assert(list[i] == f(e)[k]);
                assert(f(e)[k] == (e.0, add[k]));
            }
        }
        assert forall|i: int, j: int| 0 <= i < j < at.len() implies comes_before(
            #[trigger] at[i],
            #[trigger] at[j],
        ) by {
            if j < before.len() {
                assert(at[i] == before[i] && at[j] == before[j]);
            } else {
                let k = j - before.len();
                assert(at[j] == (n - 1, places[k]));
                if i < before.len() {
                    assert(at[i] == before[i]);
                } else {
                    let q = i - before.len();
                    assert(at[i] == (n - 1, places[q]));
                    assert(places[q] < places[k]);
                }
            }
        }
        at
    }
}

} // verus!
