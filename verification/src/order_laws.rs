//! The order of new tables and views, the lists at the head of a plan, and when no plan is
//! made.

use vstd::prelude::*;

#[allow(unused_imports)]
use crate::change_laws::{is_column, lemma_has_column};
#[allow(unused_imports)]
use crate::diff::DiffModel;
#[allow(unused_imports)]
use crate::error::ErrorModel;
#[allow(unused_imports)]
use crate::lists::{
    gather, increasing, lemma_gather_contains, lemma_name_index, lemma_sorted_set, name_index,
    sorted_set,
};
#[allow(unused_imports)]
use crate::migrator::{planned, spared};
#[allow(unused_imports)]
use crate::object_laws::{has_entry, lemma_has_entry};
#[allow(unused_imports)]
use crate::order::{
    all_wait, arranged, behind_needs, depends, held_back, item_names, mentions, needs_item, staged,
    waits, ItemModel, NamedModel,
};
#[allow(unused_imports)]
use crate::plan::{
    first_parts, first_refusal, first_unfilled, if_in, new_table_item, new_table_items,
    ordered_tables, ordered_views, plan_of, rebuild_refusal, renamed_in, unfilled, view_item,
    view_items, with_indexes, with_views,
};
#[allow(unused_imports)]
use crate::plan_laws::{lemma_new_tables_in_order, lemma_views_in_order};
#[allow(unused_imports)]
use crate::schema::{
    fk_targets, keys, lemma_distinct, lookup, lower_keys, sorted_keys, view_texts, ColumnModel,
    SnapshotModel, ViewModel,
};
#[allow(unused_imports)]
use crate::search::has_word;
#[allow(unused_imports)]
use crate::statement_laws::{groups, is_named, lemma_in_both, lemma_is_named};
#[allow(unused_imports)]
use crate::text::{lower, same_name, Text};

verus! {

// ---------------------------------------------------------------------------
// New tables
// ---------------------------------------------------------------------------

/// Whether the wanted table of a name points to another one that is not there yet.
#[verifier::opaque]
pub open spec fn needs_new(desired: SnapshotModel, actual: SnapshotModel, a: Text, b: Text) -> bool {
    exists|k: int|
        0 <= k < desired.tables.len() && lower((#[trigger] desired.tables[k]).0) == lower(a)
            && exists|f: int|
            0 <= f < desired.tables[k].1.foreign_keys.len() && lower(
                (#[trigger] desired.tables[k].1.foreign_keys[f]).to_table,
            ) == lower(b) && !has_entry(
                actual.tables,
                desired.tables[k].1.foreign_keys[f].to_table,
            )
}

proof fn lemma_needs_new(desired: SnapshotModel, actual: SnapshotModel, a: Text, b: ItemModel)
    requires
        desired.sorted(),
    ensures
        needs_item(new_table_item(desired, actual, a), b) == needs_new(
            desired,
            actual,
            a,
            b.name,
        ),
{
    reveal(needs_new);
    let item = new_table_item(desired, actual, a);
    lemma_name_index(keys(desired.tables), a);
    lemma_is_named(item.needs, b.name);
    match lookup(desired.tables, a) {
        Some(t) => {
            let k = name_index(keys(desired.tables), a)->0;
            assert(keys(desired.tables)[k] == desired.tables[k].0);
            assert forall|q: int|
                0 <= q < desired.tables.len() && lower((#[trigger] desired.tables[q]).0) == lower(
                    a,
                ) implies q == k by {
                lemma_distinct(desired.tables, a, q);
            }
            let targets = fk_targets(t.foreign_keys);
            let set = sorted_set(targets);
            let f = if_in(keys(actual.tables), false);
            lemma_sorted_set(targets);
            if is_named(item.needs, b.name) {
                let i = choose|i: int|
                    0 <= i < item.needs.len() && lower(#[trigger] item.needs[i]) == lower(b.name);
                let x = item.needs[i];
                assert(item.needs.contains(x));
                lemma_gather_contains(set, f, x);
                let j = choose|j: int| 0 <= j < set.len() && f(#[trigger] set[j]).contains(x);
                assert(set[j] == x);
                assert(set.contains(x));
                assert(targets.contains(x));
                let q = choose|q: int| 0 <= q < targets.len() && targets[q] == x;
                lemma_has_entry(actual.tables, x);
                assert(lower(desired.tables[k].1.foreign_keys[q].to_table) == lower(b.name));
            }
            if needs_new(desired, actual, a, b.name) {
                let q = choose|q: int|
                    0 <= q < desired.tables[k].1.foreign_keys.len() && lower(
                        (#[trigger] desired.tables[k].1.foreign_keys[q]).to_table,
                    ) == lower(b.name) && !has_entry(
                        actual.tables,
                        desired.tables[k].1.foreign_keys[q].to_table,
                    );
                let x = targets[q];
                lemma_has_entry(actual.tables, x);
                assert(targets.contains(x));
                assert(set.contains(x));
                let j = choose|j: int| 0 <= j < set.len() && set[j] == x;
                assert(f(set[j])[0] == x);
                lemma_gather_contains(set, f, x);
                let i = choose|i: int| 0 <= i < item.needs.len() && item.needs[i] == x;
                assert(lower(item.needs[i]) == lower(b.name));
            }
        },
        None => {
            if needs_new(desired, actual, a, b.name) {
                let k = choose|k: int|
                    0 <= k < desired.tables.len() && lower((#[trigger] desired.tables[k]).0)
                        == lower(a);
                assert(same_name(keys(desired.tables)[k], a));
            }
        },
    }
}

/// Whether the table at `i` needs one at a place from `n` on.
pub open spec fn needs_behind(
    desired: SnapshotModel,
    actual: SnapshotModel,
    names: Seq<Text>,
    n: int,
    i: int,
) -> bool {
    exists|j: int|
        n <= j < names.len() && needs_new(desired, actual, names[i], #[trigger] names[j])
}

/// The items of new tables need what their tables need.
proof fn lemma_item_needs(
    to_create: Seq<Text>,
    desired: SnapshotModel,
    actual: SnapshotModel,
    i: int,
    j: int,
)
    requires
        desired.sorted(),
        0 <= i < arranged(new_table_items(sorted_set(to_create), desired, actual)).len(),
        0 <= j < arranged(new_table_items(sorted_set(to_create), desired, actual)).len(),
    ensures
        ({
            let s = arranged(new_table_items(sorted_set(to_create), desired, actual));
            needs_item(s[i], s[j]) == needs_new(desired, actual, s[i].name, s[j].name)
        }),
{
    let s = arranged(new_table_items(sorted_set(to_create), desired, actual));
    let n = lemma_new_tables_in_order(to_create, desired, actual);
    assert(s[i] == new_table_item(desired, actual, s[i].name));
    lemma_needs_new(desired, actual, s[i].name, s[j]);
}

proof fn lemma_behind(
    desired: SnapshotModel,
    actual: SnapshotModel,
    s: Seq<ItemModel>,
    n: int,
    i: int,
)
    requires
        0 <= i < s.len(),
        0 <= n <= s.len(),
        behind_needs(s, n),
        all_wait(s.skip(n)),
        forall|j: int|
            0 <= j < s.len() ==> needs_item(s[i], #[trigger] s[j]) == needs_new(
                desired,
                actual,
                s[i].name,
                s[j].name,
            ),
    ensures
        i < n ==> !needs_behind(desired, actual, item_names(s), i, i),
        i >= n ==> needs_behind(desired, actual, item_names(s), n, i),
{
    let names = item_names(s);
    if i < n {
        if needs_behind(desired, actual, names, i, i) {
            let j = choose|j: int|
                i <= j < names.len() && needs_new(desired, actual, names[i], #[trigger] names[j]);
            assert(!needs_item(s[i], s[j]));
        }
    } else {
        let rest = s.skip(n);
        assert(rest[i - n] == s[i]);
        assert(waits(rest[i - n], rest));
        let k = choose|k: int| 0 <= k < rest.len() && needs_item(s[i], #[trigger] rest[k]);
        assert(rest[k] == s[n + k]);
        assert(needs_new(desired, actual, names[i], names[n + k]));
    }
}

proof fn lemma_ordered_behind(
    to_create: Seq<Text>,
    desired: SnapshotModel,
    actual: SnapshotModel,
) -> (n: int)
    requires
        desired.sorted(),
    ensures
        ({
            let names = ordered_tables(to_create, desired, actual);
            &&& 0 <= n <= names.len()
            &&& forall|i: int|
                0 <= i < n ==> !#[trigger] needs_behind(desired, actual, names, i, i)
            &&& forall|i: int|
                n <= i < names.len() ==> #[trigger] needs_behind(desired, actual, names, n, i)
        }),
{
    let s = arranged(new_table_items(sorted_set(to_create), desired, actual));
    let names = ordered_tables(to_create, desired, actual);
    let n = lemma_new_tables_in_order(to_create, desired, actual);
    assert forall|i: int| 0 <= i < n implies !#[trigger] needs_behind(
        desired,
        actual,
        names,
        i,
        i,
    ) by {
        lemma_item_behind(to_create, desired, actual, n, i);
    }
    assert forall|i: int| n <= i < names.len() implies #[trigger] needs_behind(
        desired,
        actual,
        names,
        n,
        i,
    ) by {
        lemma_item_behind(to_create, desired, actual, n, i);
    }
    n
}

proof fn lemma_item_behind(
    to_create: Seq<Text>,
    desired: SnapshotModel,
    actual: SnapshotModel,
    n: int,
    i: int,
)
    requires
        desired.sorted(),
        ({
            let s = arranged(new_table_items(sorted_set(to_create), desired, actual));
            &&& 0 <= i < s.len()
            &&& 0 <= n <= s.len()
            &&& behind_needs(s, n)
            &&& all_wait(s.skip(n))
        }),
    ensures
        ({
            let names = ordered_tables(to_create, desired, actual);
            &&& i < n ==> !needs_behind(desired, actual, names, i, i)
            &&& i >= n ==> needs_behind(desired, actual, names, n, i)
        }),
{
    let s = arranged(new_table_items(sorted_set(to_create), desired, actual));
    assert forall|j: int| 0 <= j < s.len() implies needs_item(s[i], #[trigger] s[j]) == needs_new(
        desired,
        actual,
        s[i].name,
        s[j].name,
    ) by {
        lemma_item_needs(to_create, desired, actual, i, j);
    }
    lemma_behind(desired, actual, s, n, i);
}

/// New tables are the tables to create, each once. None comes before a new one that it
/// points to, but for a last part in which each points to one of that part.
pub proof fn lemma_new_tables_behind_their_targets(
    diff: DiffModel,
    desired: SnapshotModel,
    actual: SnapshotModel,
) -> (n: int)
    requires
        desired.sorted(),
    ensures
        ({
            let names = plan_of(diff, desired, actual).new_tables;
            &&& forall|x: Text|
                #[trigger] names.contains(x) <==> diff.tables_to_create.contains(x)
            &&& names.no_duplicates()
            &&& 0 <= n <= names.len()
            &&& forall|i: int|
                0 <= i < n ==> !#[trigger] needs_behind(desired, actual, names, i, i)
            &&& forall|i: int|
                n <= i < names.len() ==> #[trigger] needs_behind(desired, actual, names, n, i)
        }),
{
    let names = ordered_tables(diff.tables_to_create, desired, actual);
    assert(names.to_multiset() == sorted_set(diff.tables_to_create).to_multiset()) by {
        let n = lemma_new_tables_in_order(diff.tables_to_create, desired, actual);
    }
    lemma_permuted_set(diff.tables_to_create, names);
    lemma_ordered_behind(diff.tables_to_create, desired, actual)
}

proof fn lemma_permuted_set(list: Seq<Text>, names: Seq<Text>)
    requires
        names.to_multiset() == sorted_set(list).to_multiset(),
    ensures
        names.no_duplicates(),
        forall|x: Text| #[trigger] names.contains(x) <==> list.contains(x),
{
    broadcast use vstd::seq_lib::group_to_multiset_ensures;

    let set = sorted_set(list);
    lemma_sorted_set(list);
    assert forall|x: Text| #[trigger] names.contains(x) <==> list.contains(x) by {
        assert(names.to_multiset().contains(x) <==> set.to_multiset().contains(x));
        assert(set.contains(x) <==> list.contains(x));
    }
    lemma_permuted_once(names, set);
}

/// A permutation of a sorted list without repetition has no repetition.
proof fn lemma_permuted_once(names: Seq<Text>, set: Seq<Text>)
    requires
        increasing(set),
        names.to_multiset() == set.to_multiset(),
    ensures
        names.no_duplicates(),
{
    assert forall|i: int, j: int| 0 <= i < set.len() && 0 <= j < set.len() && i != j implies set[i]
        != set[j] by {
        if i < j {
            assert(crate::lists::less(set[i], set[j]));
            crate::lists::lemma_less_total(set[i], set[j]);
        } else {
            assert(crate::lists::less(set[j], set[i]));
            crate::lists::lemma_less_total(set[j], set[i]);
        }
    }
    assert(set.no_duplicates());
    set.lemma_multiset_has_no_duplicates();
    names.lemma_multiset_has_no_duplicates_conv();
}

// ---------------------------------------------------------------------------
// Views
// ---------------------------------------------------------------------------

/// Whether the statement of the view of a name has another name as one of its words,
/// whatever the case.
#[verifier::opaque]
pub open spec fn view_mentions(views: Seq<(Text, ViewModel)>, a: Text, b: Text) -> bool {
    a != b && exists|k: int|
        0 <= k < views.len() && lower((#[trigger] views[k]).0) == lower(a) && has_word(
            lower(views[k].1.sql),
            lower(b),
        )
}

proof fn lemma_view_mentions(views: Seq<(Text, ViewModel)>, a: Text, b: NamedModel)
    requires
        sorted_keys(views),
    ensures
        depends(view_item(views, a), b) == view_mentions(views, a, b.name),
{
    reveal(mentions);
    reveal(view_mentions);
    let texts = view_texts(views);
    assert(lower_keys(texts) =~= lower_keys(views));
    lemma_name_index(keys(texts), a);
    match lookup(texts, a) {
        Some(sql) => {
            let k = name_index(keys(texts), a)->0;
            assert(keys(texts)[k] == views[k].0);
            assert(lower(views[k].0) == lower(a));
            assert forall|q: int|
                0 <= q < views.len() && lower((#[trigger] views[q]).0) == lower(a) implies q == k by {
                lemma_distinct(texts, a, q);
            }
        },
        None => {
            if view_mentions(views, a, b.name) {
                let k = choose|k: int|
                    0 <= k < views.len() && lower((#[trigger] views[k]).0) == lower(a);
                assert(same_name(keys(texts)[k], a));
            }
        },
    }
}

/// Whether the view at `i` mentions one at a place from `n` on.
pub open spec fn mentions_behind(
    views: Seq<(Text, ViewModel)>,
    names: Seq<Text>,
    n: int,
    i: int,
) -> bool {
    exists|j: int| n <= j < names.len() && view_mentions(views, names[i], #[trigger] names[j])
}

/// Views are created in an order in which none comes before another that it mentions, but
/// for a last part in which each mentions another of that part. None is left out, and none
/// comes twice.
pub proof fn lemma_views_behind_what_they_mention(
    views: Seq<Text>,
    all: Seq<(Text, ViewModel)>,
) -> (n: int)
    requires
        sorted_keys(all),
    ensures
        ({
            let names = ordered_views(views, all);
            &&& names.to_multiset() == views.to_multiset()
            &&& 0 <= n <= names.len()
            &&& forall|i: int|
                0 <= i < n ==> !#[trigger] mentions_behind(all, names, i, i)
            &&& forall|i: int|
                n <= i < names.len() ==> #[trigger] mentions_behind(all, names, n, i)
        }),
{
    let s = staged(view_items(views, all));
    let names = ordered_views(views, all);
    let n = lemma_views_in_order(views, all);
    assert forall|i: int, j: int| 0 <= i < s.len() && 0 <= j < s.len() implies depends(
        #[trigger] s[i],
        #[trigger] s[j],
    ) == view_mentions(all, names[i], names[j]) by {
        assert(s[i] == view_item(all, s[i].name));
        lemma_view_mentions(all, names[i], s[j]);
    }
    assert forall|i: int| 0 <= i < n implies !#[trigger] mentions_behind(all, names, i, i) by {
        if mentions_behind(all, names, i, i) {
            let j = choose|j: int|
                i <= j < names.len() && view_mentions(all, names[i], #[trigger] names[j]);
            assert(!depends(s[i], s[j]));
        }
    }
    assert forall|i: int| n <= i < names.len() implies #[trigger] mentions_behind(
        all,
        names,
        n,
        i,
    ) by {
        let rest = s.skip(n);
        assert(rest[i - n] == s[i]);
        assert(held_back(rest[i - n], rest));
        let k = choose|k: int| 0 <= k < rest.len() && depends(s[i], #[trigger] rest[k]);
        assert(rest[k] == s[n + k]);
        assert(depends(s[i], s[n + k]));
        assert(view_mentions(all, names[i], names[n + k]));
    }
    n
}

// ---------------------------------------------------------------------------
// The lists of a plan
// ---------------------------------------------------------------------------

/// Whether a column of the table is renamed, added or dropped in place.
pub open spec fn is_altered(diff: DiffModel, table: Text) -> bool {
    ||| exists|i: int|
        0 <= i < diff.columns_to_rename.len() && (#[trigger] diff.columns_to_rename[i]).0 == table
    ||| exists|i: int|
        0 <= i < diff.columns_to_add.len() && (#[trigger] diff.columns_to_add[i]).0 == table
    ||| exists|i: int|
        0 <= i < diff.columns_to_drop.len() && (#[trigger] diff.columns_to_drop[i]).0 == table
}

/// The altered tables of a plan are those with a column that is renamed, added or dropped
/// in place, sorted, each once. The rebuilt tables are those to rebuild, sorted, each once.
pub proof fn lemma_altered_and_rebuilt(
    diff: DiffModel,
    desired: SnapshotModel,
    actual: SnapshotModel,
    x: Text,
)
    ensures
        increasing(plan_of(diff, desired, actual).altered_tables),
        plan_of(diff, desired, actual).altered_tables.contains(x) <==> is_altered(diff, x),
        increasing(plan_of(diff, desired, actual).rebuilt_tables),
        plan_of(diff, desired, actual).rebuilt_tables.contains(x)
            <==> diff.tables_to_rebuild.contains(x),
{
    let a = renamed_in(diff.columns_to_rename);
    let b = first_parts(diff.columns_to_add);
    let c = first_parts(diff.columns_to_drop);
    lemma_sorted_set(a + b + c);
    lemma_sorted_set(diff.tables_to_rebuild);
    lemma_in_both(a + b, c, x);
    lemma_in_both(a, b, x);
    if a.contains(x) {
        let i = choose|i: int| 0 <= i < a.len() && a[i] == x;
        assert(diff.columns_to_rename[i].0 == x);
    }
    if b.contains(x) {
        let i = choose|i: int| 0 <= i < b.len() && b[i] == x;
        assert(diff.columns_to_add[i].0 == x);
    }
    if c.contains(x) {
        let i = choose|i: int| 0 <= i < c.len() && c[i] == x;
        assert(diff.columns_to_drop[i].0 == x);
    }
    if is_altered(diff, x) {
        if exists|i: int|
            0 <= i < diff.columns_to_rename.len() && (#[trigger] diff.columns_to_rename[i]).0 == x {
            let i = choose|i: int|
                0 <= i < diff.columns_to_rename.len() && (#[trigger] diff.columns_to_rename[i]).0
                    == x;
            assert(a[i] == x);
        } else if exists|i: int|
            0 <= i < diff.columns_to_add.len() && (#[trigger] diff.columns_to_add[i]).0 == x {
            let i = choose|i: int|
                0 <= i < diff.columns_to_add.len() && (#[trigger] diff.columns_to_add[i]).0 == x;
            assert(b[i] == x);
        } else {
            let i = choose|i: int|
                0 <= i < diff.columns_to_drop.len() && (#[trigger] diff.columns_to_drop[i]).0 == x;
            assert(c[i] == x);
        }
    }
}

proof fn lemma_split(all: Seq<Text>, names: Seq<Text>, wanted: bool, x: Text)
    ensures
        gather(all, if_in(names, wanted)).contains(x) <==> all.contains(x) && is_named(names, x)
            == wanted,
{
    let f = if_in(names, wanted);
    lemma_gather_contains(all, f, x);
    lemma_is_named(names, x);
    if gather(all, f).contains(x) {
        let i = choose|i: int| 0 <= i < all.len() && f(#[trigger] all[i]).contains(x);
        assert(all[i] == x);
    }
    if all.contains(x) && is_named(names, x) == wanted {
        let i = choose|i: int| 0 <= i < all.len() && all[i] == x;
        assert(f(all[i])[0] == x);
    }
}

/// Of the indexes and views that a plan creates, those are new that the database does not
/// have, and those changed that it has.
pub proof fn lemma_new_or_changed(
    diff: DiffModel,
    desired: SnapshotModel,
    actual: SnapshotModel,
    x: Text,
)
    ensures
        ({
            let plan = plan_of(diff, desired, actual);
            let index = diff.indexes_to_create.contains(x) || exists|k: int|
                0 <= k < desired.indexes.len() && (#[trigger] desired.indexes[k]).1.name == x
                    && !desired.indexes[k].1.is_fts && is_named(
                    diff.tables_to_rebuild,
                    desired.indexes[k].1.table_name,
                );
            let view = diff.views_to_create.contains(x) || diff.tables_to_rebuild.len() > 0
                && exists|k: int| 0 <= k < desired.views.len() && (#[trigger] desired.views[k]).0
                == x;
            &&& plan.new_indexes.contains(x) <==> index && !has_entry(actual.indexes, x)
            &&& plan.changed_indexes.contains(x) <==> index && has_entry(actual.indexes, x)
            &&& plan.new_views.contains(x) <==> view && !has_entry(actual.views, x)
            &&& plan.changed_views.contains(x) <==> view && has_entry(actual.views, x)
        }),
{
    let rebuilt = diff.tables_to_rebuild;
    let indexes = with_indexes(diff.indexes_to_create, false, desired.indexes, rebuilt);
    let views = with_views(diff.views_to_create, desired.views, rebuilt);
    crate::statement_laws::lemma_with_indexes(
        diff.indexes_to_create,
        false,
        desired.indexes,
        rebuilt,
        x,
    );
    crate::statement_laws::lemma_with_views(diff.views_to_create, desired.views, rebuilt, x);
    lemma_split(indexes, keys(actual.indexes), false, x);
    lemma_split(indexes, keys(actual.indexes), true, x);
    lemma_split(views, keys(actual.views), false, x);
    lemma_split(views, keys(actual.views), true, x);
    lemma_has_entry(actual.indexes, x);
    lemma_has_entry(actual.views, x);
    lemma_is_named(keys(actual.indexes), x);
    lemma_is_named(keys(actual.views), x);
}

// ---------------------------------------------------------------------------
// Refusals
// ---------------------------------------------------------------------------

/// Whether rows of the old table have nothing for a wanted column: it takes values and must
/// have one, it has no default, and the old table has no column of its name.
pub open spec fn has_no_value(c: ColumnModel, old: Seq<ColumnModel>) -> bool {
    &&& !c.is_generated
    &&& !c.is_hidden
    &&& c.notnull
    &&& c.default_value is None
    &&& !is_column(old, c.name)
}

/// Whether the rebuild of a table would leave one of its columns without a value.
pub open spec fn leaves_no_value(desired: SnapshotModel, actual: SnapshotModel, table: Text) -> bool {
    exists|i: int, m: int, j: int|
        0 <= i < desired.tables.len() && lower((#[trigger] desired.tables[i]).0) == lower(table)
            && 0 <= m < actual.tables.len() && lower((#[trigger] actual.tables[m]).0) == lower(
            table,
        ) && 0 <= j < desired.tables[i].1.columns.len() && has_no_value(
            #[trigger] desired.tables[i].1.columns[j],
            actual.tables[m].1.columns,
        )
}

proof fn lemma_unfilled(c: ColumnModel, old: Seq<ColumnModel>)
    ensures
        unfilled(c, old) == has_no_value(c, old),
{
    lemma_has_column(old, c.name);
}

proof fn lemma_first_no_value(desired: Seq<ColumnModel>, old: Seq<ColumnModel>, i: int)
    requires
        0 <= i <= desired.len(),
    ensures
        match first_unfilled(desired, old, i) {
            Some(k) => i <= k < desired.len() && has_no_value(desired[k], old) && forall|j: int|
                i <= j < k ==> !has_no_value(#[trigger] desired[j], old),
            None => forall|k: int|
                i <= k < desired.len() ==> !has_no_value(#[trigger] desired[k], old),
        },
    decreases desired.len() - i,
{
    if i < desired.len() {
        lemma_unfilled(desired[i], old);
        lemma_first_no_value(desired, old, i + 1);
    }
}

proof fn lemma_refusal(desired: SnapshotModel, actual: SnapshotModel, table: Text)
    requires
        desired.sorted(),
        actual.sorted(),
    ensures
        rebuild_refusal(table, desired, actual) is Some <==> leaves_no_value(
            desired,
            actual,
            table,
        ),
{
    lemma_name_index(keys(desired.tables), table);
    lemma_name_index(keys(actual.tables), table);
    if let (Some(d), Some(a)) = (lookup(desired.tables, table), lookup(actual.tables, table)) {
        let i = name_index(keys(desired.tables), table)->0;
        let m = name_index(keys(actual.tables), table)->0;
        assert(keys(desired.tables)[i] == desired.tables[i].0);
        assert(keys(actual.tables)[m] == actual.tables[m].0);
        lemma_first_no_value(d.columns, a.columns, 0);
        if rebuild_refusal(table, desired, actual) is Some {
            let j = first_unfilled(d.columns, a.columns, 0)->0;
            assert(has_no_value(desired.tables[i].1.columns[j], actual.tables[m].1.columns));
            assert(lower(desired.tables[i].0) == lower(table));
            assert(lower(actual.tables[m].0) == lower(table));
        }
    }
    if leaves_no_value(desired, actual, table) {
        let (i, m, j) = choose|i: int, m: int, j: int|
            0 <= i < desired.tables.len() && lower((#[trigger] desired.tables[i]).0) == lower(table)
                && 0 <= m < actual.tables.len() && lower((#[trigger] actual.tables[m]).0) == lower(
                table,
            ) && 0 <= j < desired.tables[i].1.columns.len() && has_no_value(
                #[trigger] desired.tables[i].1.columns[j],
                actual.tables[m].1.columns,
            );
        lemma_distinct(desired.tables, table, i);
        lemma_distinct(actual.tables, table, m);
        lemma_first_no_value(desired.tables[i].1.columns, actual.tables[m].1.columns, 0);
    }
}

proof fn lemma_first_refused(
    tables: Seq<Text>,
    desired: SnapshotModel,
    actual: SnapshotModel,
    n: int,
)
    requires
        desired.sorted(),
        actual.sorted(),
        0 <= n <= tables.len(),
    ensures
        first_refusal(tables, desired, actual, n) is Some <==> exists|k: int|
            n <= k < tables.len() && leaves_no_value(desired, actual, #[trigger] tables[k]),
    decreases tables.len() - n,
{
    if n < tables.len() {
        lemma_refusal(desired, actual, tables[n]);
        lemma_first_refused(tables, desired, actual, n + 1);
    }
}

/// A plan is made exactly where no rebuild would leave a column without a value.
pub proof fn lemma_plan_is_made(diff: DiffModel, desired: SnapshotModel, actual: SnapshotModel)
    requires
        desired.sorted(),
        actual.sorted(),
    ensures
        planned(diff, desired, actual) is Err <==> exists|k: int|
            0 <= k < diff.tables_to_rebuild.len() && leaves_no_value(
                desired,
                actual,
                #[trigger] diff.tables_to_rebuild[k],
            ),
        planned(diff, desired, actual) is Ok ==> planned(diff, desired, actual) == Ok::<
            crate::plan::PlanModel,
            ErrorModel,
        >(plan_of(diff, desired, actual)),
{
    lemma_first_refused(diff.tables_to_rebuild, desired, actual, 0);
}

/// Where deletions are not allowed, no table is dropped, and everything else is done as
/// where they are.
pub proof fn lemma_deletions_spared(diff: DiffModel, desired: SnapshotModel, actual: SnapshotModel)
    ensures
        spared(diff, true) == diff,
        spared(diff, false).tables_to_drop.len() == 0,
        groups(spared(diff, false), desired, actual)[3].len() == 0,
        forall|k: int|
            0 <= k < 12 && k != 3 ==> #[trigger] groups(spared(diff, false), desired, actual)[k]
                == groups(diff, desired, actual)[k],
        plan_of(spared(diff, false), desired, actual).non_transactional_stmts == plan_of(
            diff,
            desired,
            actual,
        ).non_transactional_stmts,
{
    assert(gather(spared(diff, false).tables_to_drop, crate::plan::if_not_protected()) =~= Seq::<
        Text,
    >::empty());
}

/// The refusal names the first table whose rebuild would leave a column without a value,
/// and the first such column.
pub proof fn lemma_refusal_names_the_column(
    diff: DiffModel,
    desired: SnapshotModel,
    actual: SnapshotModel,
    k: int,
    i: int,
    m: int,
    j: int,
)
    requires
        desired.sorted(),
        actual.sorted(),
        0 <= k < diff.tables_to_rebuild.len(),
        forall|q: int|
            0 <= q < k ==> !leaves_no_value(
                desired,
                actual,
                #[trigger] diff.tables_to_rebuild[q],
            ),
        0 <= i < desired.tables.len(),
        lower(desired.tables[i].0) == lower(diff.tables_to_rebuild[k]),
        0 <= m < actual.tables.len(),
        lower(actual.tables[m].0) == lower(diff.tables_to_rebuild[k]),
        0 <= j < desired.tables[i].1.columns.len(),
        has_no_value(desired.tables[i].1.columns[j], actual.tables[m].1.columns),
        forall|q: int|
            0 <= q < j ==> !has_no_value(
                #[trigger] desired.tables[i].1.columns[q],
                actual.tables[m].1.columns,
            ),
    ensures
        planned(diff, desired, actual) == Err::<crate::plan::PlanModel, ErrorModel>(
            ErrorModel::Schema(
                "Table '"@ + diff.tables_to_rebuild[k]
                    + "' rebuild would add NOT NULL column '"@ + desired.tables[i].1.columns[j].name
                    + "' without DEFAULT. Existing rows would violate the constraint. Add a DEFAULT value to the column definition."@,
            ),
        ),
{
    let t = diff.tables_to_rebuild[k];
    lemma_distinct(desired.tables, t, i);
    lemma_distinct(actual.tables, t, m);
    let d = desired.tables[i].1.columns;
    let a = actual.tables[m].1.columns;
    lemma_first_no_value(d, a, 0);
    let f = first_unfilled(d, a, 0)->0;
    assert(has_no_value(d[j], a));
    if f < j {
        assert(has_no_value(d[f], a));
    }
    assert(f == j);
    lemma_skips_allowed(diff.tables_to_rebuild, desired, actual, 0, k);
}

proof fn lemma_skips_allowed(
    tables: Seq<Text>,
    desired: SnapshotModel,
    actual: SnapshotModel,
    n: int,
    k: int,
)
    requires
        desired.sorted(),
        actual.sorted(),
        0 <= n <= k < tables.len(),
        forall|q: int| n <= q < k ==> !leaves_no_value(desired, actual, #[trigger] tables[q]),
        rebuild_refusal(tables[k], desired, actual) is Some,
    ensures
        first_refusal(tables, desired, actual, n) == rebuild_refusal(tables[k], desired, actual),
    decreases k - n,
{
    if n < k {
        assert(!leaves_no_value(desired, actual, tables[n]));
        lemma_refusal(desired, actual, tables[n]);
        lemma_skips_allowed(tables, desired, actual, n + 1, k);
    }
}

} // verus!
