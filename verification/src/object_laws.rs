//! When tables, indexes, views and triggers are created and dropped.

use vstd::prelude::*;

#[allow(unused_imports)]
use crate::diff::{
    created, creations, difference, dropped, if_missing, index_changed, index_creations,
    index_removals, index_replacements, missing_names, replacements,
};
#[allow(unused_imports)]
use crate::lists::{gather, has_name, lemma_gather_contains, lemma_name_index};
#[allow(unused_imports)]
use crate::normalize::normal;
#[allow(unused_imports)]
use crate::options::HintModel;
#[allow(unused_imports)]
use crate::schema::{
    keys, lemma_distinct, lookup, lower_keys, sorted_keys, trigger_texts, view_texts, IndexModel,
    SnapshotModel,
};
#[allow(unused_imports)]
use crate::statement_laws::{is_named, lemma_in_both, lemma_is_named};
#[allow(unused_imports)]
use crate::text::{lower, Text};

verus! {

/// Whether one of the entries has the name, up to ASCII case.
pub open spec fn has_entry<M>(s: Seq<(Text, M)>, name: Text) -> bool {
    exists|k: int| 0 <= k < s.len() && lower((#[trigger] s[k]).0) == lower(name)
}

/// A name is one of the keys where an entry has it.
pub proof fn lemma_has_entry<M>(s: Seq<(Text, M)>, name: Text)
    ensures
        has_name(keys(s), name) == has_entry(s, name),
        (lookup(s, name) is Some) == has_entry(s, name),
{
    let names = keys(s);
    lemma_name_index(names, name);
    lemma_is_named(names, name);
    if is_named(names, name) {
        let k = choose|k: int| 0 <= k < names.len() && lower(#[trigger] names[k]) == lower(name);
        assert(lower(s[k].0) == lower(name));
    }
    if has_entry(s, name) {
        let k = choose|k: int| 0 <= k < s.len() && lower((#[trigger] s[k]).0) == lower(name);
        assert(lower(names[k]) == lower(name));
    }
}

/// The names of the one list that the other lacks.
proof fn lemma_missing<A, B>(from: Seq<(Text, A)>, other: Seq<(Text, B)>, x: Text)
    ensures
        missing_names(keys(from), keys(other)).contains(x) <==> !has_entry(other, x) && exists|
            k: int,
        |
            0 <= k < from.len() && (#[trigger] from[k]).0 == x,
{
    let f = if_missing(keys(other));
    lemma_gather_contains(keys(from), f, x);
    lemma_has_entry(other, x);
    if missing_names(keys(from), keys(other)).contains(x) {
        let k = choose|k: int| 0 <= k < keys(from).len() && f(#[trigger] keys(from)[k]).contains(x);
        assert(from[k].0 == x);
    }
    if !has_entry(other, x) && exists|k: int| 0 <= k < from.len() && (#[trigger] from[k]).0 == x {
        let k = choose|k: int| 0 <= k < from.len() && (#[trigger] from[k]).0 == x;
        assert(f(keys(from)[k])[0] == x);
    }
}

// ---------------------------------------------------------------------------
// Tables
// ---------------------------------------------------------------------------

/// A table is created exactly where it is wanted and none of its name is there, and
/// dropped exactly where it is there and none of its name is wanted.
pub proof fn lemma_tables_come_and_go(
    desired: SnapshotModel,
    actual: SnapshotModel,
    hints: Seq<HintModel>,
    x: Text,
)
    ensures
        difference(desired, actual, hints).tables_to_create.contains(x) <==> !has_entry(
            actual.tables,
            x,
        ) && exists|k: int| 0 <= k < desired.tables.len() && (#[trigger] desired.tables[k]).0 == x,
        difference(desired, actual, hints).tables_to_drop.contains(x) <==> !has_entry(
            desired.tables,
            x,
        ) && exists|k: int| 0 <= k < actual.tables.len() && (#[trigger] actual.tables[k]).0 == x,
{
    lemma_missing(desired.tables, actual.tables, x);
    lemma_missing(actual.tables, desired.tables, x);
}

// ---------------------------------------------------------------------------
// Views and triggers
// ---------------------------------------------------------------------------

proof fn lemma_created(desired: Seq<(Text, Text)>, actual: Seq<(Text, Text)>, i: int)
    requires
        sorted_keys(desired),
        sorted_keys(actual),
        0 <= i < desired.len(),
    ensures
        created(desired, actual).contains(desired[i].0) <==> forall|m: int|
            0 <= m < actual.len() && lower((#[trigger] actual[m]).0) == lower(desired[i].0)
                ==> normal(actual[m].1) != normal(desired[i].1),
        dropped(desired, actual).contains(desired[i].0) ==> exists|m: int|
            0 <= m < actual.len() && lower((#[trigger] actual[m]).0) == lower(desired[i].0)
                && normal(actual[m].1) != normal(desired[i].1),
        (exists|m: int|
            0 <= m < actual.len() && lower((#[trigger] actual[m]).0) == lower(desired[i].0)
                && normal(actual[m].1) != normal(desired[i].1)) ==> dropped(
            desired,
            actual,
        ).contains(desired[i].0),
{
    let n = desired[i].0;
    let f = creations(actual);
    let g = replacements(actual);
    let first = gather(desired, g);
    let second = missing_names(keys(actual), keys(desired));
    lemma_gather_contains(desired, f, n);
    lemma_gather_contains(desired, g, n);
    lemma_in_both(first, second, n);
    lemma_missing(actual, desired, n);
    lemma_has_entry(actual, n);
    assert(lower(desired[i].0) == lower(n));
    assert(has_entry(desired, n));
    if has_entry(actual, n) {
        let m = choose|m: int| 0 <= m < actual.len() && lower((#[trigger] actual[m]).0) == lower(n);
        lemma_distinct(actual, n, m);
        assert forall|q: int| 0 <= q < actual.len() && lower((#[trigger] actual[q]).0) == lower(n) implies q
            == m by {
            lemma_distinct(actual, n, q);
        }
        if normal(actual[m].1) != normal(desired[i].1) {
            assert(f(desired[i])[0] == n);
            assert(g(desired[i])[0] == n);
            assert(first.contains(n));
        }
    } else {
        assert(f(desired[i])[0] == n);
    }
    if created(desired, actual).contains(n) {
        let k = choose|k: int| 0 <= k < desired.len() && f(#[trigger] desired[k]).contains(n);
        lemma_distinct(desired, n, i);
        lemma_distinct(desired, n, k);
    }
    if first.contains(n) {
        let k = choose|k: int| 0 <= k < desired.len() && g(#[trigger] desired[k]).contains(n);
        lemma_distinct(desired, n, i);
        lemma_distinct(desired, n, k);
    }
}

/// What is there and not wanted is dropped.
proof fn lemma_unwanted_dropped(desired: Seq<(Text, Text)>, actual: Seq<(Text, Text)>, m: int)
    requires
        0 <= m < actual.len(),
        !has_entry(desired, actual[m].0),
    ensures
        dropped(desired, actual).contains(actual[m].0),
{
    let n = actual[m].0;
    let first = gather(desired, replacements(actual));
    lemma_missing(actual, desired, n);
    lemma_in_both(first, missing_names(keys(actual), keys(desired)), n);
}

/// A wanted view is created exactly where none of its name is there with the same
/// statement, up to layout. Where one is there with another statement, it is dropped.
pub proof fn lemma_view_created(
    desired: SnapshotModel,
    actual: SnapshotModel,
    hints: Seq<HintModel>,
    i: int,
)
    requires
        desired.sorted(),
        actual.sorted(),
        0 <= i < desired.views.len(),
    ensures
        difference(desired, actual, hints).views_to_create.contains(desired.views[i].0)
            <==> forall|m: int|
            0 <= m < actual.views.len() && lower((#[trigger] actual.views[m]).0) == lower(
                desired.views[i].0,
            ) ==> normal(actual.views[m].1.sql) != normal(desired.views[i].1.sql),
        difference(desired, actual, hints).views_to_drop.contains(desired.views[i].0)
            <==> exists|m: int|
            0 <= m < actual.views.len() && lower((#[trigger] actual.views[m]).0) == lower(
                desired.views[i].0,
            ) && normal(actual.views[m].1.sql) != normal(desired.views[i].1.sql),
{
    let de = view_texts(desired.views);
    let ac = view_texts(actual.views);
    assert(lower_keys(de) =~= lower_keys(desired.views));
    assert(lower_keys(ac) =~= lower_keys(actual.views));
    lemma_created(de, ac, i);
    assert(forall|m: int|
        0 <= m < ac.len() ==> (#[trigger] ac[m]).0 == actual.views[m].0 && ac[m].1
            == actual.views[m].1.sql);
    assert(forall|m: int|
        0 <= m < ac.len() ==> (#[trigger] actual.views[m]).0 == ac[m].0 && ac[m].1
            == actual.views[m].1.sql);
}

/// A view that is there and not wanted is dropped.
pub proof fn lemma_view_dropped(
    desired: SnapshotModel,
    actual: SnapshotModel,
    hints: Seq<HintModel>,
    m: int,
)
    requires
        0 <= m < actual.views.len(),
        !has_entry(desired.views, actual.views[m].0),
    ensures
        difference(desired, actual, hints).views_to_drop.contains(actual.views[m].0),
{
    let de = view_texts(desired.views);
    let ac = view_texts(actual.views);
    if has_entry(de, actual.views[m].0) {
        let k = choose|k: int|
            0 <= k < de.len() && lower((#[trigger] de[k]).0) == lower(actual.views[m].0);
        assert(lower(desired.views[k].0) == lower(actual.views[m].0));
    }
    assert(ac[m].0 == actual.views[m].0);
    lemma_unwanted_dropped(de, ac, m);
}

/// A wanted trigger is created exactly where none of its name is there with the same
/// statement, up to layout. Where one is there with another statement, it is dropped.
pub proof fn lemma_trigger_created(
    desired: SnapshotModel,
    actual: SnapshotModel,
    hints: Seq<HintModel>,
    i: int,
)
    requires
        desired.sorted(),
        actual.sorted(),
        0 <= i < desired.triggers.len(),
    ensures
        difference(desired, actual, hints).triggers_to_create.contains(desired.triggers[i].0)
            <==> forall|m: int|
            0 <= m < actual.triggers.len() && lower((#[trigger] actual.triggers[m]).0) == lower(
                desired.triggers[i].0,
            ) ==> normal(actual.triggers[m].1.sql) != normal(desired.triggers[i].1.sql),
        difference(desired, actual, hints).triggers_to_drop.contains(desired.triggers[i].0)
            <==> exists|m: int|
            0 <= m < actual.triggers.len() && lower((#[trigger] actual.triggers[m]).0) == lower(
                desired.triggers[i].0,
            ) && normal(actual.triggers[m].1.sql) != normal(desired.triggers[i].1.sql),
{
    let de = trigger_texts(desired.triggers);
    let ac = trigger_texts(actual.triggers);
    assert(lower_keys(de) =~= lower_keys(desired.triggers));
    assert(lower_keys(ac) =~= lower_keys(actual.triggers));
    lemma_created(de, ac, i);
    assert(forall|m: int|
        0 <= m < ac.len() ==> (#[trigger] ac[m]).0 == actual.triggers[m].0 && ac[m].1
            == actual.triggers[m].1.sql);
    assert(forall|m: int|
        0 <= m < ac.len() ==> (#[trigger] actual.triggers[m]).0 == ac[m].0 && ac[m].1
            == actual.triggers[m].1.sql);
}

/// A trigger that is there and not wanted is dropped.
pub proof fn lemma_trigger_dropped(
    desired: SnapshotModel,
    actual: SnapshotModel,
    hints: Seq<HintModel>,
    m: int,
)
    requires
        0 <= m < actual.triggers.len(),
        !has_entry(desired.triggers, actual.triggers[m].0),
    ensures
        difference(desired, actual, hints).triggers_to_drop.contains(actual.triggers[m].0),
{
    let de = trigger_texts(desired.triggers);
    let ac = trigger_texts(actual.triggers);
    if has_entry(de, actual.triggers[m].0) {
        let k = choose|k: int|
            0 <= k < de.len() && lower((#[trigger] de[k]).0) == lower(actual.triggers[m].0);
        assert(lower(desired.triggers[k].0) == lower(actual.triggers[m].0));
    }
    assert(ac[m].0 == actual.triggers[m].0);
    lemma_unwanted_dropped(de, ac, m);
}

// ---------------------------------------------------------------------------
// Indexes
// ---------------------------------------------------------------------------

/// Whether a wanted index is there as it is wanted: one of its name with the same
/// statement, up to layout, on a table that is not rebuilt.
pub open spec fn index_stays(
    index: (Text, IndexModel),
    actual: Seq<(Text, IndexModel)>,
    rebuilt: Seq<Text>,
) -> bool {
    exists|m: int|
        0 <= m < actual.len() && lower((#[trigger] actual[m]).0) == lower(index.0) && normal(
            actual[m].1.sql,
        ) == normal(index.1.sql) && !is_named(rebuilt, index.1.table_name)
}

proof fn lemma_index_kinds(
    desired: SnapshotModel,
    actual: SnapshotModel,
    hints: Seq<HintModel>,
    fts: bool,
    i: int,
)
    requires
        desired.sorted(),
        actual.sorted(),
        0 <= i < desired.indexes.len(),
    ensures
        ({
            let rebuilt = difference(desired, actual, hints).tables_to_rebuild;
            let index = desired.indexes[i];
            &&& gather(desired.indexes, index_creations(fts, actual.indexes, rebuilt)).contains(
                index.0,
            ) <==> index.1.is_fts == fts && !index_stays(index, actual.indexes, rebuilt)
            &&& (gather(desired.indexes, index_replacements(fts, actual.indexes, rebuilt))
                + gather(actual.indexes, index_removals(fts, desired.indexes))).contains(index.0)
                <==> index.1.is_fts == fts && has_entry(actual.indexes, index.0) && !index_stays(
                index,
                actual.indexes,
                rebuilt,
            )
        }),
{
    let rebuilt = difference(desired, actual, hints).tables_to_rebuild;
    let index = desired.indexes[i];
    let n = index.0;
    let ix = actual.indexes;
    let f = index_creations(fts, ix, rebuilt);
    let g = index_replacements(fts, ix, rebuilt);
    let h = index_removals(fts, desired.indexes);
    let first = gather(desired.indexes, g);
    let second = gather(ix, h);
    lemma_gather_contains(desired.indexes, f, n);
    lemma_gather_contains(desired.indexes, g, n);
    lemma_gather_contains(ix, h, n);
    lemma_in_both(first, second, n);
    lemma_has_entry(ix, n);
    lemma_has_entry(desired.indexes, n);
    assert(lower(desired.indexes[i].0) == lower(n));
    assert(has_entry(desired.indexes, n));
    lemma_is_named(rebuilt, index.1.table_name);
    if second.contains(n) {
        let k = choose|k: int| 0 <= k < ix.len() && h(#[trigger] ix[k]).contains(n);
        assert(ix[k].0 == n);
    }
    if gather(desired.indexes, f).contains(n) {
        let k = choose|k: int| 0 <= k < desired.indexes.len() && f(#[trigger] desired.indexes[k]).contains(n);
        lemma_distinct(desired.indexes, n, i);
        lemma_distinct(desired.indexes, n, k);
    }
    if first.contains(n) {
        let k = choose|k: int| 0 <= k < desired.indexes.len() && g(#[trigger] desired.indexes[k]).contains(n);
        lemma_distinct(desired.indexes, n, i);
        lemma_distinct(desired.indexes, n, k);
    }
    if has_entry(ix, n) {
        let m = choose|m: int| 0 <= m < ix.len() && lower((#[trigger] ix[m]).0) == lower(n);
        lemma_distinct(ix, n, m);
        assert forall|q: int| 0 <= q < ix.len() && lower((#[trigger] ix[q]).0) == lower(n) implies q
            == m by {
            lemma_distinct(ix, n, q);
        }
        assert(index_stays(index, ix, rebuilt) == !index_changed(index, ix, rebuilt));
        if index.1.is_fts == fts && index_changed(index, ix, rebuilt) {
            assert(f(desired.indexes[i])[0] == n);
            assert(g(desired.indexes[i])[0] == n);
        }
    } else {
        assert(!index_stays(index, ix, rebuilt));
        if index.1.is_fts == fts {
            assert(f(desired.indexes[i])[0] == n);
        }
    }
}

/// A wanted index is created exactly where it is not there as it is wanted. Where one of
/// its name is there all the same, it is dropped. A full-text index is listed as one, and
/// another index as another one.
pub proof fn lemma_index_created(
    desired: SnapshotModel,
    actual: SnapshotModel,
    hints: Seq<HintModel>,
    i: int,
)
    requires
        desired.sorted(),
        actual.sorted(),
        0 <= i < desired.indexes.len(),
    ensures
        ({
            let d = difference(desired, actual, hints);
            let index = desired.indexes[i];
            let stays = index_stays(index, actual.indexes, d.tables_to_rebuild);
            &&& d.indexes_to_create.contains(index.0) <==> !index.1.is_fts && !stays
            &&& d.fts_indexes_to_create.contains(index.0) <==> index.1.is_fts && !stays
            &&& d.indexes_to_drop.contains(index.0) <==> !index.1.is_fts && has_entry(
                actual.indexes,
                index.0,
            ) && !stays
            &&& d.fts_indexes_to_drop.contains(index.0) <==> index.1.is_fts && has_entry(
                actual.indexes,
                index.0,
            ) && !stays
        }),
{
    lemma_index_kinds(desired, actual, hints, false, i);
    lemma_index_kinds(desired, actual, hints, true, i);
}

proof fn lemma_unwanted_index(
    desired: SnapshotModel,
    actual: SnapshotModel,
    rebuilt: Seq<Text>,
    fts: bool,
    m: int,
)
    requires
        actual.sorted(),
        0 <= m < actual.indexes.len(),
        !has_entry(desired.indexes, actual.indexes[m].0),
    ensures
        (gather(desired.indexes, index_replacements(fts, actual.indexes, rebuilt)) + gather(
            actual.indexes,
            index_removals(fts, desired.indexes),
        )).contains(actual.indexes[m].0) <==> actual.indexes[m].1.is_fts == fts,
{
    let n = actual.indexes[m].0;
    let g = index_replacements(fts, actual.indexes, rebuilt);
    let h = index_removals(fts, desired.indexes);
    lemma_has_entry(desired.indexes, n);
    lemma_gather_contains(actual.indexes, h, n);
    lemma_gather_contains(desired.indexes, g, n);
    lemma_in_both(gather(desired.indexes, g), gather(actual.indexes, h), n);
    if gather(desired.indexes, g).contains(n) {
        let k = choose|k: int|
            0 <= k < desired.indexes.len() && g(#[trigger] desired.indexes[k]).contains(n);
        assert(lower(desired.indexes[k].0) == lower(n));
    }
    if gather(actual.indexes, h).contains(n) {
        let k = choose|k: int|
            0 <= k < actual.indexes.len() && h(#[trigger] actual.indexes[k]).contains(n);
        lemma_distinct(actual.indexes, n, k);
        lemma_distinct(actual.indexes, n, m);
    }
    if actual.indexes[m].1.is_fts == fts {
        assert(h(actual.indexes[m])[0] == n);
    }
}

/// An index that is there and not wanted is dropped, by its own kind and by no other.
pub proof fn lemma_index_dropped(
    desired: SnapshotModel,
    actual: SnapshotModel,
    hints: Seq<HintModel>,
    m: int,
)
    requires
        actual.sorted(),
        0 <= m < actual.indexes.len(),
        !has_entry(desired.indexes, actual.indexes[m].0),
    ensures
        ({
            let d = difference(desired, actual, hints);
            let index = actual.indexes[m];
            &&& d.fts_indexes_to_drop.contains(index.0) <==> index.1.is_fts
            &&& d.indexes_to_drop.contains(index.0) <==> !index.1.is_fts
        }),
{
    let rebuilt = difference(desired, actual, hints).tables_to_rebuild;
    lemma_unwanted_index(desired, actual, rebuilt, false, m);
    lemma_unwanted_index(desired, actual, rebuilt, true, m);
}

// ---------------------------------------------------------------------------
// Nothing else
// ---------------------------------------------------------------------------

/// Only what is there is dropped, and only what is wanted is created.
pub proof fn lemma_only_what_is_there_goes(
    desired: SnapshotModel,
    actual: SnapshotModel,
    hints: Seq<HintModel>,
    x: Text,
)
    ensures
        ({
            let d = difference(desired, actual, hints);
            &&& d.tables_to_drop.contains(x) ==> has_entry(actual.tables, x)
            &&& d.indexes_to_drop.contains(x) ==> has_entry(actual.indexes, x)
            &&& d.fts_indexes_to_drop.contains(x) ==> has_entry(actual.indexes, x)
            &&& d.views_to_drop.contains(x) ==> has_entry(actual.views, x)
            &&& d.triggers_to_drop.contains(x) ==> has_entry(actual.triggers, x)
            &&& d.tables_to_create.contains(x) ==> has_entry(desired.tables, x)
            &&& d.indexes_to_create.contains(x) ==> has_entry(desired.indexes, x)
            &&& d.fts_indexes_to_create.contains(x) ==> has_entry(desired.indexes, x)
            &&& d.views_to_create.contains(x) ==> has_entry(desired.views, x)
            &&& d.triggers_to_create.contains(x) ==> has_entry(desired.triggers, x)
        }),
{
    let d = difference(desired, actual, hints);
    lemma_tables_come_and_go(desired, actual, hints, x);
    if d.tables_to_drop.contains(x) {
        let k = choose|k: int| 0 <= k < actual.tables.len() && (#[trigger] actual.tables[k]).0 == x;
        assert(lower(actual.tables[k].0) == lower(x));
    }
    if d.tables_to_create.contains(x) {
        let k = choose|k: int|
            0 <= k < desired.tables.len() && (#[trigger] desired.tables[k]).0 == x;
        assert(lower(desired.tables[k].0) == lower(x));
    }
    lemma_index_of_list(desired, actual, d.tables_to_rebuild, false, x);
    lemma_index_of_list(desired, actual, d.tables_to_rebuild, true, x);
    lemma_text_of_list(view_texts(desired.views), view_texts(actual.views), x);
    lemma_text_of_list(trigger_texts(desired.triggers), trigger_texts(actual.triggers), x);
    lemma_same_entries(desired.views, view_texts(desired.views), x);
    lemma_same_entries(actual.views, view_texts(actual.views), x);
    lemma_same_entries(desired.triggers, trigger_texts(desired.triggers), x);
    lemma_same_entries(actual.triggers, trigger_texts(actual.triggers), x);
}

proof fn lemma_same_entries<A, B>(a: Seq<(Text, A)>, b: Seq<(Text, B)>, x: Text)
    requires
        keys(a) =~= keys(b),
    ensures
        has_entry(a, x) == has_entry(b, x),
{
    lemma_has_entry(a, x);
    lemma_has_entry(b, x);
}

proof fn lemma_text_of_list(desired: Seq<(Text, Text)>, actual: Seq<(Text, Text)>, x: Text)
    ensures
        created(desired, actual).contains(x) ==> has_entry(desired, x),
        dropped(desired, actual).contains(x) ==> has_entry(actual, x),
{
    let f = creations(actual);
    let g = replacements(actual);
    lemma_gather_contains(desired, f, x);
    lemma_gather_contains(desired, g, x);
    lemma_in_both(gather(desired, g), missing_names(keys(actual), keys(desired)), x);
    lemma_missing(actual, desired, x);
    lemma_has_entry(actual, x);
    if created(desired, actual).contains(x) {
        let k = choose|k: int| 0 <= k < desired.len() && f(#[trigger] desired[k]).contains(x);
        assert(lower(desired[k].0) == lower(x));
    }
    if gather(desired, g).contains(x) {
        let k = choose|k: int| 0 <= k < desired.len() && g(#[trigger] desired[k]).contains(x);
        assert(desired[k].0 == x);
    } else if missing_names(keys(actual), keys(desired)).contains(x) {
        let k = choose|k: int| 0 <= k < actual.len() && (#[trigger] actual[k]).0 == x;
        assert(lower(actual[k].0) == lower(x));
    }
}

proof fn lemma_index_of_list(
    desired: SnapshotModel,
    actual: SnapshotModel,
    rebuilt: Seq<Text>,
    fts: bool,
    x: Text,
)
    ensures
        gather(desired.indexes, index_creations(fts, actual.indexes, rebuilt)).contains(x)
            ==> has_entry(desired.indexes, x),
        (gather(desired.indexes, index_replacements(fts, actual.indexes, rebuilt)) + gather(
            actual.indexes,
            index_removals(fts, desired.indexes),
        )).contains(x) ==> has_entry(actual.indexes, x),
{
    let f = index_creations(fts, actual.indexes, rebuilt);
    let g = index_replacements(fts, actual.indexes, rebuilt);
    let h = index_removals(fts, desired.indexes);
    lemma_gather_contains(desired.indexes, f, x);
    lemma_gather_contains(desired.indexes, g, x);
    lemma_gather_contains(actual.indexes, h, x);
    lemma_in_both(gather(desired.indexes, g), gather(actual.indexes, h), x);
    lemma_has_entry(actual.indexes, x);
    if gather(desired.indexes, f).contains(x) {
        let k = choose|k: int|
            0 <= k < desired.indexes.len() && f(#[trigger] desired.indexes[k]).contains(x);
        assert(lower(desired.indexes[k].0) == lower(x));
    }
    if gather(desired.indexes, g).contains(x) {
        let k = choose|k: int|
            0 <= k < desired.indexes.len() && g(#[trigger] desired.indexes[k]).contains(x);
        assert(desired.indexes[k].0 == x);
    } else if gather(actual.indexes, h).contains(x) {
        let k = choose|k: int|
            0 <= k < actual.indexes.len() && h(#[trigger] actual.indexes[k]).contains(x);
        assert(lower(actual.indexes[k].0) == lower(x));
    }
}

} // verus!
