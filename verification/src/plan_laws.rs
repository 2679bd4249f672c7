//! What holds of every plan.

use vstd::prelude::*;

#[allow(unused_imports)]
use crate::diff::{difference, index_creations, DiffModel};
#[allow(unused_imports)]
use crate::format::{decimal, lemma_decimal_digits, lemma_quoted_ident_injective, quoted_ident};
#[allow(unused_imports)]
use crate::introspect::internal;
#[allow(unused_imports)]
use crate::lists::{
    gather, has_name, lemma_gather_contains, lemma_gather_empty, lemma_mapped_multiset,
    lemma_member, lemma_sorted_set, sorted_set,
};
#[allow(unused_imports)]
use crate::options::HintModel;
#[allow(unused_imports)]
use crate::order::{
    all_held, all_wait, arranged, behind_mentions, behind_needs, item_names,
    lemma_arranged_behind_needs, lemma_arranged_permutes, lemma_staged_behind_mentions,
    lemma_staged_permutes, names_in, staged, ItemModel, NamedModel,
};
#[allow(unused_imports)]
use crate::plan::{
    counter_deletion, drop_statements, first_refusal, first_unfilled, if_in, if_not_protected,
    index_on, name_end, new_table_item, new_table_items, non_transactional, ordered_tables,
    ordered_views, past_if_not_exists, past_keyword, plan_of, protected, rebuild_refusal,
    rebuild_statements, sql_in, temp_name, transactional, trigger_on, unfilled, view_item,
    view_items, with_indexes, with_table_name, with_triggers, with_views,
};
#[allow(unused_imports)]
use crate::schema::{
    index_texts, keys, lemma_distinct, lookup, lower_keys, sorted_keys, table_texts, trigger_texts,
    view_texts, ColumnModel, SnapshotModel, TableModel, ViewModel,
};
#[allow(unused_imports)]
use crate::search::{find, matches_at, past_space, past_word};
#[allow(unused_imports)]
use crate::text::{is_digit_char, is_word_char, lower, lower_char, same_name, Text};

verus! {

// ---------------------------------------------------------------------------
// Nothing to do
// ---------------------------------------------------------------------------

proof fn lemma_nothing_on<M>(s: Seq<(Text, M)>, f: spec_fn((Text, M)) -> Seq<Text>)
    requires
        forall|e: (Text, M)| (#[trigger] f(e)).len() == 0,
    ensures
        sorted_set(Seq::empty() + gather(s, f)) == Seq::<Text>::empty(),
{
    lemma_gather_empty(s, f);
    assert(Seq::<Text>::empty() + gather(s, f) =~= Seq::<Text>::empty());
}

/// Where nothing has to change, there is nothing to run, and no reason to refuse.
pub proof fn lemma_plan_of_nothing(diff: DiffModel, desired: SnapshotModel, actual: SnapshotModel)
    requires
        diff.nothing(),
    ensures
        plan_of(diff, desired, actual).idle(),
        first_refusal(diff.tables_to_rebuild, desired, actual, 0) is None,
{
    let none = Seq::<Text>::empty();
    assert(diff.tables_to_rebuild =~= none);
    assert(diff.triggers_to_drop =~= none);
    assert(diff.triggers_to_create =~= none);
    assert(diff.views_to_drop =~= none);
    assert(diff.views_to_create =~= none);
    assert(diff.indexes_to_drop =~= none);
    assert(diff.indexes_to_create =~= none);
    assert(diff.fts_indexes_to_drop =~= none);
    assert(diff.fts_indexes_to_create =~= none);
    assert(diff.tables_to_create =~= none);
    assert(diff.tables_to_drop =~= none);
    assert forall|t: Text| !has_name(none, t) by {}
    lemma_nothing_on(actual.triggers, trigger_on(none));
    lemma_nothing_on(desired.triggers, trigger_on(none));
    lemma_nothing_on(actual.indexes, index_on(false, none));
    lemma_nothing_on(desired.indexes, index_on(false, none));
    lemma_nothing_on(actual.indexes, index_on(true, none));
    lemma_nothing_on(desired.indexes, index_on(true, none));
    assert(sorted_set(none) =~= none);
    assert(gather(none, if_in(keys(actual.views), true)) =~= none);
    assert(gather(none, if_not_protected()) =~= none);
    assert(new_table_items(none, desired, actual) =~= Seq::empty());
    assert(arranged(Seq::empty()) =~= Seq::empty());
    assert(item_names(Seq::empty()) =~= none);
    assert(view_items(none, desired.views) =~= Seq::empty());
    assert(staged(Seq::empty()) =~= Seq::empty());
    assert(names_in(Seq::empty()) =~= none);
    assert(gather(none, sql_in(table_texts(desired.tables))) =~= none);
    assert(gather(none, sql_in(index_texts(desired.indexes))) =~= none);
    assert(gather(none, sql_in(view_texts(desired.views))) =~= none);
    assert(gather(none, sql_in(trigger_texts(desired.triggers))) =~= none);
    assert(transactional(diff, desired, actual).len() == 0);
    assert(non_transactional(diff, desired, actual).len() == 0);
}

// ---------------------------------------------------------------------------
// Refusals
// ---------------------------------------------------------------------------

/// Whether a rebuild of the table would leave a NOT NULL column without a value.
pub open spec fn leaves_unfilled(
    table: Text,
    desired: SnapshotModel,
    actual: SnapshotModel,
) -> bool {
    match (lookup(desired.tables, table), lookup(actual.tables, table)) {
        (Some(d), Some(a)) => exists|i: int|
            0 <= i < d.columns.len() && unfilled(#[trigger] d.columns[i], a.columns),
        _ => false,
    }
}

proof fn lemma_first_unfilled(desired: Seq<ColumnModel>, actual: Seq<ColumnModel>, i: int)
    requires
        0 <= i <= desired.len(),
    ensures
        match first_unfilled(desired, actual, i) {
            Some(k) => i <= k < desired.len() && unfilled(desired[k], actual),
            None => forall|k: int| i <= k < desired.len() ==> !unfilled(#[trigger] desired[k], actual),
        },
    decreases desired.len() - i,
{
    if i < desired.len() && !unfilled(desired[i], actual) {
        lemma_first_unfilled(desired, actual, i + 1);
    }
}

/// A plan is refused exactly where a rebuild would leave a NOT NULL column without a
/// value.
pub proof fn lemma_refused_iff_unfilled(
    tables: Seq<Text>,
    desired: SnapshotModel,
    actual: SnapshotModel,
)
    ensures
        first_refusal(tables, desired, actual, 0) is Some <==> exists|i: int|
            0 <= i < tables.len() && leaves_unfilled(#[trigger] tables[i], desired, actual),
{
    lemma_first_refusal(tables, desired, actual, 0);
}

proof fn lemma_first_refusal(
    tables: Seq<Text>,
    desired: SnapshotModel,
    actual: SnapshotModel,
    i: int,
)
    requires
        0 <= i <= tables.len(),
    ensures
        first_refusal(tables, desired, actual, i) is Some <==> exists|k: int|
            i <= k < tables.len() && leaves_unfilled(#[trigger] tables[k], desired, actual),
    decreases tables.len() - i,
{
    if i < tables.len() {
        let t = tables[i];
        match (lookup(desired.tables, t), lookup(actual.tables, t)) {
            (Some(d), Some(a)) => {
                lemma_first_unfilled(d.columns, a.columns, 0);
            },
            _ => {},
        }
        assert(rebuild_refusal(t, desired, actual) is Some <==> leaves_unfilled(
            t,
            desired,
            actual,
        ));
        lemma_first_refusal(tables, desired, actual, i + 1);
    }
}

// ---------------------------------------------------------------------------
// Protected tables
// ---------------------------------------------------------------------------

/// What is kept out of snapshots and what no plan may drop are the same tables.
pub proof fn lemma_hidden_tables_are_protected(n: Text)
    ensures
        internal(n) <==> protected(n),
{
}

/// No statement drops a protected table, even where the difference asks for it, and
/// no table that the difference does not ask for.
pub proof fn lemma_protected_tables_stay(diff: DiffModel, n: Text)
    requires
        drop_statements(
            "DROP TABLE IF EXISTS "@,
            gather(diff.tables_to_drop, if_not_protected()),
        ).contains("DROP TABLE IF EXISTS "@ + quoted_ident(n)),
    ensures
        !protected(n),
        diff.tables_to_drop.contains(n),
{
    let prefix = "DROP TABLE IF EXISTS "@;
    let names = gather(diff.tables_to_drop, if_not_protected());
    let all = drop_statements(prefix, names);
    let s = prefix + quoted_ident(n);
    let k = choose|k: int| 0 <= k < all.len() && all[k] == s;
    assert(s.skip(prefix.len() as int) =~= quoted_ident(n));
    assert((prefix + quoted_ident(names[k])).skip(prefix.len() as int) =~= quoted_ident(names[k]));
    lemma_quoted_ident_injective(n, names[k]);
    assert(names.contains(n));
    lemma_gather_contains(diff.tables_to_drop, if_not_protected(), n);
    let f = if_not_protected();
    let i = choose|i: int|
        0 <= i < diff.tables_to_drop.len() && f(#[trigger] diff.tables_to_drop[i]).contains(n);
    assert(f(diff.tables_to_drop[i]).contains(n));
    assert(!protected(diff.tables_to_drop[i]));
    assert(f(diff.tables_to_drop[i]) =~= seq![diff.tables_to_drop[i]]);
}

// ---------------------------------------------------------------------------
// Temporary tables
// ---------------------------------------------------------------------------

/// The rebuilt tables of a plan get different temporary tables.
pub proof fn lemma_temp_names_differ(a: Text, i: nat, b: Text, j: nat)
    requires
        temp_name(a, i) == temp_name(b, j),
    ensures
        a == b,
        i == j,
{
    reveal_strlit("_converge_new_");
    reveal_strlit("_");
    let p = "_converge_new_"@;
    let x = temp_name(a, i);
    let y = temp_name(b, j);
    let di = decimal(i);
    let dj = decimal(j);
    lemma_decimal_digits(i);
    lemma_decimal_digits(j);
    let ui = p.len() + a.len();
    let uj = p.len() + b.len();
    assert(x.len() == ui + 1 + di.len());
    assert(y.len() == uj + 1 + dj.len());
    assert(x[ui as int] == '_');
    assert(y[uj as int] == '_');
    if ui < uj {
        assert(x[uj as int] == di[uj - ui - 1]);
        assert(is_digit_char(di[uj - ui - 1]));
    }
    if uj < ui {
        assert(y[ui as int] == dj[ui - uj - 1]);
        assert(is_digit_char(dj[ui - uj - 1]));
    }
    assert(x.skip(ui as int + 1) =~= di);
    assert(y.skip(uj as int + 1) =~= dj);
    assert(x.subrange(p.len() as int, ui as int) =~= a);
    assert(y.subrange(p.len() as int, uj as int) =~= b);
    assert(crate::format::number(di) == i);
    assert(crate::format::number(dj) == j);
}

// ---------------------------------------------------------------------------
// Orders
// ---------------------------------------------------------------------------

/// The ordered new tables are those to create.
proof fn lemma_new_table_members(
    set: Seq<Text>,
    desired: SnapshotModel,
    actual: SnapshotModel,
)
    ensures
        ({
            let s = arranged(new_table_items(set, desired, actual));
            &&& item_names(s).to_multiset() == set.to_multiset()
            &&& forall|i: int|
                0 <= i < s.len() ==> #[trigger] s[i] == new_table_item(desired, actual, s[i].name)
        }),
{
    let items = new_table_items(set, desired, actual);
    let s = arranged(items);
    lemma_arranged_permutes(items);
    assert forall|i: int| 0 <= i < s.len() implies #[trigger] s[i] == new_table_item(
        desired,
        actual,
        s[i].name,
    ) by {
        lemma_member(s, items, i);
        let k = choose|k: int| 0 <= k < items.len() && items[k] == s[i];
    }
    lemma_mapped_multiset(s, items, |x: ItemModel| x.name);
    assert(item_names(s) =~= s.map_values(|x: ItemModel| x.name));
    assert(item_names(items) =~= items.map_values(|x: ItemModel| x.name));
    assert(item_names(items) =~= set);
}

/// The ordered views are those to create.
proof fn lemma_view_members(views: Seq<Text>, all: Seq<(Text, ViewModel)>)
    ensures
        ({
            let s = staged(view_items(views, all));
            &&& names_in(s).to_multiset() == views.to_multiset()
            &&& forall|i: int| 0 <= i < s.len() ==> #[trigger] s[i] == view_item(all, s[i].name)
        }),
{
    let items = view_items(views, all);
    let s = staged(items);
    lemma_staged_permutes(items);
    assert forall|i: int| 0 <= i < s.len() implies #[trigger] s[i] == view_item(
        all,
        s[i].name,
    ) by {
        lemma_member(s, items, i);
        let k = choose|k: int| 0 <= k < items.len() && items[k] == s[i];
    }
    lemma_mapped_multiset(s, items, |x: NamedModel| x.name);
    assert(names_in(s) =~= s.map_values(|x: NamedModel| x.name));
    assert(names_in(items) =~= items.map_values(|x: NamedModel| x.name));
    assert(names_in(items) =~= views);
}

/// The new tables are those to create, each once, and none comes before a new table
/// that it points to, but for a last part whose tables all point to tables of that
/// part.
pub proof fn lemma_new_tables_in_order(
    to_create: Seq<Text>,
    desired: SnapshotModel,
    actual: SnapshotModel,
) -> (n: int)
    ensures
        ({
            let s = arranged(new_table_items(sorted_set(to_create), desired, actual));
            &&& ordered_tables(to_create, desired, actual) == item_names(s)
            &&& item_names(s).to_multiset() == sorted_set(to_create).to_multiset()
            &&& forall|i: int|
                0 <= i < s.len() ==> #[trigger] s[i] == new_table_item(desired, actual, s[i].name)
            &&& 0 <= n <= s.len()
            &&& behind_needs(s, n)
            &&& all_wait(s.skip(n))
        }),
{
    lemma_new_table_members(sorted_set(to_create), desired, actual);
    lemma_arranged_behind_needs(new_table_items(sorted_set(to_create), desired, actual))
}

/// The views are created each once, and none before another that it mentions, but for
/// a last part whose views all mention views of that part.
pub proof fn lemma_views_in_order(views: Seq<Text>, all: Seq<(Text, ViewModel)>) -> (n: int)
    ensures
        ({
            let s = staged(view_items(views, all));
            &&& ordered_views(views, all) == names_in(s)
            &&& names_in(s).to_multiset() == views.to_multiset()
            &&& forall|i: int| 0 <= i < s.len() ==> #[trigger] s[i] == view_item(all, s[i].name)
            &&& 0 <= n <= s.len()
            &&& behind_mentions(s, n)
            &&& all_held(s.skip(n))
        }),
{
    lemma_view_members(views, all);
    lemma_staged_behind_mentions(view_items(views, all))
}

// ---------------------------------------------------------------------------
// What a rebuild takes along
// ---------------------------------------------------------------------------

/// A rebuild that saves the AUTOINCREMENT counter of its table ends with the deletion
/// of what it saved.
pub proof fn lemma_saved_counter_is_deleted(
    table: Text,
    seq: nat,
    desired: TableModel,
    actual: TableModel,
)
    requires
        actual.has_autoincrement,
    ensures
        rebuild_statements(table, seq, desired, actual).last() == counter_deletion(table),
{
}

/// A named statement is among those gathered for the names.
proof fn lemma_statement_gathered(names: Seq<Text>, texts: Seq<(Text, Text)>, name: Text, k: int)
    requires
        names.contains(name),
        sorted_keys(texts),
        0 <= k < texts.len(),
        same_name(texts[k].0, name),
    ensures
        gather(names, sql_in(texts)).contains(texts[k].1),
{
    lemma_distinct(texts, name, k);
    lemma_gather_contains(names, sql_in(texts), texts[k].1);
    let i = choose|i: int| 0 <= i < names.len() && names[i] == name;
    assert(sql_in(texts)(names[i])[0] == texts[k].1);
}

/// Where a table is rebuilt, every desired view is created anew.
pub proof fn lemma_rebuild_recreates_views(
    diff: DiffModel,
    desired: SnapshotModel,
    actual: SnapshotModel,
    i: int,
)
    requires
        diff.tables_to_rebuild.len() > 0,
        desired.sorted(),
        0 <= i < desired.views.len(),
    ensures
        plan_of(diff, desired, actual).transactional_stmts.contains(desired.views[i].1.sql),
{
    broadcast use vstd::seq_lib::group_to_multiset_ensures;

    let names = with_views(diff.views_to_create, desired.views, diff.tables_to_rebuild);
    let key = desired.views[i].0;
    assert(keys(desired.views)[i] == key);
    lemma_among(diff.views_to_create, keys(desired.views), key);
    let n = lemma_views_in_order(names, desired.views);
    let ordered = ordered_views(names, desired.views);
    assert(names.contains(key));
    assert(names.to_multiset().contains(key));
    let texts = view_texts(desired.views);
    assert(lower_keys(texts) =~= lower_keys(desired.views));
    lemma_statement_gathered(ordered, texts, key, i);
    lemma_parts(diff, desired, actual);
}

/// Where a table is rebuilt, every desired trigger on it is created anew.
pub proof fn lemma_rebuild_recreates_triggers(
    diff: DiffModel,
    desired: SnapshotModel,
    actual: SnapshotModel,
    i: int,
)
    requires
        desired.sorted(),
        0 <= i < desired.triggers.len(),
        same_name(desired.triggers[i].0, desired.triggers[i].1.name),
        has_name(diff.tables_to_rebuild, desired.triggers[i].1.table_name),
    ensures
        plan_of(diff, desired, actual).transactional_stmts.contains(desired.triggers[i].1.sql),
{
    let rebuilt = diff.tables_to_rebuild;
    let found = gather(desired.triggers, trigger_on(rebuilt));
    let name = desired.triggers[i].1.name;
    assert(trigger_on(rebuilt)(desired.triggers[i])[0] == name);
    lemma_gather_contains(desired.triggers, trigger_on(rebuilt), name);
    lemma_among(diff.triggers_to_create, found, name);
    let texts = trigger_texts(desired.triggers);
    assert(lower_keys(texts) =~= lower_keys(desired.triggers));
    lemma_statement_gathered(
        with_triggers(diff.triggers_to_create, desired.triggers, rebuilt),
        texts,
        name,
        i,
    );
    lemma_parts(diff, desired, actual);
}

/// Where a table is rebuilt, every desired index on it is created anew: a full-text
/// index outside transactions, another one inside.
pub proof fn lemma_rebuild_recreates_indexes(
    diff: DiffModel,
    desired: SnapshotModel,
    actual: SnapshotModel,
    i: int,
)
    requires
        desired.sorted(),
        0 <= i < desired.indexes.len(),
        same_name(desired.indexes[i].0, desired.indexes[i].1.name),
        has_name(diff.tables_to_rebuild, desired.indexes[i].1.table_name),
    ensures
        ({
            let plan = plan_of(diff, desired, actual);
            let index = desired.indexes[i].1;
            if index.is_fts {
                plan.non_transactional_stmts.contains(index.sql)
            } else {
                plan.transactional_stmts.contains(index.sql)
            }
        }),
{
    let rebuilt = diff.tables_to_rebuild;
    let index = desired.indexes[i].1;
    let f = index_on(index.is_fts, rebuilt);
    let found = gather(desired.indexes, f);
    let start = if index.is_fts {
        diff.fts_indexes_to_create
    } else {
        diff.indexes_to_create
    };
    assert(f(desired.indexes[i])[0] == index.name);
    lemma_gather_contains(desired.indexes, f, index.name);
    lemma_among(start, found, index.name);
    let texts = index_texts(desired.indexes);
    assert(lower_keys(texts) =~= lower_keys(desired.indexes));
    lemma_statement_gathered(
        with_indexes(start, index.is_fts, desired.indexes, rebuilt),
        texts,
        index.name,
        i,
    );
    lemma_parts(diff, desired, actual);
}

/// Whether every index of the schema is filed under its own name.
pub open spec fn indexes_named(s: SnapshotModel) -> bool {
    forall|i: int|
        0 <= i < s.indexes.len() ==> same_name((#[trigger] s.indexes[i]).0, s.indexes[i].1.name)
}

/// A full-text index is never created inside a transaction, nor another one outside.
pub proof fn lemma_full_text_apart(
    desired: SnapshotModel,
    actual: SnapshotModel,
    hints: Seq<HintModel>,
    fts: bool,
    name: Text,
)
    requires
        desired.sorted(),
        indexes_named(desired),
        ({
            let diff = difference(desired, actual, hints);
            with_indexes(
                if fts {
                    diff.fts_indexes_to_create
                } else {
                    diff.indexes_to_create
                },
                fts,
                desired.indexes,
                diff.tables_to_rebuild,
            ).contains(name)
        }),
    ensures
        lookup(desired.indexes, name) matches Some(index) && index.is_fts == fts,
{
    let diff = difference(desired, actual, hints);
    let rebuilt = diff.tables_to_rebuild;
    let named = index_creations(fts, actual.indexes, rebuilt);
    let on = index_on(fts, rebuilt);
    let first = gather(desired.indexes, named);
    let second = gather(desired.indexes, on);
    lemma_sorted_set(first + second);
    assert((first + second).contains(name));
    let k = choose|k: int| 0 <= k < (first + second).len() && (first + second)[k] == name;
    if k < first.len() {
        assert(first[k] == name);
        lemma_gather_contains(desired.indexes, named, name);
        let i = choose|i: int|
            0 <= i < desired.indexes.len() && named(#[trigger] desired.indexes[i]).contains(name);
        lemma_distinct(desired.indexes, name, i);
    } else {
        assert(second[k - first.len()] == name);
        lemma_gather_contains(desired.indexes, on, name);
        let i = choose|i: int|
            0 <= i < desired.indexes.len() && on(#[trigger] desired.indexes[i]).contains(name);
        lemma_distinct(desired.indexes, name, i);
    }
}

/// What was found is in the sorted list of what was named and what was found.
proof fn lemma_among(named: Seq<Text>, found: Seq<Text>, name: Text)
    requires
        found.contains(name),
    ensures
        sorted_set(named + found).contains(name),
{
    let k = choose|k: int| 0 <= k < found.len() && found[k] == name;
    assert((named + found)[named.len() + k] == name);
    assert((named + found).contains(name));
    lemma_sorted_set(named + found);
}

/// What creates indexes, views and triggers is part of the plan.
proof fn lemma_parts(diff: DiffModel, desired: SnapshotModel, actual: SnapshotModel)
    ensures
        ({
            let rebuilt = diff.tables_to_rebuild;
            let plan = plan_of(diff, desired, actual);
            let indexes = gather(
                with_indexes(diff.indexes_to_create, false, desired.indexes, rebuilt),
                sql_in(index_texts(desired.indexes)),
            );
            let views = gather(
                ordered_views(
                    with_views(diff.views_to_create, desired.views, rebuilt),
                    desired.views,
                ),
                sql_in(view_texts(desired.views)),
            );
            let triggers = gather(
                with_triggers(diff.triggers_to_create, desired.triggers, rebuilt),
                sql_in(trigger_texts(desired.triggers)),
            );
            let fts = gather(
                with_indexes(diff.fts_indexes_to_create, true, desired.indexes, rebuilt),
                sql_in(index_texts(desired.indexes)),
            );
            &&& forall|t: Text|
                indexes.contains(t) || views.contains(t) || triggers.contains(t)
                    ==> #[trigger] plan.transactional_stmts.contains(t)
            &&& forall|t: Text|
                fts.contains(t) ==> #[trigger] plan.non_transactional_stmts.contains(t)
        }),
{
    let rebuilt = diff.tables_to_rebuild;
    let plan = plan_of(diff, desired, actual);
    let indexes = gather(
        with_indexes(diff.indexes_to_create, false, desired.indexes, rebuilt),
        sql_in(index_texts(desired.indexes)),
    );
    let views = gather(
        ordered_views(with_views(diff.views_to_create, desired.views, rebuilt), desired.views),
        sql_in(view_texts(desired.views)),
    );
    let triggers = gather(
        with_triggers(diff.triggers_to_create, desired.triggers, rebuilt),
        sql_in(trigger_texts(desired.triggers)),
    );
    let fts = gather(
        with_indexes(diff.fts_indexes_to_create, true, desired.indexes, rebuilt),
        sql_in(index_texts(desired.indexes)),
    );
    let s = plan.transactional_stmts;
    let v = s.len() - triggers.len() - views.len();
    assert forall|t: Text|
        indexes.contains(t) || views.contains(t) || triggers.contains(
            t,
        ) implies #[trigger] s.contains(t) by {
        if triggers.contains(t) {
            let k = choose|k: int| 0 <= k < triggers.len() && triggers[k] == t;
            assert(s[s.len() - triggers.len() + k] == t);
        } else if views.contains(t) {
            let k = choose|k: int| 0 <= k < views.len() && views[k] == t;
            assert(s[v + k] == t);
        } else {
            let k = choose|k: int| 0 <= k < indexes.len() && indexes[k] == t;
            assert(s[v - indexes.len() + k] == t);
        }
    }
    let w = plan.non_transactional_stmts;
    assert forall|t: Text| fts.contains(t) implies #[trigger] w.contains(t) by {
        let k = choose|k: int| 0 <= k < fts.len() && fts[k] == t;
        assert(w[w.len() - fts.len() + k] == t);
    }
}

// ---------------------------------------------------------------------------
// The statement of the temporary table
// ---------------------------------------------------------------------------

proof fn lemma_past_word_of(head: Text, w: Text, rest: Text)
    requires
        forall|i: int| 0 <= i < w.len() ==> is_word_char(#[trigger] w[i]),
        rest.len() > 0 ==> !is_word_char(rest[0]),
    ensures
        past_word(head + w + rest, head.len() as int) == head.len() + w.len(),
    decreases w.len(),
{
    let t = head + w + rest;
    if w.len() > 0 {
        assert(t[head.len() as int] == w[0]);
        let h = head.push(w[0]);
        let v = w.skip(1);
        assert(h + v + rest =~= t);
        assert forall|i: int| 0 <= i < v.len() implies is_word_char(#[trigger] v[i]) by {
            assert(v[i] == w[i + 1]);
        }
        lemma_past_word_of(h, v, rest);
    } else if rest.len() > 0 {
        assert(t[head.len() as int] == rest[0]);
    }
}

/// A table with a bare name gets the new name in its statement, and nothing else
/// changes.
pub proof fn lemma_bare_name_replaced(w: Text, rest: Text, name: Text)
    requires
        w.len() > 0,
        forall|i: int| 0 <= i < w.len() ==> is_word_char(#[trigger] w[i]),
        rest.len() > 0 ==> !is_word_char(rest[0]),
        lower(w) != "if"@,
    ensures
        with_table_name("CREATE TABLE "@ + w + rest, name) == "CREATE TABLE "@ + quoted_ident(name)
            + rest,
{
    reveal_strlit("CREATE TABLE ");
    reveal_strlit("create table");
    reveal_strlit("if");
    let head = "CREATE TABLE "@;
    let t = head + w + rest;
    let pat = "create table"@;
    assert(lower(t).subrange(0, 12) =~= pat);
    assert(matches_at(lower(t), pat, 0));
    assert(find(lower(t), pat) == Some(0int));
    assert(t[12] == ' ');
    assert(t[13] == w[0]);
    assert(past_space(t, 13) == 13);
    assert(past_space(t, 12) == 13);
    assert(past_keyword(t, 13, "if"@) is None) by {
        if matches_at(lower(t), "if"@, 13) {
            let m = lower(t).subrange(13, 15);
            assert(m[0] == 'i' && m[1] == 'f');
            assert(lower(t)[13] == lower_char(w[0]));
            if w.len() == 1 {
                assert(t[14] == rest[0]);
                assert(lower(t)[14] == lower_char(rest[0]));
            } else if w.len() == 2 {
                assert(t[14] == w[1]);
                assert(lower(w) =~= "if"@);
            } else {
                assert(t[15] == w[2]);
            }
        }
    }
    assert(past_if_not_exists(t, 13) == 13);
    assert(is_word_char(w[0]));
    assert(t[13] != '"');
    lemma_past_word_of(head, w, rest);
    assert(name_end(t, 13) == 13 + w.len());
    assert(t.take(13) =~= head);
    assert(t.skip(13 + w.len() as int) =~= rest);
}

/// So does a table with a bare name behind IF NOT EXISTS.
pub proof fn lemma_bare_name_replaced_if_not_exists(w: Text, rest: Text, name: Text)
    requires
        w.len() > 0,
        forall|i: int| 0 <= i < w.len() ==> is_word_char(#[trigger] w[i]),
        rest.len() > 0 ==> !is_word_char(rest[0]),
    ensures
        with_table_name("CREATE TABLE IF NOT EXISTS "@ + w + rest, name)
            == "CREATE TABLE IF NOT EXISTS "@ + quoted_ident(name) + rest,
{
    reveal_strlit("CREATE TABLE IF NOT EXISTS ");
    reveal_strlit("create table");
    reveal_strlit("if");
    reveal_strlit("not");
    reveal_strlit("exists");
    let head = "CREATE TABLE IF NOT EXISTS "@;
    let t = head + w + rest;
    let pat = "create table"@;
    assert(head.len() == 27);
    assert(lower(t).subrange(0, 12) =~= pat);
    assert(matches_at(lower(t), pat, 0));
    assert(find(lower(t), pat) == Some(0int));
    assert(past_space(t, 13) == 13);
    assert(past_space(t, 12) == 13);
    assert(lower(t).subrange(13, 15) =~= "if"@);
    assert(matches_at(lower(t), "if"@, 13));
    assert(past_space(t, 16) == 16);
    assert(past_space(t, 15) == 16);
    assert(past_keyword(t, 13, "if"@) == Some(16int));
    assert(lower(t).subrange(16, 19) =~= "not"@);
    assert(matches_at(lower(t), "not"@, 16));
    assert(past_space(t, 20) == 20);
    assert(past_space(t, 19) == 20);
    assert(past_keyword(t, 16, "not"@) == Some(20int));
    assert(lower(t).subrange(20, 26) =~= "exists"@);
    assert(matches_at(lower(t), "exists"@, 20));
    assert(t[27] == w[0]);
    assert(is_word_char(w[0]));
    assert(past_space(t, 27) == 27);
    assert(past_space(t, 26) == 27);
    assert(past_keyword(t, 20, "exists"@) == Some(27int));
    assert(past_if_not_exists(t, 13) == 27);
    assert(t[27] != '"');
    lemma_past_word_of(head, w, rest);
    assert(name_end(t, 27) == 27 + w.len());
    assert(t.take(27) =~= head);
    assert(t.skip(27 + w.len() as int) =~= rest);
}

} // verus!
