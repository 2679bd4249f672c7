//! What the text of a schema holds: every statement once, in an order in which the text
//! can be run.

use vstd::prelude::*;

#[allow(unused_imports)]
use crate::introspect::{
    ended, if_no_meta, index_text, lemma_tables_in_order, schema_text, second_parts, table_item,
    tables_by_keys,
};
#[allow(unused_imports)]
use crate::lists::{gather, has_name, lemma_sorted_set, name_index, sorted_set};
#[allow(unused_imports)]
use crate::order::{arranged, item_names, needs_item, waits};
#[allow(unused_imports)]
use crate::plan::sql_in;
#[allow(unused_imports)]
use crate::schema::{
    fk_targets, keys, lemma_distinct, lower_keys, sorted_keys, table_texts, trigger_texts,
    view_texts, SnapshotModel, TableModel,
};
#[allow(unused_imports)]
use crate::statement_laws::{is_named, lemma_gathered_at, lemma_is_named, positions};
#[allow(unused_imports)]
use crate::text::{is_space, lower, same_name, trim_end, Text};

verus! {

// ---------------------------------------------------------------------------
// Statements as text
// ---------------------------------------------------------------------------

/// The statements, each with a semicolon behind it, and empty lines between them.
pub open spec fn script_of(list: Seq<Text>) -> Text
    decreases list.len(),
{
    if list.len() == 0 {
        Seq::empty()
    } else if list.len() == 1 {
        list[0] + ";"@
    } else {
        script_of(list.drop_last()) + "\n\n"@ + list.last() + ";"@
    }
}

/// A text that ends in a semicolon loses just the empty line behind it.
proof fn lemma_trim_empty_line(t: Text)
    requires
        t.len() > 0,
        t.last() == ';',
    ensures
        trim_end(t + "\n\n"@) == t,
{
    reveal_strlit("\n\n");
    let two = t + "\n\n"@;
    let one = two.drop_last();
    assert(two.last() == '\n');
    assert(one.last() == '\n');
    assert(one.drop_last() =~= t);
    assert(is_space('\n'));
    assert(!is_space(';'));
    reveal_with_fuel(trim_end, 3);
}

proof fn lemma_ended_is_script(list: Seq<Text>)
    requires
        list.len() > 0,
    ensures
        ended(list) == script_of(list) + "\n\n"@,
        script_of(list).len() > 0,
        script_of(list).last() == ';',
    decreases list.len(),
{
    reveal_strlit("\n\n");
    reveal_strlit(";\n\n");
    reveal_strlit(";");
    assert(";\n\n"@ =~= ";"@ + "\n\n"@);
    let d = list.drop_last();
    if list.len() > 1 {
        lemma_ended_is_script(d);
        assert(ended(list) =~= script_of(list) + "\n\n"@);
    } else {
        assert(ended(d) =~= Seq::<char>::empty());
        assert(ended(list) =~= script_of(list) + "\n\n"@);
    }
}

proof fn lemma_ended_parts(a: Seq<Text>, b: Seq<Text>)
    ensures
        ended(a + b) == ended(a) + ended(b),
    decreases b.len(),
{
    if b.len() == 0 {
        assert(a + b =~= a);
        assert(ended(a) + ended(b) =~= ended(a));
    } else {
        lemma_ended_parts(a, b.drop_last());
        assert((a + b).drop_last() =~= a + b.drop_last());
        assert(ended(a + b) =~= ended(a) + ended(b));
    }
}

proof fn lemma_trimmed_script(list: Seq<Text>)
    ensures
        trim_end(ended(list)) == script_of(list),
{
    if list.len() > 0 {
        lemma_ended_is_script(list);
        lemma_trim_empty_line(script_of(list));
    }
}

/// A script holds each of its statements with a semicolon behind it, and before that the
/// script of the statements before it.
pub proof fn lemma_script_holds(list: Seq<Text>, k: int) -> (r: (Text, Text))
    requires
        0 <= k < list.len(),
    ensures
        script_of(list) == r.0 + list[k] + ";"@ + r.1,
        k == 0 ==> r.0 == Seq::<char>::empty(),
        k > 0 ==> r.0 == script_of(list.take(k)) + "\n\n"@,
    decreases list.len(),
{
    let d = list.drop_last();
    if k == list.len() - 1 {
        assert(list[k] == list.last());
        if k == 0 {
            assert(script_of(list) =~= Seq::<char>::empty() + list[k] + ";"@
                + Seq::<char>::empty());
            (Seq::empty(), Seq::empty())
        } else {
            assert(list.take(k) =~= d);
            let a = script_of(d) + "\n\n"@;
            assert(script_of(list) =~= a + list[k] + ";"@ + Seq::<char>::empty());
            (a, Seq::empty())
        }
    } else {
        let (a, b) = lemma_script_holds(d, k);
        assert(d[k] == list[k]);
        assert(d.take(k) =~= list.take(k));
        let rest = b + "\n\n"@ + list.last() + ";"@;
        assert(script_of(list) =~= a + list[k] + ";"@ + rest);
        (a, rest)
    }
}

// ---------------------------------------------------------------------------
// Tables
// ---------------------------------------------------------------------------

/// Whether a foreign key of the table points to a table of the name.
pub open spec fn points_to(table: TableModel, name: Text) -> bool {
    exists|f: int|
        0 <= f < table.foreign_keys.len() && lower((#[trigger] table.foreign_keys[f]).to_table)
            == lower(name)
}

/// The targets of the foreign keys, sorted, name the tables that they point to.
pub proof fn lemma_points_to(table: TableModel, name: Text)
    ensures
        has_name(sorted_set(fk_targets(table.foreign_keys)), name) == points_to(table, name),
{
    let targets = fk_targets(table.foreign_keys);
    let set = sorted_set(targets);
    lemma_sorted_set(targets);
    lemma_is_named(set, name);
    if is_named(set, name) {
        let k = choose|k: int| 0 <= k < set.len() && lower(#[trigger] set[k]) == lower(name);
        assert(set.contains(set[k]));
        assert(targets.contains(set[k]));
        let f = choose|f: int| 0 <= f < targets.len() && targets[f] == set[k];
        assert(lower(table.foreign_keys[f].to_table) == lower(name));
    }
    if points_to(table, name) {
        let f = choose|f: int|
            0 <= f < table.foreign_keys.len() && lower((#[trigger] table.foreign_keys[f]).to_table)
                == lower(name);
        assert(targets.contains(targets[f]));
        assert(set.contains(targets[f]));
        let k = choose|k: int| 0 <= k < set.len() && set[k] == targets[f];
        assert(lower(set[k]) == lower(name));
    }
}

/// Gathering one thing for each item is mapping.
proof fn lemma_gather_each<A, B>(s: Seq<A>, f: spec_fn(A) -> Seq<B>, t: Seq<B>)
    requires
        s.len() == t.len(),
        forall|i: int| 0 <= i < s.len() ==> f(#[trigger] s[i]) == seq![t[i]],
    ensures
        gather(s, f) == t,
    decreases s.len(),
{
    if s.len() > 0 {
        let d = s.drop_last();
        assert forall|i: int| 0 <= i < d.len() implies f(#[trigger] d[i]) == seq![t.drop_last()[i]] by {
            assert(d[i] == s[i]);
        }
        lemma_gather_each(d, f, t.drop_last());
        assert(f(s[s.len() - 1]) == seq![t[s.len() - 1]]);
        assert(t =~= t.drop_last() + seq![t.last()]);
    } else {
        assert(t =~= Seq::<B>::empty());
    }
}

/// The order in which a text of the schema names tables: no table comes twice.
proof fn lemma_names_once(tables: Seq<(Text, TableModel)>)
    requires
        sorted_keys(tables),
    ensures
        tables_by_keys(tables).no_duplicates(),
        forall|t: Text|
            #[trigger] tables_by_keys(tables).contains(t) <==> keys(tables).contains(t)
                && !same_name(t, "_schema_meta"@),
{
    broadcast use vstd::seq_lib::group_to_multiset_ensures;

    let f = if_no_meta(tables);
    let items = gather(keys(tables), f);
    let at = lemma_gathered_at(keys(tables), f);
    let n = lemma_tables_in_order(tables);
    let names = item_names(items);
    assert forall|i: int, j: int| 0 <= i < j < names.len() implies names[i] != names[j] by {
        assert(at[i] < at[j]);
        assert(f(keys(tables)[at[i]])[0] == items[i]);
        assert(f(keys(tables)[at[j]])[0] == items[j]);
        if names[i] == names[j] {
            lemma_distinct(tables, names[i], at[i]);
            lemma_distinct(tables, names[i], at[j]);
        }
    }
    assert(names.no_duplicates());
    names.lemma_multiset_has_no_duplicates();
    let all = tables_by_keys(tables);
    assert(all.to_multiset() == names.to_multiset());
    assert forall|x: Text| all.to_multiset().contains(x) implies all.to_multiset().count(x) == 1 by {
        assert(names.to_multiset().contains(x));
    }
    all.lemma_multiset_has_no_duplicates_conv();
    assert forall|t: Text| #[trigger]
        all.contains(t) <==> keys(tables).contains(t) && !same_name(t, "_schema_meta"@) by {
        assert(all.to_multiset().contains(t) <==> names.to_multiset().contains(t));
        assert(names.contains(t) <==> keys(tables).contains(t) && !same_name(t, "_schema_meta"@));
    }
}

/// The places of the tables in the order of the text.
proof fn lemma_text_places(tables: Seq<(Text, TableModel)>) -> (order: Seq<int>)
    requires
        sorted_keys(tables),
    ensures
        order.len() == tables_by_keys(tables).len(),
        forall|i: int|
            0 <= i < order.len() ==> 0 <= #[trigger] order[i] < tables.len()
                && tables[order[i]].0 == tables_by_keys(tables)[i],
{
    let names = tables_by_keys(tables);
    lemma_names_once(tables);
    let order = Seq::new(names.len(), |i: int| name_index(keys(tables), names[i])->0);
    assert forall|i: int| 0 <= i < order.len() implies 0 <= #[trigger] order[i] < tables.len()
        && tables[order[i]].0 == names[i] by {
        assert(names.contains(names[i]));
        let k = choose|k: int| 0 <= k < keys(tables).len() && keys(tables)[k] == names[i];
        lemma_distinct(tables, names[i], k);
    }
    order
}

proof fn lemma_text_statements(tables: Seq<(Text, TableModel)>, order: Seq<int>)
    requires
        sorted_keys(tables),
        order.len() == tables_by_keys(tables).len(),
        forall|i: int|
            0 <= i < order.len() ==> 0 <= #[trigger] order[i] < tables.len()
                && tables[order[i]].0 == tables_by_keys(tables)[i],
    ensures
        gather(tables_by_keys(tables), sql_in(table_texts(tables))) == Seq::new(
            order.len(),
            |i: int| tables[order[i]].1.sql,
        ),
{
    let names = tables_by_keys(tables);
    let texts = table_texts(tables);
    let f = sql_in(texts);
    let list = Seq::new(order.len(), |i: int| tables[order[i]].1.sql);
    assert(lower_keys(texts) =~= lower_keys(tables));
    assert forall|i: int| 0 <= i < names.len() implies f(#[trigger] names[i]) == seq![list[i]] by {
        let k = order[i];
        lemma_distinct(texts, names[i], k);
    }
    lemma_gather_each(names, f, list);
}

proof fn lemma_text_members(tables: Seq<(Text, TableModel)>, order: Seq<int>)
    requires
        sorted_keys(tables),
        order.len() == tables_by_keys(tables).len(),
        forall|i: int|
            0 <= i < order.len() ==> 0 <= #[trigger] order[i] < tables.len()
                && tables[order[i]].0 == tables_by_keys(tables)[i],
    ensures
        order.no_duplicates(),
        forall|k: int|
            0 <= k < tables.len() ==> (order.contains(k) <==> lower((#[trigger] tables[k]).0)
                != lower("_schema_meta"@)),
{
    let names = tables_by_keys(tables);
    lemma_names_once(tables);
    assert forall|i: int, j: int| 0 <= i < order.len() && 0 <= j < order.len() && i != j implies order[i]
        != order[j] by {
        assert(tables[order[i]].0 == names[i]);
        assert(tables[order[j]].0 == names[j]);
    }
    assert forall|k: int| 0 <= k < tables.len() implies (order.contains(k) <==> lower(
        (#[trigger] tables[k]).0,
    ) != lower("_schema_meta"@)) by {
        let t = tables[k].0;
        assert(keys(tables)[k] == t);
        assert(keys(tables).contains(t));
        if order.contains(k) {
            let i = choose|i: int| 0 <= i < order.len() && order[i] == k;
            assert(tables[order[i]].0 == names[i]);
            assert(names.contains(t));
        }
        if !same_name(t, "_schema_meta"@) {
            assert(names.contains(t));
            let i = choose|i: int| 0 <= i < names.len() && names[i] == t;
            assert(tables[order[i]].0 == t);
            lemma_distinct(tables, t, k);
            lemma_distinct(tables, t, order[i]);
            assert(order[i] == k);
        }
    }
}

/// Whether the table at `order[i]` points to one at a place from `n` on.
pub open spec fn points_behind(
    tables: Seq<(Text, TableModel)>,
    order: Seq<int>,
    n: int,
    i: int,
) -> bool {
    exists|j: int|
        n <= j < order.len() && points_to(tables[order[i]].1, tables[#[trigger] order[j]].0)
}

/// The statements of the tables in the text of a schema: those of all tables but the
/// state table, each once. No table comes before one that it points to, but for a last
/// part in which each table points to one of that part.
pub proof fn lemma_tables_of_text(tables: Seq<(Text, TableModel)>) -> (r: (Seq<int>, int))
    requires
        sorted_keys(tables),
    ensures
        ({
            let (order, n) = r;
            &&& gather(tables_by_keys(tables), sql_in(table_texts(tables))) == Seq::new(
                order.len(),
                |i: int| tables[order[i]].1.sql,
            )
            &&& forall|i: int| 0 <= i < order.len() ==> 0 <= #[trigger] order[i] < tables.len()
            &&& order.no_duplicates()
            &&& forall|k: int|
                0 <= k < tables.len() ==> (order.contains(k) <==> lower(
                    (#[trigger] tables[k]).0,
                ) != lower("_schema_meta"@))
            &&& 0 <= n <= order.len()
            &&& forall|i: int|
                0 <= i < n ==> !#[trigger] points_behind(tables, order, i, i)
            &&& forall|i: int|
                n <= i < order.len() ==> #[trigger] points_behind(tables, order, n, i)
        }),
{
    let order = lemma_text_places(tables);
    lemma_text_statements(tables, order);
    lemma_text_members(tables, order);
    let names = tables_by_keys(tables);
    let s = arranged(gather(keys(tables), if_no_meta(tables)));
    let n = lemma_tables_in_order(tables);
    assert forall|i: int, j: int| 0 <= i < order.len() && 0 <= j < order.len() implies needs_item(
        #[trigger] s[i],
        #[trigger] s[j],
    ) == points_to(tables[order[i]].1, tables[order[j]].0) by {
        assert(s[i].name == names[i]);
        assert(s[j].name == names[j]);
        assert(s[i] == table_item(tables, s[i].name));
        assert(tables[order[i]].0 == names[i]);
        assert(tables[order[j]].0 == names[j]);
        lemma_distinct(tables, names[i], order[i]);
        lemma_points_to(tables[order[i]].1, names[j]);
    }
    assert forall|i: int| 0 <= i < n implies !#[trigger] points_behind(tables, order, i, i) by {
        if points_behind(tables, order, i, i) {
            let j = choose|j: int|
                i <= j < order.len() && points_to(
                    tables[order[i]].1,
                    tables[#[trigger] order[j]].0,
                );
            assert(!needs_item(s[i], s[j]));
        }
    }
    assert forall|i: int| n <= i < order.len() implies #[trigger] points_behind(
        tables,
        order,
        n,
        i,
    ) by {
        let rest = s.skip(n);
        assert(rest[i - n] == s[i]);
        assert(waits(rest[i - n], rest));
        let k = choose|k: int| 0 <= k < rest.len() && needs_item(s[i], #[trigger] rest[k]);
        assert(rest[k] == s[n + k]);
        assert(needs_item(s[i], s[n + k]));
        assert(points_to(tables[order[i]].1, tables[order[n + k]].0));
    }
    (order, n)
}

// ---------------------------------------------------------------------------
// The whole text
// ---------------------------------------------------------------------------

/// The statements of a schema in the order of its text: those of the tables, at the given
/// places, of the indexes, of the full-text indexes, of the views and of the triggers.
pub open spec fn statements_of(
    s: SnapshotModel,
    tables: Seq<int>,
    indexes: Seq<int>,
    full_text: Seq<int>,
) -> Seq<Text> {
    Seq::new(tables.len(), |i: int| s.tables[tables[i]].1.sql) + Seq::new(
        indexes.len(),
        |i: int| s.indexes[indexes[i]].1.sql,
    ) + Seq::new(full_text.len(), |i: int| s.indexes[full_text[i]].1.sql) + Seq::new(
        s.views.len(),
        |i: int| s.views[i].1.sql,
    ) + Seq::new(s.triggers.len(), |i: int| s.triggers[i].1.sql)
}

proof fn lemma_indexes_of_text(s: SnapshotModel, fts: bool) -> (at: Seq<int>)
    ensures
        positions(at, s.indexes.len() as int),
        forall|k: int|
            0 <= k < s.indexes.len() ==> (at.contains(k) <==> (#[trigger] s.indexes[k]).1.is_fts
                == fts),
        gather(s.indexes, index_text(fts)) == Seq::new(
            at.len(),
            |i: int| s.indexes[at[i]].1.sql,
        ),
{
    let f = index_text(fts);
    let at = lemma_gathered_at(s.indexes, f);
    let list = gather(s.indexes, f);
    assert forall|i: int| 0 <= i < at.len() implies s.indexes[#[trigger] at[i]].1.sql == list[i]
        && s.indexes[at[i]].1.is_fts == fts by {
        assert(f(s.indexes[at[i]])[0] == list[i]);
    }
    assert(list =~= Seq::new(at.len(), |i: int| s.indexes[at[i]].1.sql));
    assert forall|k: int| 0 <= k < s.indexes.len() implies (at.contains(k) <==> (
    #[trigger] s.indexes[k]).1.is_fts == fts) by {
        if at.contains(k) {
            let i = choose|i: int| 0 <= i < at.len() && at[i] == k;
            assert(s.indexes[at[i]].1.is_fts == fts);
        }
    }
    at
}

/// The text of a schema is the script of all its statements: of every table but the state
/// table, of every index that is no full-text index, of
/// every full-text index, of every view and of every trigger, each once and in this order.
/// No table comes before one that it points to, but for a last part of the tables in which
/// each points to one of that part.
pub proof fn lemma_text_holds_the_schema(s: SnapshotModel) -> (r: (
    Seq<int>,
    Seq<int>,
    Seq<int>,
    int,
))
    requires
        s.sorted(),
    ensures
        ({
            let (tables, indexes, full_text, n) = r;
            &&& schema_text(s) == script_of(statements_of(s, tables, indexes, full_text))
            &&& forall|i: int| 0 <= i < tables.len() ==> 0 <= #[trigger] tables[i] < s.tables.len()
            &&& tables.no_duplicates()
            &&& forall|k: int|
                0 <= k < s.tables.len() ==> (tables.contains(k) <==> lower(
                    (#[trigger] s.tables[k]).0,
                ) != lower("_schema_meta"@))
            &&& 0 <= n <= tables.len()
            &&& forall|i: int|
                0 <= i < n ==> !#[trigger] points_behind(s.tables, tables, i, i)
            &&& forall|i: int|
                n <= i < tables.len() ==> #[trigger] points_behind(s.tables, tables, n, i)
            &&& positions(indexes, s.indexes.len() as int)
            &&& positions(full_text, s.indexes.len() as int)
            &&& forall|k: int|
                0 <= k < s.indexes.len() ==> (full_text.contains(k) <==> (
                #[trigger] s.indexes[k]).1.is_fts)
            &&& forall|k: int|
                0 <= k < s.indexes.len() ==> (indexes.contains(k) <==> !(
                #[trigger] s.indexes[k]).1.is_fts)
        }),
{
    let (tables, n) = lemma_tables_of_text(s.tables);
    let indexes = lemma_indexes_of_text(s, false);
    let full_text = lemma_indexes_of_text(s, true);
    let a = Seq::new(tables.len(), |i: int| s.tables[tables[i]].1.sql);
    let b = Seq::new(indexes.len(), |i: int| s.indexes[indexes[i]].1.sql);
    let c = Seq::new(full_text.len(), |i: int| s.indexes[full_text[i]].1.sql);
    let d = Seq::new(s.views.len(), |i: int| s.views[i].1.sql);
    let e = Seq::new(s.triggers.len(), |i: int| s.triggers[i].1.sql);
    assert(second_parts(view_texts(s.views)) =~= d);
    assert(second_parts(trigger_texts(s.triggers)) =~= e);
    lemma_ended_parts(a, b);
    lemma_ended_parts(a + b, c);
    lemma_ended_parts(a + b + c, d);
    lemma_ended_parts(a + b + c + d, e);
    lemma_trimmed_script(a + b + c + d + e);
    (tables, indexes, full_text, n)
}

/// The text of a schema holds the statement of every trigger with a semicolon behind it,
/// and before that every statement of a table, an index and a view.
pub proof fn lemma_triggers_close_the_text(s: SnapshotModel, k: int) -> (r: (
    Seq<Text>,
    Text,
    Text,
))
    requires
        s.sorted(),
        0 <= k < s.triggers.len(),
    ensures
        ({
            let (before, head, rest) = r;
            &&& schema_text(s) == head + s.triggers[k].1.sql + ";"@ + rest
            &&& before.len() == 0 ==> head == Seq::<char>::empty()
            &&& before.len() > 0 ==> head == script_of(before) + "\n\n"@
            &&& forall|i: int|
                0 <= i < s.tables.len() && lower((#[trigger] s.tables[i]).0) != lower(
                    "_schema_meta"@,
                ) ==> before.contains(s.tables[i].1.sql)
            &&& forall|i: int|
                0 <= i < s.indexes.len() ==> before.contains((#[trigger] s.indexes[i]).1.sql)
            &&& forall|i: int|
                0 <= i < s.views.len() ==> before.contains((#[trigger] s.views[i]).1.sql)
            &&& forall|i: int|
                0 <= i < k ==> before.contains((#[trigger] s.triggers[i]).1.sql)
        }),
{
    let (tables, indexes, full_text, n) = lemma_text_holds_the_schema(s);
    let all = statements_of(s, tables, indexes, full_text);
    let v = tables.len() + indexes.len() + full_text.len();
    let m = v + s.views.len() + k;
    assert(all[m] == s.triggers[k].1.sql);
    let (head, rest) = lemma_script_holds(all, m);
    let before = all.take(m);
    assert forall|i: int|
        0 <= i < s.tables.len() && lower((#[trigger] s.tables[i]).0) != lower(
            "_schema_meta"@,
        ) implies before.contains(s.tables[i].1.sql) by {
        assert(tables.contains(i));
        let q = choose|q: int| 0 <= q < tables.len() && tables[q] == i;
        assert(before[q] == s.tables[i].1.sql);
    }
    assert forall|i: int| 0 <= i < s.indexes.len() implies before.contains(
        (#[trigger] s.indexes[i]).1.sql,
    ) by {
        if s.indexes[i].1.is_fts {
            assert(full_text.contains(i));
            let q = choose|q: int| 0 <= q < full_text.len() && full_text[q] == i;
            assert(before[tables.len() + indexes.len() + q] == s.indexes[i].1.sql);
        } else {
            assert(indexes.contains(i));
            let q = choose|q: int| 0 <= q < indexes.len() && indexes[q] == i;
            assert(before[tables.len() + q] == s.indexes[i].1.sql);
        }
    }
    assert forall|i: int| 0 <= i < s.views.len() implies before.contains(
        (#[trigger] s.views[i]).1.sql,
    ) by {
        assert(before[v + i] == s.views[i].1.sql);
    }
    assert forall|i: int| 0 <= i < k implies before.contains((#[trigger] s.triggers[i]).1.sql) by {
        assert(before[v + s.views.len() + i] == s.triggers[i].1.sql);
    }
    (before, head, rest)
}

/// The text of a schema holds the statement of every view with a semicolon behind it, and
/// before that every statement of a table and an index.
pub proof fn lemma_views_follow_tables(s: SnapshotModel, k: int) -> (r: (Seq<Text>, Text, Text))
    requires
        s.sorted(),
        0 <= k < s.views.len(),
    ensures
        ({
            let (before, head, rest) = r;
            &&& schema_text(s) == head + s.views[k].1.sql + ";"@ + rest
            &&& before.len() == 0 ==> head == Seq::<char>::empty()
            &&& before.len() > 0 ==> head == script_of(before) + "\n\n"@
            &&& forall|i: int|
                0 <= i < s.tables.len() && lower((#[trigger] s.tables[i]).0) != lower(
                    "_schema_meta"@,
                ) ==> before.contains(s.tables[i].1.sql)
            &&& forall|i: int|
                0 <= i < s.indexes.len() ==> before.contains((#[trigger] s.indexes[i]).1.sql)
        }),
{
    let (tables, indexes, full_text, n) = lemma_text_holds_the_schema(s);
    let all = statements_of(s, tables, indexes, full_text);
    let m = tables.len() + indexes.len() + full_text.len() + k;
    assert(all[m] == s.views[k].1.sql);
    let (head, rest) = lemma_script_holds(all, m);
    let before = all.take(m);
    assert forall|i: int|
        0 <= i < s.tables.len() && lower((#[trigger] s.tables[i]).0) != lower(
            "_schema_meta"@,
        ) implies before.contains(s.tables[i].1.sql) by {
        assert(tables.contains(i));
        let q = choose|q: int| 0 <= q < tables.len() && tables[q] == i;
        assert(before[q] == s.tables[i].1.sql);
    }
    assert forall|i: int| 0 <= i < s.indexes.len() implies before.contains(
        (#[trigger] s.indexes[i]).1.sql,
    ) by {
        if s.indexes[i].1.is_fts {
            assert(full_text.contains(i));
            let q = choose|q: int| 0 <= q < full_text.len() && full_text[q] == i;
            assert(before[tables.len() + indexes.len() + q] == s.indexes[i].1.sql);
        } else {
            assert(indexes.contains(i));
            let q = choose|q: int| 0 <= q < indexes.len() && indexes[q] == i;
            assert(before[tables.len() + q] == s.indexes[i].1.sql);
        }
    }
    (before, head, rest)
}

/// The text of a schema holds the statement of every index with a semicolon behind it, and
/// before that every statement of a table.
pub proof fn lemma_indexes_follow_tables(s: SnapshotModel, k: int) -> (r: (
    Seq<Text>,
    Text,
    Text,
))
    requires
        s.sorted(),
        0 <= k < s.indexes.len(),
    ensures
        ({
            let (before, head, rest) = r;
            &&& schema_text(s) == head + s.indexes[k].1.sql + ";"@ + rest
            &&& before.len() == 0 ==> head == Seq::<char>::empty()
            &&& before.len() > 0 ==> head == script_of(before) + "\n\n"@
            &&& forall|i: int|
                0 <= i < s.tables.len() && lower((#[trigger] s.tables[i]).0) != lower(
                    "_schema_meta"@,
                ) ==> before.contains(s.tables[i].1.sql)
        }),
{
    let (tables, indexes, full_text, n) = lemma_text_holds_the_schema(s);
    let all = statements_of(s, tables, indexes, full_text);
    let m = if s.indexes[k].1.is_fts {
        assert(full_text.contains(k));
        let q = choose|q: int| 0 <= q < full_text.len() && full_text[q] == k;
        tables.len() + indexes.len() + q
    } else {
        assert(indexes.contains(k));
        let q = choose|q: int| 0 <= q < indexes.len() && indexes[q] == k;
        tables.len() + q
    };
    assert(all[m] == s.indexes[k].1.sql);
    let (head, rest) = lemma_script_holds(all, m);
    let before = all.take(m);
    assert forall|i: int|
        0 <= i < s.tables.len() && lower((#[trigger] s.tables[i]).0) != lower(
            "_schema_meta"@,
        ) implies before.contains(s.tables[i].1.sql) by {
        assert(tables.contains(i));
        let q = choose|q: int| 0 <= q < tables.len() && tables[q] == i;
        assert(before[q] == s.tables[i].1.sql);
    }
    (before, head, rest)
}

/// The text of a schema holds the statement of every table but the state table, with a
/// semicolon behind it.
pub proof fn lemma_tables_in_text(s: SnapshotModel, k: int) -> (r: (Text, Text))
    requires
        s.sorted(),
        0 <= k < s.tables.len(),
        lower(s.tables[k].0) != lower("_schema_meta"@),
    ensures
        schema_text(s) == r.0 + s.tables[k].1.sql + ";"@ + r.1,
{
    let (tables, indexes, full_text, n) = lemma_text_holds_the_schema(s);
    let all = statements_of(s, tables, indexes, full_text);
    assert(tables.contains(k));
    let q = choose|q: int| 0 <= q < tables.len() && tables[q] == k;
    assert(all[q] == s.tables[k].1.sql);
    lemma_script_holds(all, q)
}

} // verus!
