//! What is read from the rows of a catalogue: every object that is not the database's own,
//! with what the rows say of it.

use vstd::prelude::*;

#[allow(unused_imports)]
use crate::ddl::{checks_in, collated, is_strict_sql, makes_materialized_view, references_in};
#[allow(unused_imports)]
use crate::introspect::{
    batched, column_if_of, column_of, columns_of, index_of, indexes_in, internal, key_slot,
    keys_of, numbered_keys, snapshot_of, table_of, tables_in, trigger_of, triggers_in, unique_mark,
    view_of, views_in, CatalogModel, ColumnRowModel, KeyRowModel, NumberedKey, TableColumnRowModel,
    TableRowsModel, IndexRowsModel, TriggerRowModel, ViewRowModel,
};
#[allow(unused_imports)]
use crate::lists::{gather, lemma_slot_from, slot_from};
#[allow(unused_imports)]
use crate::normalize::normal;
#[allow(unused_imports)]
use crate::policy_laws::{lemma_contains_around, stands_in};
#[allow(unused_imports)]
use crate::schema::{
    inserted, keys, lemma_inserted_sorted, lemma_lookup_inserted, lookup, lower_keys, sorted_keys,
    ColumnModel, ForeignKeyModel, IndexModel, TableModel, TriggerModel, ViewModel,
};
#[allow(unused_imports)]
use crate::search::{contains, ends_with};
#[allow(unused_imports)]
use crate::statement_laws::{begins, lemma_begins, lemma_gathered_at, positions};
#[allow(unused_imports)]
use crate::text::{lower, same_name, trim, Text};

verus! {

// ---------------------------------------------------------------------------
// Reserved names
// ---------------------------------------------------------------------------

/// Whether a name is kept for the database itself, for this library or for an older
/// migration tool, whatever its case.
pub open spec fn is_reserved(name: Text) -> bool {
    let n = lower(name);
    ||| begins(n, "sqlite_"@)
    ||| begins(n, "fts_dir_"@)
    ||| begins(n, "__turso_internal"@)
    ||| begins(n, "_cap_probe_"@)
    ||| begins(n, "_converge_new_"@)
    ||| n == "_schema_meta"@
    ||| n == "_turso_migrations"@
}

/// What is kept out of a snapshot are the objects with reserved names.
pub proof fn lemma_reserved(name: Text)
    ensures
        internal(name) == is_reserved(name),
{
    let n = lower(name);
    lemma_begins(n, "sqlite_"@);
    lemma_begins(n, "fts_dir_"@);
    lemma_begins(n, "__turso_internal"@);
    lemma_begins(n, "_cap_probe_"@);
    lemma_begins(n, "_converge_new_"@);
}

// ---------------------------------------------------------------------------
// Maps
// ---------------------------------------------------------------------------

/// What is looked up is an entry of the name.
proof fn lemma_looked_up<M>(s: Seq<(Text, M)>, name: Text) -> (k: int)
    requires
        lookup(s, name) is Some,
    ensures
        0 <= k < s.len(),
        lower(s[k].0) == lower(name),
        lookup(s, name) == Some(s[k].1),
{
    crate::lists::lemma_name_index(keys(s), name);
    let k = crate::lists::name_index(keys(s), name)->0;
    assert(keys(s)[k] == s[k].0);
    k
}

/// An entry of a map with one more was there before or is the new one.
proof fn lemma_inserted_entries<M>(s: Seq<(Text, M)>, key: Text, value: M, k: int)
    requires
        sorted_keys(s),
        0 <= k < inserted(s, key, value).len(),
    ensures
        ({
            let e = inserted(s, key, value)[k];
            s.contains(e) || lower(e.0) == lower(key) && e.1 == value
        }),
{
    let low = lower_keys(s);
    let q = slot_from(low, lower(key), 0);
    lemma_slot_from(low, lower(key), 0);
    let e = inserted(s, key, value)[k];
    if q < s.len() && same_name(s[q].0, key) {
        if k != q {
            assert(s[k] == e);
        }
    } else if k < q {
        assert(s[k] == e);
    } else if k > q {
        assert(s[k - 1] == e);
    }
}

// ---------------------------------------------------------------------------
// Columns
// ---------------------------------------------------------------------------

/// Whether two columns are the same in everything but the collation.
pub open spec fn same_but_for_collation(a: ColumnModel, b: ColumnModel) -> bool {
    &&& a.name == b.name
    &&& a.col_type == b.col_type
    &&& a.notnull == b.notnull
    &&& a.default_value == b.default_value
    &&& a.pk == b.pk
    &&& a.is_generated == b.is_generated
    &&& a.is_hidden == b.is_hidden
}

/// A row of a column gives the column its name, type, default and place in the primary
/// key as they stand there. A number other than 0 says that it must not be null. The mark
/// 1 hides it, and the marks 2 and 3 say that it is generated.
pub proof fn lemma_column_row(rows: Seq<ColumnRowModel>, i: int)
    requires
        0 <= i < rows.len(),
    ensures
        columns_of(rows).len() == rows.len(),
        ({
            let row = rows[i];
            let c = columns_of(rows)[i];
            &&& c.name == row.name
            &&& c.col_type == row.col_type
            &&& c.default_value == row.default_value
            &&& c.pk == row.pk
            &&& c.collation is None
            &&& c.notnull <==> row.notnull != 0
            &&& c.is_hidden <==> row.hidden == 1
            &&& c.is_generated <==> row.hidden == 2 || row.hidden == 3
        }),
{
}

/// The columns of a table among the rows of all tables are those of the rows that name the
/// table, up to ASCII case, in their order.
pub proof fn lemma_batched_columns(rows: Seq<TableColumnRowModel>, table: Text) -> (at: Seq<int>)
    ensures
        positions(at, rows.len() as int),
        batched(rows, table).len() == at.len(),
        forall|i: int|
            0 <= i < at.len() ==> batched(rows, table)[i] == column_of(
                rows[#[trigger] at[i]].column,
            ),
        forall|k: int|
            0 <= k < rows.len() ==> (at.contains(k) <==> lower((#[trigger] rows[k]).table_name)
                == lower(table)),
{
    let f = column_if_of(table);
    let at = lemma_gathered_at(rows, f);
    assert forall|k: int| 0 <= k < rows.len() implies (at.contains(k) <==> lower(
        (#[trigger] rows[k]).table_name,
    ) == lower(table)) by {
        if at.contains(k) {
            let i = choose|i: int| 0 <= i < at.len() && at[i] == k;
            assert(f(rows[at[i]]).len() == 1);
        }
    }
    assert forall|i: int| 0 <= i < at.len() implies batched(rows, table)[i] == column_of(
        rows[#[trigger] at[i]].column,
    ) by {
        assert(f(rows[at[i]])[0] == gather(rows, f)[i]);
    }
    at
}

/// The first mark that is listed for an index decides whether it is unique; without one it
/// is not.
pub proof fn lemma_unique_mark(rows: Seq<(Text, i64)>, name: Text, k: int)
    requires
        0 <= k < rows.len(),
        rows[k].0 == name,
        forall|j: int| 0 <= j < k ==> (#[trigger] rows[j]).0 != name,
    ensures
        unique_mark(rows, name, 0) == (rows[k].1 != 0),
{
    lemma_mark_from(rows, name, k, 0);
}

proof fn lemma_mark_from(rows: Seq<(Text, i64)>, name: Text, k: int, i: int)
    requires
        0 <= i <= k < rows.len(),
        rows[k].0 == name,
        forall|j: int| 0 <= j < k ==> (#[trigger] rows[j]).0 != name,
    ensures
        unique_mark(rows, name, i) == (rows[k].1 != 0),
    decreases k - i,
{
    if i < k {
        assert(rows[i].0 != name);
        lemma_mark_from(rows, name, k, i + 1);
    }
}

// ---------------------------------------------------------------------------
// Foreign keys
// ---------------------------------------------------------------------------

/// The rows with a number, in their order.
pub open spec fn rows_of_key(rows: Seq<KeyRowModel>, id: i64) -> Seq<KeyRowModel>
    decreases rows.len(),
{
    if rows.len() == 0 {
        Seq::empty()
    } else if rows.last().id == id {
        rows_of_key(rows.drop_last(), id).push(rows.last())
    } else {
        rows_of_key(rows.drop_last(), id)
    }
}

/// Whether a key is what its rows say: from and to their columns, in their order, with the
/// table and the actions of the first of them.
pub open spec fn is_key_of(key: ForeignKeyModel, rows: Seq<KeyRowModel>) -> bool {
    &&& rows.len() > 0
    &&& key.to_table == rows[0].to_table
    &&& key.on_delete == rows[0].on_delete
    &&& key.on_update == rows[0].on_update
    &&& key.from_columns.len() == rows.len()
    &&& key.to_columns.len() == rows.len()
    &&& forall|i: int| 0 <= i < rows.len() ==> #[trigger] key.from_columns[i] == rows[i].from_column
    &&& forall|i: int| 0 <= i < rows.len() ==> #[trigger] key.to_columns[i] == rows[i].to_column
}

proof fn lemma_key_slot(s: Seq<NumberedKey>, id: i64, i: int)
    requires
        0 <= i <= s.len(),
        forall|j: int| 0 <= j < i ==> (#[trigger] s[j]).id < id,
    ensures
        ({
            let k = key_slot(s, id, i);
            &&& i <= k <= s.len()
            &&& forall|j: int| 0 <= j < k ==> (#[trigger] s[j]).id < id
            &&& k < s.len() ==> s[k].id >= id
        }),
    decreases s.len() - i,
{
    if i < s.len() && s[i].id < id {
        lemma_key_slot(s, id, i + 1);
    }
}

/// The keys have increasing numbers, each is what its rows say, and every row has one.
proof fn lemma_numbered(rows: Seq<KeyRowModel>)
    ensures
        ({
            let s = numbered_keys(rows);
            &&& forall|i: int, j: int| 0 <= i < j < s.len() ==> (#[trigger] s[i]).id < (
                #[trigger] s[j]).id
            &&& forall|i: int|
                0 <= i < s.len() ==> is_key_of(
                    (#[trigger] s[i]).key,
                    rows_of_key(rows, s[i].id),
                )
            &&& forall|r: int|
                0 <= r < rows.len() ==> exists|i: int|
                    0 <= i < s.len() && (#[trigger] s[i]).id == (#[trigger] rows[r]).id
        }),
    decreases rows.len(),
{
    if rows.len() > 0 {
        let d = rows.drop_last();
        let r = rows.last();
        lemma_numbered(d);
        let t = numbered_keys(d);
        let s = numbered_keys(rows);
        let k = key_slot(t, r.id, 0);
        lemma_key_slot(t, r.id, 0);
        let there = k < t.len() && t[k].id == r.id;
        if !there {
            assert(rows_of_key(d, r.id).len() == 0) by {
                if rows_of_key(d, r.id).len() > 0 {
                    let q = lemma_row_of_key(d, r.id);
                    let i = choose|i: int| 0 <= i < t.len() && (#[trigger] t[i]).id == d[q].id;
                    if i > k {
                        assert(t[k].id < t[i].id);
                    }
                }
            }
        }
        assert forall|i: int, j: int| 0 <= i < j < s.len() implies (#[trigger] s[i]).id < (
        #[trigger] s[j]).id by {
            if there {
                assert(s[i].id == t[i].id && s[j].id == t[j].id);
            } else {
                if i < k {
                    assert(s[i] == t[i]);
                } else if i > k {
                    assert(s[i] == t[i - 1]);
                }
                if j < k {
                    assert(s[j] == t[j]);
                } else if j > k {
                    assert(s[j] == t[j - 1]);
                    if i == k && j - 1 > k {
                        assert(t[k].id < t[j - 1].id);
                    }
                }
            }
        }
        assert forall|i: int| 0 <= i < s.len() implies is_key_of(
            (#[trigger] s[i]).key,
            rows_of_key(rows, s[i].id),
        ) by {
            if there {
                if i == k {
                    assert(is_key_of(t[k].key, rows_of_key(d, r.id)));
                } else {
                    assert(s[i] == t[i]);
                    assert(is_key_of(t[i].key, rows_of_key(d, t[i].id)));
                    if i < k {
                        assert(t[i].id < t[k].id);
                    } else {
                        assert(t[k].id < t[i].id);
                    }
                }
            } else if i < k {
                assert(s[i] == t[i]);
                assert(is_key_of(t[i].key, rows_of_key(d, t[i].id)));
            } else if i > k {
                assert(s[i] == t[i - 1]);
                assert(is_key_of(t[i - 1].key, rows_of_key(d, t[i - 1].id)));
                if i - 1 > k {
                    assert(t[k].id < t[i - 1].id);
                }
            }
        }
        assert(s[k].id == r.id);
        assert forall|q: int| 0 <= q < rows.len() implies exists|i: int|
            0 <= i < s.len() && (#[trigger] s[i]).id == (#[trigger] rows[q]).id by {
            if q < d.len() {
                assert(d[q] == rows[q]);
                let i = choose|i: int| 0 <= i < t.len() && (#[trigger] t[i]).id == d[q].id;
                let m = if there || i < k {
                    i
                } else {
                    i + 1
                };
                assert(s[m].id == rows[q].id);
            } else {
                assert(s[k].id == rows[q].id);
            }
        }
    }
}

proof fn lemma_row_of_key(rows: Seq<KeyRowModel>, id: i64) -> (q: int)
    requires
        rows_of_key(rows, id).len() > 0,
    ensures
        0 <= q < rows.len(),
        rows[q].id == id,
    decreases rows.len(),
{
    if rows.last().id == id {
        rows.len() - 1
    } else {
        lemma_row_of_key(rows.drop_last(), id)
    }
}

/// The foreign keys of a table: one for each number among the rows, in the order of the
/// numbers, and each is what its rows say.
pub proof fn lemma_keys_of_rows(rows: Seq<KeyRowModel>) -> (ids: Seq<i64>)
    ensures
        keys_of(rows).len() == ids.len(),
        forall|i: int, j: int| 0 <= i < j < ids.len() ==> #[trigger] ids[i] < #[trigger] ids[j],
        forall|i: int|
            0 <= i < ids.len() ==> is_key_of(
                keys_of(rows)[i],
                rows_of_key(rows, #[trigger] ids[i]),
            ),
        forall|r: int| 0 <= r < rows.len() ==> ids.contains((#[trigger] rows[r]).id),
{
    let s = numbered_keys(rows);
    lemma_numbered(rows);
    let ids = Seq::new(s.len(), |i: int| s[i].id);
    assert forall|i: int| 0 <= i < ids.len() implies is_key_of(
        keys_of(rows)[i],
        rows_of_key(rows, #[trigger] ids[i]),
    ) by {
        assert(is_key_of(s[i].key, rows_of_key(rows, s[i].id)));
    }
    assert forall|r: int| 0 <= r < rows.len() implies ids.contains((#[trigger] rows[r]).id) by {
        let i = choose|i: int| 0 <= i < s.len() && (#[trigger] s[i]).id == rows[r].id;
        assert(ids[i] == rows[r].id);
    }
    ids
}

proof fn lemma_key_of_row(rows: Seq<KeyRowModel>, r: int)
    requires
        0 <= r < rows.len(),
    ensures
        keys_of(rows).len() > 0,
{
    let ids = lemma_keys_of_rows(rows);
    assert(ids.contains(rows[r].id));
}

// ---------------------------------------------------------------------------
// Strict tables
// ---------------------------------------------------------------------------

/// Whether the text ends in `tail`.
pub open spec fn closes(t: Text, tail: Text) -> bool {
    exists|head: Text| t == #[trigger] (head + tail)
}

proof fn lemma_closes(t: Text, tail: Text)
    ensures
        ends_with(t, tail) == closes(t, tail),
{
    if ends_with(t, tail) {
        let k = t.len() - tail.len();
        assert(t =~= t.take(k) + t.subrange(k, k + tail.len()));
        assert(t == t.take(k) + tail);
    }
    if closes(t, tail) {
        let head = choose|head: Text| t == #[trigger] (head + tail);
        let k = t.len() - tail.len();
        assert(k == head.len());
        assert(t.subrange(k, k + tail.len()) =~= tail);
    }
}

/// Whether a statement says STRICT behind the parenthesis that closes its columns: at its
/// end, before a semicolon at its end, or before a comma.
pub open spec fn says_strict(sql: Text) -> bool {
    let t = lower(trim(sql));
    ||| closes(t, ")strict"@)
    ||| closes(t, ") strict"@)
    ||| closes(t, ")strict;"@)
    ||| closes(t, ") strict;"@)
    ||| stands_in(") strict,"@, t)
}

proof fn lemma_says_strict(sql: Text)
    ensures
        is_strict_sql(sql) == says_strict(sql),
{
    let t = lower(trim(sql));
    lemma_closes(t, ")strict"@);
    lemma_closes(t, ") strict"@);
    lemma_closes(t, ")strict;"@);
    lemma_closes(t, ") strict;"@);
    lemma_contains_around(t, ") strict,"@);
}

// ---------------------------------------------------------------------------
// Tables
// ---------------------------------------------------------------------------

proof fn lemma_tables_sorted(rows: Seq<TableRowsModel>, n: int)
    requires
        0 <= n <= rows.len(),
    ensures
        sorted_keys(tables_in(rows, n)),
    decreases n,
{
    if n > 0 {
        lemma_tables_sorted(rows, n - 1);
        lemma_inserted_sorted(tables_in(rows, n - 1), rows[n - 1].name, table_of(rows[n - 1]));
    }
}

proof fn lemma_table_kept(rows: Seq<TableRowsModel>, n: int, i: int)
    requires
        0 <= i < n <= rows.len(),
        !is_reserved(rows[i].name),
        forall|j: int| i < j < n ==> lower((#[trigger] rows[j]).name) != lower(rows[i].name),
    ensures
        lookup(tables_in(rows, n), rows[i].name) == Some(table_of(rows[i])),
    decreases n,
{
    let before = tables_in(rows, n - 1);
    lemma_tables_sorted(rows, n - 1);
    lemma_reserved(rows[n - 1].name);
    lemma_lookup_inserted(before, rows[n - 1].name, table_of(rows[n - 1]), rows[i].name);
    if i < n - 1 {
        assert(lower(rows[n - 1].name) != lower(rows[i].name));
        lemma_table_kept(rows, n - 1, i);
    }
}

/// A table of the catalogue is in the snapshot, as its rows describe it, unless its name
/// is reserved or a later one has the same name.
pub proof fn lemma_table_is_read(c: CatalogModel, i: int) -> (k: int)
    requires
        0 <= i < c.tables.len(),
        !is_reserved(c.tables[i].name),
        forall|j: int|
            i < j < c.tables.len() ==> lower((#[trigger] c.tables[j]).name) != lower(
                c.tables[i].name,
            ),
    ensures
        ({
            let row = c.tables[i];
            let x = snapshot_of(c).tables[k];
            &&& 0 <= k < snapshot_of(c).tables.len()
            &&& lower(x.0) == lower(row.name)
            &&& x.1.name == row.name
            &&& x.1.sql == row.sql
            &&& x.1.columns.len() == row.columns.len()
            &&& forall|j: int|
                0 <= j < row.columns.len() ==> same_but_for_collation(
                    #[trigger] x.1.columns[j],
                    row.columns[j],
                ) && x.1.columns[j] == collated(row.sql, row.columns[j])
            &&& x.1.check_constraints.to_multiset() == checks_in(
                normal(row.sql),
                true,
            ).to_multiset()
            &&& x.1.has_autoincrement <==> stands_in("autoincrement"@, lower(row.sql))
            &&& x.1.is_without_rowid <==> stands_in("without rowid"@, lower(row.sql))
            &&& x.1.is_strict <==> says_strict(row.sql)
            &&& row.keys.len() > 0 ==> x.1.foreign_keys == keys_of(row.keys)
            &&& row.keys.len() == 0 ==> x.1.foreign_keys.len() == references_in(row.sql, true).len()
            &&& row.keys.len() == 0 ==> forall|j: int|
                0 <= j < x.1.foreign_keys.len() ==> {
                    let key = #[trigger] x.1.foreign_keys[j];
                    &&& key.to_table == references_in(row.sql, true)[j]
                    &&& key.from_columns.len() == 0
                    &&& key.to_columns.len() == 0
                    &&& key.on_delete == "NO ACTION"@
                    &&& key.on_update == "NO ACTION"@
                }
        }),
{
    lemma_table_kept(c.tables, c.tables.len() as int, i);
    let row = c.tables[i];
    lemma_contains_around(lower(row.sql), "autoincrement"@);
    lemma_contains_around(lower(row.sql), "without rowid"@);
    lemma_says_strict(row.sql);
    crate::ddl_laws::lemma_sorted_list(checks_in(normal(row.sql), true));
    if row.keys.len() > 0 {
        lemma_key_of_row(row.keys, 0);
    }
    lemma_looked_up(snapshot_of(c).tables, c.tables[i].name)
}

/// What the snapshot holds as a table is one of the catalogue whose name is not
/// reserved.
pub proof fn lemma_table_was_there(c: CatalogModel, k: int) -> (i: int)
    requires
        0 <= k < snapshot_of(c).tables.len(),
    ensures
        0 <= i < c.tables.len(),
        lower(snapshot_of(c).tables[k].0) == lower(c.tables[i].name),
        snapshot_of(c).tables[k].1.name == c.tables[i].name,
        snapshot_of(c).tables[k].1.sql == c.tables[i].sql,
        !is_reserved(c.tables[i].name),
{
    lemma_table_source(c.tables, c.tables.len() as int, snapshot_of(c).tables[k])
}

proof fn lemma_table_source(rows: Seq<TableRowsModel>, n: int, e: (Text, TableModel)) -> (i: int)
    requires
        0 <= n <= rows.len(),
        tables_in(rows, n).contains(e),
    ensures
        0 <= i < n,
        lower(e.0) == lower(rows[i].name),
        e.1 == table_of(rows[i]),
        !is_reserved(rows[i].name),
    decreases n,
{
    let before = tables_in(rows, n - 1);
    let now = tables_in(rows, n);
    let k = choose|k: int| 0 <= k < now.len() && now[k] == e;
    lemma_tables_sorted(rows, n - 1);
    lemma_reserved(rows[n - 1].name);
    if before.contains(e) {
        lemma_table_source(rows, n - 1, e)
    } else {
        lemma_inserted_entries(before, rows[n - 1].name, table_of(rows[n - 1]), k);
        n - 1
    }
}

// ---------------------------------------------------------------------------
// Indexes
// ---------------------------------------------------------------------------

proof fn lemma_indexes_sorted(rows: Seq<IndexRowsModel>, n: int)
    requires
        0 <= n <= rows.len(),
    ensures
        sorted_keys(indexes_in(rows, n)),
    decreases n,
{
    if n > 0 {
        lemma_indexes_sorted(rows, n - 1);
        lemma_inserted_sorted(indexes_in(rows, n - 1), rows[n - 1].name, index_of(rows[n - 1]));
    }
}

proof fn lemma_index_kept(rows: Seq<IndexRowsModel>, n: int, i: int)
    requires
        0 <= i < n <= rows.len(),
        !is_reserved(rows[i].name),
        !is_reserved(rows[i].table_name),
        forall|j: int| i < j < n ==> lower((#[trigger] rows[j]).name) != lower(rows[i].name),
    ensures
        lookup(indexes_in(rows, n), rows[i].name) == Some(index_of(rows[i])),
    decreases n,
{
    let before = indexes_in(rows, n - 1);
    lemma_indexes_sorted(rows, n - 1);
    lemma_reserved(rows[n - 1].name);
    lemma_reserved(rows[n - 1].table_name);
    lemma_lookup_inserted(before, rows[n - 1].name, index_of(rows[n - 1]), rows[i].name);
    if i < n - 1 {
        assert(lower(rows[n - 1].name) != lower(rows[i].name));
        lemma_index_kept(rows, n - 1, i);
    }
}

/// A index of the catalogue is in the snapshot, as its rows describe it, unless its name or
/// the name of its table
/// is reserved or a later one has the same name.
pub proof fn lemma_index_is_read(c: CatalogModel, i: int) -> (k: int)
    requires
        0 <= i < c.indexes.len(),
        !is_reserved(c.indexes[i].name),
        !is_reserved(c.indexes[i].table_name),
        forall|j: int|
            i < j < c.indexes.len() ==> lower((#[trigger] c.indexes[j]).name) != lower(
                c.indexes[i].name,
            ),
    ensures
        ({
            let row = c.indexes[i];
            let x = snapshot_of(c).indexes[k];
            &&& 0 <= k < snapshot_of(c).indexes.len()
            &&& lower(x.0) == lower(row.name)
            &&& x.1.name == row.name
            &&& x.1.table_name == row.table_name
            &&& x.1.sql == row.sql
            &&& x.1.is_unique == row.is_unique
            &&& x.1.columns == row.columns
            &&& x.1.is_fts <==> stands_in("using fts"@, lower(row.sql))
        }),
{
    lemma_index_kept(c.indexes, c.indexes.len() as int, i);
    lemma_contains_around(lower(c.indexes[i].sql), "using fts"@);
    lemma_looked_up(snapshot_of(c).indexes, c.indexes[i].name)
}

/// What the snapshot holds as a index is one of the catalogue whose name or
/// the name of its table is not
/// reserved.
pub proof fn lemma_index_was_there(c: CatalogModel, k: int) -> (i: int)
    requires
        0 <= k < snapshot_of(c).indexes.len(),
    ensures
        0 <= i < c.indexes.len(),
        lower(snapshot_of(c).indexes[k].0) == lower(c.indexes[i].name),
        snapshot_of(c).indexes[k].1.name == c.indexes[i].name,
        snapshot_of(c).indexes[k].1.sql == c.indexes[i].sql,
        !is_reserved(c.indexes[i].name),
        !is_reserved(c.indexes[i].table_name),
{
    lemma_index_source(c.indexes, c.indexes.len() as int, snapshot_of(c).indexes[k])
}

proof fn lemma_index_source(rows: Seq<IndexRowsModel>, n: int, e: (Text, IndexModel)) -> (i: int)
    requires
        0 <= n <= rows.len(),
        indexes_in(rows, n).contains(e),
    ensures
        0 <= i < n,
        lower(e.0) == lower(rows[i].name),
        e.1 == index_of(rows[i]),
        !is_reserved(rows[i].name),
        !is_reserved(rows[i].table_name),
    decreases n,
{
    let before = indexes_in(rows, n - 1);
    let now = indexes_in(rows, n);
    let k = choose|k: int| 0 <= k < now.len() && now[k] == e;
    lemma_indexes_sorted(rows, n - 1);
    lemma_reserved(rows[n - 1].name);
    lemma_reserved(rows[n - 1].table_name);
    if before.contains(e) {
        lemma_index_source(rows, n - 1, e)
    } else {
        lemma_inserted_entries(before, rows[n - 1].name, index_of(rows[n - 1]), k);
        n - 1
    }
}

// ---------------------------------------------------------------------------
// Views
// ---------------------------------------------------------------------------

proof fn lemma_views_sorted(rows: Seq<ViewRowModel>, n: int)
    requires
        0 <= n <= rows.len(),
    ensures
        sorted_keys(views_in(rows, n)),
    decreases n,
{
    if n > 0 {
        lemma_views_sorted(rows, n - 1);
        lemma_inserted_sorted(views_in(rows, n - 1), rows[n - 1].name, view_of(rows[n - 1]));
    }
}

proof fn lemma_view_kept(rows: Seq<ViewRowModel>, n: int, i: int)
    requires
        0 <= i < n <= rows.len(),
        !is_reserved(rows[i].name),
        forall|j: int| i < j < n ==> lower((#[trigger] rows[j]).name) != lower(rows[i].name),
    ensures
        lookup(views_in(rows, n), rows[i].name) == Some(view_of(rows[i])),
    decreases n,
{
    let before = views_in(rows, n - 1);
    lemma_views_sorted(rows, n - 1);
    lemma_reserved(rows[n - 1].name);
    lemma_lookup_inserted(before, rows[n - 1].name, view_of(rows[n - 1]), rows[i].name);
    if i < n - 1 {
        assert(lower(rows[n - 1].name) != lower(rows[i].name));
        lemma_view_kept(rows, n - 1, i);
    }
}

/// A view of the catalogue is in the snapshot, as its rows describe it, unless its name
/// is reserved or a later one has the same name.
pub proof fn lemma_view_is_read(c: CatalogModel, i: int) -> (k: int)
    requires
        0 <= i < c.views.len(),
        !is_reserved(c.views[i].name),
        forall|j: int|
            i < j < c.views.len() ==> lower((#[trigger] c.views[j]).name) != lower(
                c.views[i].name,
            ),
    ensures
        ({
            let row = c.views[i];
            let x = snapshot_of(c).views[k];
            &&& 0 <= k < snapshot_of(c).views.len()
            &&& lower(x.0) == lower(row.name)
            &&& x.1.name == row.name
            &&& x.1.sql == row.sql
            &&& x.1.is_materialized == makes_materialized_view(row.sql)
        }),
{
    lemma_view_kept(c.views, c.views.len() as int, i);
    lemma_looked_up(snapshot_of(c).views, c.views[i].name)
}

/// What the snapshot holds as a view is one of the catalogue whose name is not
/// reserved.
pub proof fn lemma_view_was_there(c: CatalogModel, k: int) -> (i: int)
    requires
        0 <= k < snapshot_of(c).views.len(),
    ensures
        0 <= i < c.views.len(),
        lower(snapshot_of(c).views[k].0) == lower(c.views[i].name),
        snapshot_of(c).views[k].1.name == c.views[i].name,
        snapshot_of(c).views[k].1.sql == c.views[i].sql,
        !is_reserved(c.views[i].name),
{
    lemma_view_source(c.views, c.views.len() as int, snapshot_of(c).views[k])
}

proof fn lemma_view_source(rows: Seq<ViewRowModel>, n: int, e: (Text, ViewModel)) -> (i: int)
    requires
        0 <= n <= rows.len(),
        views_in(rows, n).contains(e),
    ensures
        0 <= i < n,
        lower(e.0) == lower(rows[i].name),
        e.1 == view_of(rows[i]),
        !is_reserved(rows[i].name),
    decreases n,
{
    let before = views_in(rows, n - 1);
    let now = views_in(rows, n);
    let k = choose|k: int| 0 <= k < now.len() && now[k] == e;
    lemma_views_sorted(rows, n - 1);
    lemma_reserved(rows[n - 1].name);
    if before.contains(e) {
        lemma_view_source(rows, n - 1, e)
    } else {
        lemma_inserted_entries(before, rows[n - 1].name, view_of(rows[n - 1]), k);
        n - 1
    }
}

// ---------------------------------------------------------------------------
// Triggers
// ---------------------------------------------------------------------------

proof fn lemma_triggers_sorted(rows: Seq<TriggerRowModel>, n: int)
    requires
        0 <= n <= rows.len(),
    ensures
        sorted_keys(triggers_in(rows, n)),
    decreases n,
{
    if n > 0 {
        lemma_triggers_sorted(rows, n - 1);
        lemma_inserted_sorted(triggers_in(rows, n - 1), rows[n - 1].name, trigger_of(rows[n - 1]));
    }
}

proof fn lemma_trigger_kept(rows: Seq<TriggerRowModel>, n: int, i: int)
    requires
        0 <= i < n <= rows.len(),
        !is_reserved(rows[i].name),
        !is_reserved(rows[i].table_name),
        forall|j: int| i < j < n ==> lower((#[trigger] rows[j]).name) != lower(rows[i].name),
    ensures
        lookup(triggers_in(rows, n), rows[i].name) == Some(trigger_of(rows[i])),
    decreases n,
{
    let before = triggers_in(rows, n - 1);
    lemma_triggers_sorted(rows, n - 1);
    lemma_reserved(rows[n - 1].name);
    lemma_reserved(rows[n - 1].table_name);
    lemma_lookup_inserted(before, rows[n - 1].name, trigger_of(rows[n - 1]), rows[i].name);
    if i < n - 1 {
        assert(lower(rows[n - 1].name) != lower(rows[i].name));
        lemma_trigger_kept(rows, n - 1, i);
    }
}

/// A trigger of the catalogue is in the snapshot, as its rows describe it, unless its name or
/// the name of its table
/// is reserved or a later one has the same name.
pub proof fn lemma_trigger_is_read(c: CatalogModel, i: int) -> (k: int)
    requires
        0 <= i < c.triggers.len(),
        !is_reserved(c.triggers[i].name),
        !is_reserved(c.triggers[i].table_name),
        forall|j: int|
            i < j < c.triggers.len() ==> lower((#[trigger] c.triggers[j]).name) != lower(
                c.triggers[i].name,
            ),
    ensures
        ({
            let row = c.triggers[i];
            let x = snapshot_of(c).triggers[k];
            &&& 0 <= k < snapshot_of(c).triggers.len()
            &&& lower(x.0) == lower(row.name)
            &&& x.1.name == row.name
            &&& x.1.table_name == row.table_name
            &&& x.1.sql == row.sql
        }),
{
    lemma_trigger_kept(c.triggers, c.triggers.len() as int, i);
    lemma_looked_up(snapshot_of(c).triggers, c.triggers[i].name)
}

/// What the snapshot holds as a trigger is one of the catalogue whose name or
/// the name of its table is not
/// reserved.
pub proof fn lemma_trigger_was_there(c: CatalogModel, k: int) -> (i: int)
    requires
        0 <= k < snapshot_of(c).triggers.len(),
    ensures
        0 <= i < c.triggers.len(),
        lower(snapshot_of(c).triggers[k].0) == lower(c.triggers[i].name),
        snapshot_of(c).triggers[k].1.name == c.triggers[i].name,
        snapshot_of(c).triggers[k].1.sql == c.triggers[i].sql,
        !is_reserved(c.triggers[i].name),
        !is_reserved(c.triggers[i].table_name),
{
    lemma_trigger_source(c.triggers, c.triggers.len() as int, snapshot_of(c).triggers[k])
}

proof fn lemma_trigger_source(rows: Seq<TriggerRowModel>, n: int, e: (Text, TriggerModel)) -> (i: int)
    requires
        0 <= n <= rows.len(),
        triggers_in(rows, n).contains(e),
    ensures
        0 <= i < n,
        lower(e.0) == lower(rows[i].name),
        e.1 == trigger_of(rows[i]),
        !is_reserved(rows[i].name),
        !is_reserved(rows[i].table_name),
    decreases n,
{
    let before = triggers_in(rows, n - 1);
    let now = triggers_in(rows, n);
    let k = choose|k: int| 0 <= k < now.len() && now[k] == e;
    lemma_triggers_sorted(rows, n - 1);
    lemma_reserved(rows[n - 1].name);
    lemma_reserved(rows[n - 1].table_name);
    if before.contains(e) {
        lemma_trigger_source(rows, n - 1, e)
    } else {
        lemma_inserted_entries(before, rows[n - 1].name, trigger_of(rows[n - 1]), k);
        n - 1
    }
}

} // verus!
