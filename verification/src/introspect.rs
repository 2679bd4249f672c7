//! From the rows of a catalogue to a schema, and back to text.

use vstd::prelude::*;

#[allow(unused_imports)]
use crate::ddl::{
    all_collated, bare_keys, check_constraints, is_strict_sql, makes_materialized_view,
    references_in,
};
use crate::ddl::{
    detect_autoincrement, detect_strict, detect_without_rowid, enrich_columns_with_collation,
    extract_check_constraints, is_materialized_view_sql, parse_fk_references_from_sql,
};
use crate::format::parse_number;
#[allow(unused_imports)]
use crate::format::parsed;
use crate::lists::clone_strings;
#[allow(unused_imports)]
use crate::lists::{
    gather, lemma_gather_contains, lemma_gather_step, lemma_mapped_multiset, lemma_member,
    lemma_name_index, sorted_set,
};
use crate::order::{arrange, Item};
#[allow(unused_imports)]
use crate::order::{
    all_wait, arranged, behind_needs, item_names, lemma_arranged_behind_needs,
    lemma_arranged_permutes, ItemModel,
};
#[allow(unused_imports)]
use crate::plan::sql_in;
use crate::schema::{
    CIMap, CIString, Capabilities, ColumnInfo, ForeignKey, IndexInfo, SchemaSnapshot, Stated,
    TableInfo, TriggerInfo, ViewInfo,
};
#[allow(unused_imports)]
use crate::schema::{
    deep_entries, fk_targets, inserted, keys, lemma_deep_inserted, lemma_deep_keys,
    lemma_inserted_sorted, lookup, sorted_keys, table_texts, texts_of, trigger_texts, view_texts,
    ColumnModel, ForeignKeyModel, IndexModel, SnapshotModel, TableModel, TriggerModel, ViewModel,
};
#[allow(unused_imports)]
use crate::search::{before_char, contains, parts, starts_with};
use crate::search::{lower_contains, lower_is, lower_starts_with, part_end, parts_of};
use crate::text::{chars_of, names_equal, str_equal, string_of_range, trim_end_at, Text};
#[allow(unused_imports)]
use crate::text::{lower, same_name, trim_end};

verus! {

// ---------------------------------------------------------------------------
// Internal objects
// ---------------------------------------------------------------------------

/// Whether the object belongs to the database, to this library or to an older migration
/// tool, and not to the schema.
pub open spec fn internal(name: Text) -> bool {
    let n = lower(name);
    ||| starts_with(n, "sqlite_"@)
    ||| starts_with(n, "fts_dir_"@)
    ||| starts_with(n, "__turso_internal"@)
    ||| starts_with(n, "_cap_probe_"@)
    ||| n == "_schema_meta"@
    ||| n == "_turso_migrations"@
    ||| starts_with(n, "_converge_new_"@)
}

/// Whether the object belongs to the database, to this library or to an older migration
/// tool, and not to the schema.
pub fn is_internal_object(name: &str) -> (r: bool)
    ensures
        r == internal(name@),
{
    lower_starts_with(name, "sqlite_") || lower_starts_with(name, "fts_dir_") || lower_starts_with(
        name,
        "__turso_internal",
    ) || lower_starts_with(name, "_cap_probe_") || lower_is(name, "_schema_meta") || lower_is(
        name,
        "_turso_migrations",
    ) || lower_starts_with(name, "_converge_new_")
}

/// Whether this is the table in which the library keeps its state.
pub fn is_meta_table(name: &str) -> (r: bool)
    ensures
        r == same_name(name@, "_schema_meta"@),
{
    names_equal(name, "_schema_meta")
}

// ---------------------------------------------------------------------------
// Columns
// ---------------------------------------------------------------------------

/// A row that describes a column.
#[derive(Debug)]
pub struct ColumnRow {
    pub name: String,
    pub col_type: String,
    pub notnull: i64,
    pub default_value: Option<String>,
    pub pk: i64,
    /// 1 for a hidden column, 2 or 3 for a generated one.
    pub hidden: i64,
}

#[verifier::ext_equal]
pub struct ColumnRowModel {
    pub name: Text,
    pub col_type: Text,
    pub notnull: i64,
    pub default_value: Option<Text>,
    pub pk: i64,
    pub hidden: i64,
}

impl DeepView for ColumnRow {
    type V = ColumnRowModel;

    open spec fn deep_view(&self) -> ColumnRowModel {
        ColumnRowModel {
            name: self.name@,
            col_type: self.col_type@,
            notnull: self.notnull,
            default_value: self.default_value.deep_view(),
            pk: self.pk,
            hidden: self.hidden,
        }
    }
}

/// The column that a row describes.
pub open spec fn column_of(r: ColumnRowModel) -> ColumnModel {
    ColumnModel {
        name: r.name,
        col_type: r.col_type,
        notnull: r.notnull != 0,
        default_value: r.default_value,
        pk: r.pk,
        collation: None,
        is_generated: r.hidden == 2 || r.hidden == 3,
        is_hidden: r.hidden == 1,
    }
}

pub open spec fn columns_of(rows: Seq<ColumnRowModel>) -> Seq<ColumnModel> {
    Seq::new(rows.len(), |i: int| column_of(rows[i]))
}

/// The column that a row describes.
pub fn column_from_row(row: &ColumnRow) -> (r: ColumnInfo)
    ensures
        r.deep_view() == column_of(row.deep_view()),
{
    ColumnInfo {
        name: row.name.clone(),
        col_type: row.col_type.clone(),
        notnull: row.notnull != 0,
        default_value: crate::lists::clone_optional(&row.default_value),
        pk: row.pk,
        collation: None,
        is_generated: row.hidden == 2 || row.hidden == 3,
        is_hidden: row.hidden == 1,
    }
}

/// The columns that the rows describe.
pub fn columns_from_rows(rows: &Vec<ColumnRow>) -> (r: Vec<ColumnInfo>)
    ensures
        r.deep_view() == columns_of(rows.deep_view()),
{
    let mut r: Vec<ColumnInfo> = Vec::new();
    let mut i: usize = 0;
    while i < rows.len()
        invariant
            i <= rows.len(),
            r.len() == i,
            forall|j: int|
                0 <= j < i ==> (#[trigger] r@[j]).deep_view() == column_of(rows@[j].deep_view()),
        decreases rows.len() - i,
    {
        r.push(column_from_row(&rows[i]));
        i += 1;
    }
    assert(r.deep_view() =~= columns_of(rows.deep_view()));
    r
}

/// A row that describes a column, with the table it belongs to.
#[derive(Debug)]
pub struct TableColumnRow {
    pub table_name: String,
    pub column: ColumnRow,
}

#[verifier::ext_equal]
pub struct TableColumnRowModel {
    pub table_name: Text,
    pub column: ColumnRowModel,
}

impl DeepView for TableColumnRow {
    type V = TableColumnRowModel;

    open spec fn deep_view(&self) -> TableColumnRowModel {
        TableColumnRowModel { table_name: self.table_name@, column: self.column.deep_view() }
    }
}

pub open spec fn column_if_of(table: Text) -> spec_fn(TableColumnRowModel) -> Seq<ColumnModel> {
    |r: TableColumnRowModel|
        if same_name(r.table_name, table) {
            seq![column_of(r.column)]
        } else {
            Seq::empty()
        }
}

/// The columns of one table among the rows of all.
pub open spec fn batched(rows: Seq<TableColumnRowModel>, table: Text) -> Seq<ColumnModel> {
    gather(rows, column_if_of(table))
}

/// The columns of one table among the rows of all, where there is any.
pub fn batched_columns(rows: &Vec<TableColumnRow>, table: &str) -> (r: Option<Vec<ColumnInfo>>)
    ensures
        match r {
            Some(c) => c.deep_view() == batched(rows.deep_view(), table@) && c.len() > 0,
            None => batched(rows.deep_view(), table@).len() == 0,
        },
{
    let ghost all = rows.deep_view();
    let ghost f = column_if_of(table@);
    let mut r: Vec<ColumnInfo> = Vec::new();
    let mut i: usize = 0;
    assert(all.take(0) =~= Seq::empty());
    assert(r.deep_view() =~= Seq::empty());
    while i < rows.len()
        invariant
            i <= rows.len(),
            all == rows.deep_view(),
            f == column_if_of(table@),
            r.deep_view() == gather(all.take(i as int), f),
        decreases rows.len() - i,
    {
        let ghost before = r.deep_view();
        proof {
            lemma_gather_step(all, i as int, f);
        }
        assert(all[i as int] == rows@[i as int].deep_view());
        if names_equal(rows[i].table_name.as_str(), table) {
            let c = column_from_row(&rows[i].column);
            r.push(c);
            assert(r.deep_view() =~= before + seq![c.deep_view()]);
        } else {
            assert(before + Seq::<ColumnModel>::empty() =~= before);
        }
        i += 1;
    }
    assert(all.take(i as int) =~= all);
    assert(r.deep_view().len() == r.len());
    if r.len() == 0 {
        None
    } else {
        Some(r)
    }
}

// ---------------------------------------------------------------------------
// Foreign keys
// ---------------------------------------------------------------------------

/// A row that describes one column of a foreign key.
#[derive(Debug)]
pub struct KeyRow {
    /// The number of the key; the rows of one key share it.
    pub id: i64,
    pub to_table: String,
    pub from_column: String,
    pub to_column: String,
    pub on_update: String,
    pub on_delete: String,
}

#[verifier::ext_equal]
pub struct KeyRowModel {
    pub id: i64,
    pub to_table: Text,
    pub from_column: Text,
    pub to_column: Text,
    pub on_update: Text,
    pub on_delete: Text,
}

impl DeepView for KeyRow {
    type V = KeyRowModel;

    open spec fn deep_view(&self) -> KeyRowModel {
        KeyRowModel {
            id: self.id,
            to_table: self.to_table@,
            from_column: self.from_column@,
            to_column: self.to_column@,
            on_update: self.on_update@,
            on_delete: self.on_delete@,
        }
    }
}

/// A foreign key with its number.
#[verifier::ext_equal]
pub struct NumberedKey {
    pub id: i64,
    pub key: ForeignKeyModel,
}

/// The first position from `i` on whose number is not less than `id`.
pub open spec fn key_slot(s: Seq<NumberedKey>, id: i64, i: int) -> int
    decreases s.len() - i,
{
    if 0 <= i < s.len() && s[i].id < id {
        key_slot(s, id, i + 1)
    } else {
        i
    }
}

/// The keys with one more row: it adds its columns to the key of its number, or
/// starts that key at its place.
pub open spec fn with_key_row(s: Seq<NumberedKey>, r: KeyRowModel) -> Seq<NumberedKey> {
    let k = key_slot(s, r.id, 0);
    if k < s.len() && s[k].id == r.id {
        let old_key = s[k].key;
        s.update(
            k,
            NumberedKey {
                id: r.id,
                key: ForeignKeyModel {
                    from_columns: old_key.from_columns.push(r.from_column),
                    to_columns: old_key.to_columns.push(r.to_column),
                    ..old_key
                },
            },
        )
    } else {
        s.insert(
            k,
            NumberedKey {
                id: r.id,
                key: ForeignKeyModel {
                    from_columns: seq![r.from_column],
                    to_table: r.to_table,
                    to_columns: seq![r.to_column],
                    on_delete: r.on_delete,
                    on_update: r.on_update,
                },
            },
        )
    }
}

/// The keys that the rows describe, by number.
pub open spec fn numbered_keys(rows: Seq<KeyRowModel>) -> Seq<NumberedKey>
    decreases rows.len(),
{
    if rows.len() == 0 {
        Seq::empty()
    } else {
        with_key_row(numbered_keys(rows.drop_last()), rows.last())
    }
}

/// The foreign keys that the rows describe, in the order of their numbers.
pub open spec fn keys_of(rows: Seq<KeyRowModel>) -> Seq<ForeignKeyModel> {
    let s = numbered_keys(rows);
    Seq::new(s.len(), |i: int| s[i].key)
}

spec fn numbered(ids: Seq<i64>, list: Seq<ForeignKeyModel>) -> Seq<NumberedKey> {
    Seq::new(ids.len(), |i: int| NumberedKey { id: ids[i], key: list[i] })
}

/// The foreign keys that the rows describe, in the order of their numbers.
pub fn keys_from_rows(rows: &Vec<KeyRow>) -> (r: Vec<ForeignKey>)
    ensures
        r.deep_view() == keys_of(rows.deep_view()),
{
    let ghost all = rows.deep_view();
    let mut ids: Vec<i64> = Vec::new();
    let mut list: Vec<ForeignKey> = Vec::new();
    let mut i: usize = 0;
    assert(all.take(0) =~= Seq::empty());
    assert(numbered(ids@, list.deep_view()) =~= Seq::empty());
    while i < rows.len()
        invariant
            i <= rows.len(),
            all == rows.deep_view(),
            ids.len() == list.len(),
            numbered(ids@, list.deep_view()) == numbered_keys(all.take(i as int)),
        decreases rows.len() - i,
    {
        assert(all.take(i + 1).drop_last() =~= all.take(i as int));
        let row = &rows[i];
        let ghost rm = row.deep_view();
        assert(all[i as int] == rm);
        let ghost before = numbered(ids@, list.deep_view());
        let mut k: usize = 0;
        while k < ids.len() && ids[k] < row.id
            invariant
                k <= ids.len(),
                ids.len() == list.len(),
                before == numbered(ids@, list.deep_view()),
                key_slot(before, row.id, 0) == key_slot(before, row.id, k as int),
            decreases ids.len() - k,
        {
            assert(before[k as int].id == ids@[k as int]);
            k += 1;
        }
        proof {
            if k < ids.len() {
                assert(before[k as int].id == ids@[k as int]);
            }
        }
        if k < ids.len() && ids[k] == row.id {
            let mut key = list.remove(k);
            let ghost was = key.deep_view();
            let ghost f0 = key.from_columns.deep_view();
            let ghost t0 = key.to_columns.deep_view();
            assert(before[k as int].key == was);
            key.from_columns.push(row.from_column.clone());
            key.to_columns.push(row.to_column.clone());
            assert(key.from_columns.deep_view() =~= f0.push(rm.from_column));
            assert(key.to_columns.deep_view() =~= t0.push(rm.to_column));
            list.insert(k, key);
        } else {
            let mut from: Vec<String> = Vec::new();
            from.push(row.from_column.clone());
            let mut to: Vec<String> = Vec::new();
            to.push(row.to_column.clone());
            assert(from.deep_view() =~= seq![rm.from_column]);
            assert(to.deep_view() =~= seq![rm.to_column]);
            ids.insert(k, row.id);
            list.insert(
                k,
                ForeignKey {
                    from_columns: from,
                    to_table: row.to_table.clone(),
                    to_columns: to,
                    on_delete: row.on_delete.clone(),
                    on_update: row.on_update.clone(),
                },
            );
        }
        assert(numbered(ids@, list.deep_view()) =~= with_key_row(before, rm));
        i += 1;
    }
    assert(all.take(i as int) =~= all);
    assert(list.deep_view() =~= keys_of(all));
    list
}

// ---------------------------------------------------------------------------
// Tables, indexes, views, triggers
// ---------------------------------------------------------------------------

/// A table of the catalogue with its columns and the rows of its foreign keys.
#[derive(Debug)]
pub struct TableRows {
    pub name: String,
    pub sql: String,
    pub columns: Vec<ColumnInfo>,
    pub keys: Vec<KeyRow>,
}

#[verifier::ext_equal]
pub struct TableRowsModel {
    pub name: Text,
    pub sql: Text,
    pub columns: Seq<ColumnModel>,
    pub keys: Seq<KeyRowModel>,
}

impl DeepView for TableRows {
    type V = TableRowsModel;

    open spec fn deep_view(&self) -> TableRowsModel {
        TableRowsModel {
            name: self.name@,
            sql: self.sql@,
            columns: self.columns.deep_view(),
            keys: self.keys.deep_view(),
        }
    }
}

/// The table that the rows describe. Where the catalogue lists no foreign keys, those
/// that the statement mentions count.
pub open spec fn table_of(t: TableRowsModel) -> TableModel {
    TableModel {
        name: t.name,
        sql: t.sql,
        columns: all_collated(t.sql, t.columns),
        foreign_keys: if keys_of(t.keys).len() > 0 {
            keys_of(t.keys)
        } else {
            bare_keys(references_in(t.sql, true))
        },
        check_constraints: check_constraints(t.sql),
        is_strict: is_strict_sql(t.sql),
        is_without_rowid: contains(lower(t.sql), "without rowid"@),
        has_autoincrement: contains(lower(t.sql), "autoincrement"@),
    }
}

/// The table that the rows describe.
pub fn table_from_rows(rows: &TableRows) -> (r: TableInfo)
    ensures
        r.deep_view() == table_of(rows.deep_view()),
{
    let listed = keys_from_rows(&rows.keys);
    assert(listed.deep_view().len() == listed.len());
    let foreign_keys = if listed.len() > 0 {
        listed
    } else {
        parse_fk_references_from_sql(rows.sql.as_str())
    };
    let check_constraints = extract_check_constraints(rows.sql.as_str());
    let is_strict = detect_strict(rows.sql.as_str());
    let is_without_rowid = detect_without_rowid(rows.sql.as_str());
    let has_autoincrement = detect_autoincrement(rows.sql.as_str());
    let columns = enrich_columns_with_collation(rows.sql.as_str(), &rows.columns);
    TableInfo {
        name: rows.name.clone(),
        sql: rows.sql.clone(),
        columns,
        foreign_keys,
        check_constraints,
        is_strict,
        is_without_rowid,
        has_autoincrement,
    }
}

/// An index of the catalogue with its columns.
#[derive(Debug)]
pub struct IndexRows {
    pub name: String,
    pub table_name: String,
    pub sql: String,
    pub is_unique: bool,
    pub columns: Vec<String>,
}

#[verifier::ext_equal]
pub struct IndexRowsModel {
    pub name: Text,
    pub table_name: Text,
    pub sql: Text,
    pub is_unique: bool,
    pub columns: Seq<Text>,
}

impl DeepView for IndexRows {
    type V = IndexRowsModel;

    open spec fn deep_view(&self) -> IndexRowsModel {
        IndexRowsModel {
            name: self.name@,
            table_name: self.table_name@,
            sql: self.sql@,
            is_unique: self.is_unique,
            columns: self.columns.deep_view(),
        }
    }
}

/// The index that the rows describe.
pub open spec fn index_of(x: IndexRowsModel) -> IndexModel {
    IndexModel {
        name: x.name,
        table_name: x.table_name,
        sql: x.sql,
        is_fts: contains(lower(x.sql), "using fts"@),
        is_unique: x.is_unique,
        columns: x.columns,
    }
}

/// A view of the catalogue.
#[derive(Debug)]
pub struct ViewRow {
    pub name: String,
    pub sql: String,
}

#[verifier::ext_equal]
pub struct ViewRowModel {
    pub name: Text,
    pub sql: Text,
}

impl DeepView for ViewRow {
    type V = ViewRowModel;

    open spec fn deep_view(&self) -> ViewRowModel {
        ViewRowModel { name: self.name@, sql: self.sql@ }
    }
}

/// The view that a row describes.
pub open spec fn view_of(v: ViewRowModel) -> ViewModel {
    ViewModel { name: v.name, sql: v.sql, is_materialized: makes_materialized_view(v.sql) }
}

/// A trigger of the catalogue.
#[derive(Debug)]
pub struct TriggerRow {
    pub name: String,
    pub table_name: String,
    pub sql: String,
}

#[verifier::ext_equal]
pub struct TriggerRowModel {
    pub name: Text,
    pub table_name: Text,
    pub sql: Text,
}

impl DeepView for TriggerRow {
    type V = TriggerRowModel;

    open spec fn deep_view(&self) -> TriggerRowModel {
        TriggerRowModel { name: self.name@, table_name: self.table_name@, sql: self.sql@ }
    }
}

/// The trigger that a row describes.
pub open spec fn trigger_of(t: TriggerRowModel) -> TriggerModel {
    TriggerModel { name: t.name, table_name: t.table_name, sql: t.sql }
}

/// Whether an index is marked as unique in a list of names and marks: the first entry
/// with its name counts.
pub open spec fn unique_mark(rows: Seq<(Text, i64)>, name: Text, i: int) -> bool
    decreases rows.len() - i,
{
    if i < 0 || i >= rows.len() {
        false
    } else if rows[i].0 == name {
        rows[i].1 != 0
    } else {
        unique_mark(rows, name, i + 1)
    }
}

/// Whether an index is marked as unique in a list of names and marks.
pub fn is_marked_unique(rows: &Vec<(String, i64)>, name: &str) -> (r: bool)
    ensures
        r == unique_mark(rows.deep_view(), name@, 0),
{
    let ghost all = rows.deep_view();
    let mut i: usize = 0;
    while i < rows.len()
        invariant
            i <= rows.len(),
            all == rows.deep_view(),
            unique_mark(all, name@, 0) == unique_mark(all, name@, i as int),
        decreases rows.len() - i,
    {
        assert(all[i as int] == (rows@[i as int].0@, rows@[i as int].1));
        if str_equal(rows[i].0.as_str(), name) {
            return rows[i].1 != 0;
        }
        i += 1;
    }
    false
}

// ---------------------------------------------------------------------------
// The whole schema
// ---------------------------------------------------------------------------

/// The rows of a catalogue.
#[derive(Debug)]
pub struct Catalog {
    pub tables: Vec<TableRows>,
    pub indexes: Vec<IndexRows>,
    pub views: Vec<ViewRow>,
    pub triggers: Vec<TriggerRow>,
}

#[verifier::ext_equal]
pub struct CatalogModel {
    pub tables: Seq<TableRowsModel>,
    pub indexes: Seq<IndexRowsModel>,
    pub views: Seq<ViewRowModel>,
    pub triggers: Seq<TriggerRowModel>,
}

impl DeepView for Catalog {
    type V = CatalogModel;

    open spec fn deep_view(&self) -> CatalogModel {
        CatalogModel {
            tables: self.tables.deep_view(),
            indexes: self.indexes.deep_view(),
            views: self.views.deep_view(),
            triggers: self.triggers.deep_view(),
        }
    }
}

/// The tables of the first `n` entries that belong to the schema.
pub open spec fn tables_in(rows: Seq<TableRowsModel>, n: int) -> Seq<(Text, TableModel)>
    decreases n,
{
    if n <= 0 {
        Seq::empty()
    } else {
        let before = tables_in(rows, n - 1);
        let t = rows[n - 1];
        if internal(t.name) {
            before
        } else {
            inserted(before, t.name, table_of(t))
        }
    }
}

/// The indexes of the first `n` entries that belong to the schema.
pub open spec fn indexes_in(rows: Seq<IndexRowsModel>, n: int) -> Seq<(Text, IndexModel)>
    decreases n,
{
    if n <= 0 {
        Seq::empty()
    } else {
        let before = indexes_in(rows, n - 1);
        let t = rows[n - 1];
        if internal(t.name) || internal(t.table_name) {
            before
        } else {
            inserted(before, t.name, index_of(t))
        }
    }
}

/// The views of the first `n` entries that belong to the schema.
pub open spec fn views_in(rows: Seq<ViewRowModel>, n: int) -> Seq<(Text, ViewModel)>
    decreases n,
{
    if n <= 0 {
        Seq::empty()
    } else {
        let before = views_in(rows, n - 1);
        let t = rows[n - 1];
        if internal(t.name) {
            before
        } else {
            inserted(before, t.name, view_of(t))
        }
    }
}

/// The triggers of the first `n` entries that belong to the schema.
pub open spec fn triggers_in(rows: Seq<TriggerRowModel>, n: int) -> Seq<(Text, TriggerModel)>
    decreases n,
{
    if n <= 0 {
        Seq::empty()
    } else {
        let before = triggers_in(rows, n - 1);
        let t = rows[n - 1];
        if internal(t.name) || internal(t.table_name) {
            before
        } else {
            inserted(before, t.name, trigger_of(t))
        }
    }
}

/// The schema that a catalogue describes.
pub open spec fn snapshot_of(c: CatalogModel) -> SnapshotModel {
    SnapshotModel {
        tables: tables_in(c.tables, c.tables.len() as int),
        indexes: indexes_in(c.indexes, c.indexes.len() as int),
        views: views_in(c.views, c.views.len() as int),
        triggers: triggers_in(c.triggers, c.triggers.len() as int),
    }
}

fn collect_tables(rows: Vec<TableRows>) -> (r: CIMap<TableInfo>)
    ensures
        r.deep_view() == tables_in(rows.deep_view(), rows.len() as int),
        sorted_keys(r.deep_view()),
{
    let ghost all = rows.deep_view();
    let mut map: CIMap<TableInfo> = CIMap::new();
    let mut i: usize = 0;
    assert(map.deep_view() =~= Seq::empty());
    while i < rows.len()
        invariant
            i <= rows.len(),
            all == rows.deep_view(),
            map.deep_view() == tables_in(all, i as int),
            sorted_keys(map.deep_view()),
        decreases rows.len() - i,
    {
        let t = &rows[i];
        assert(all[i as int] == t.deep_view());
        if !is_internal_object(t.name.as_str()) {
            let ghost before = map@;
            let info = table_from_rows(t);
            let _ = map.insert(CIString::new(t.name.as_str()), info);
            proof {
                lemma_deep_inserted(before, t.name@, info);
                lemma_inserted_sorted(deep_entries(before), t.name@, info.deep_view());
            }
        }
        i += 1;
    }
    map
}

fn collect_indexes(rows: Vec<IndexRows>) -> (r: CIMap<IndexInfo>)
    ensures
        r.deep_view() == indexes_in(rows.deep_view(), rows.len() as int),
        sorted_keys(r.deep_view()),
{
    let ghost all = rows.deep_view();
    let mut map: CIMap<IndexInfo> = CIMap::new();
    let mut i: usize = 0;
    assert(map.deep_view() =~= Seq::empty());
    while i < rows.len()
        invariant
            i <= rows.len(),
            all == rows.deep_view(),
            map.deep_view() == indexes_in(all, i as int),
            sorted_keys(map.deep_view()),
        decreases rows.len() - i,
    {
        let t = &rows[i];
        assert(all[i as int] == t.deep_view());
        if !is_internal_object(t.name.as_str()) && !is_internal_object(t.table_name.as_str()) {
            let ghost before = map@;
            let info = IndexInfo {
                name: t.name.clone(),
                table_name: t.table_name.clone(),
                sql: t.sql.clone(),
                is_fts: lower_contains(t.sql.as_str(), "using fts"),
                is_unique: t.is_unique,
                columns: clone_strings(&t.columns),
            };
            assert(info.deep_view() == index_of(t.deep_view()));
            let _ = map.insert(CIString::new(t.name.as_str()), info);
            proof {
                lemma_deep_inserted(before, t.name@, info);
                lemma_inserted_sorted(deep_entries(before), t.name@, info.deep_view());
            }
        }
        i += 1;
    }
    map
}

fn collect_views(rows: Vec<ViewRow>) -> (r: CIMap<ViewInfo>)
    ensures
        r.deep_view() == views_in(rows.deep_view(), rows.len() as int),
        sorted_keys(r.deep_view()),
{
    let ghost all = rows.deep_view();
    let mut map: CIMap<ViewInfo> = CIMap::new();
    let mut i: usize = 0;
    assert(map.deep_view() =~= Seq::empty());
    while i < rows.len()
        invariant
            i <= rows.len(),
            all == rows.deep_view(),
            map.deep_view() == views_in(all, i as int),
            sorted_keys(map.deep_view()),
        decreases rows.len() - i,
    {
        let t = &rows[i];
        assert(all[i as int] == t.deep_view());
        if !is_internal_object(t.name.as_str()) {
            let ghost before = map@;
            let info = ViewInfo {
                name: t.name.clone(),
                sql: t.sql.clone(),
                is_materialized: is_materialized_view_sql(t.sql.as_str()),
            };
            assert(info.deep_view() == view_of(t.deep_view()));
            let _ = map.insert(CIString::new(t.name.as_str()), info);
            proof {
                lemma_deep_inserted(before, t.name@, info);
                lemma_inserted_sorted(deep_entries(before), t.name@, info.deep_view());
            }
        }
        i += 1;
    }
    map
}

fn collect_triggers(rows: Vec<TriggerRow>) -> (r: CIMap<TriggerInfo>)
    ensures
        r.deep_view() == triggers_in(rows.deep_view(), rows.len() as int),
        sorted_keys(r.deep_view()),
{
    let ghost all = rows.deep_view();
    let mut map: CIMap<TriggerInfo> = CIMap::new();
    let mut i: usize = 0;
    assert(map.deep_view() =~= Seq::empty());
    while i < rows.len()
        invariant
            i <= rows.len(),
            all == rows.deep_view(),
            map.deep_view() == triggers_in(all, i as int),
            sorted_keys(map.deep_view()),
        decreases rows.len() - i,
    {
        let t = &rows[i];
        assert(all[i as int] == t.deep_view());
        if !is_internal_object(t.name.as_str()) && !is_internal_object(t.table_name.as_str()) {
            let ghost before = map@;
            let info = TriggerInfo {
                name: t.name.clone(),
                table_name: t.table_name.clone(),
                sql: t.sql.clone(),
            };
            assert(info.deep_view() == trigger_of(t.deep_view()));
            let _ = map.insert(CIString::new(t.name.as_str()), info);
            proof {
                lemma_deep_inserted(before, t.name@, info);
                lemma_inserted_sorted(deep_entries(before), t.name@, info.deep_view());
            }
        }
        i += 1;
    }
    map
}

impl SchemaSnapshot {
    /// The schema that a catalogue describes.
    pub fn from_catalog(catalog: Catalog) -> (r: Self)
        ensures
            r.deep_view() == snapshot_of(catalog.deep_view()),
            r.deep_view().sorted(),
    {
        SchemaSnapshot {
            tables: collect_tables(catalog.tables),
            indexes: collect_indexes(catalog.indexes),
            views: collect_views(catalog.views),
            triggers: collect_triggers(catalog.triggers),
        }
    }
}

// ---------------------------------------------------------------------------
// Back to text
// ---------------------------------------------------------------------------

/// The tables that a table must come behind: those that it points to.
pub open spec fn table_item(tables: Seq<(Text, TableModel)>, name: Text) -> ItemModel {
    ItemModel {
        name,
        needs: match lookup(tables, name) {
            Some(t) => sorted_set(fk_targets(t.foreign_keys)),
            None => Seq::empty(),
        },
    }
}

pub open spec fn if_no_meta(tables: Seq<(Text, TableModel)>) -> spec_fn(Text) -> Seq<ItemModel> {
    |n: Text|
        if same_name(n, "_schema_meta"@) {
            Seq::empty()
        } else {
            seq![table_item(tables, n)]
        }
}

/// The tables of the schema in the order of their foreign keys.
pub open spec fn tables_by_keys(tables: Seq<(Text, TableModel)>) -> Seq<Text> {
    item_names(arranged(gather(keys(tables), if_no_meta(tables))))
}

/// The schema as text has every table but the state table, each once, and none before
/// one that it points to, but for a last part whose tables all point to tables of that
/// part.
pub proof fn lemma_tables_in_order(tables: Seq<(Text, TableModel)>) -> (n: int)
    ensures
        ({
            let items = gather(keys(tables), if_no_meta(tables));
            let s = arranged(items);
            &&& tables_by_keys(tables) == item_names(s)
            &&& item_names(s).to_multiset() == item_names(items).to_multiset()
            &&& forall|t: Text|
                #[trigger] item_names(items).contains(t) <==> keys(tables).contains(t)
                    && !same_name(t, "_schema_meta"@)
            &&& forall|i: int|
                0 <= i < s.len() ==> #[trigger] s[i] == table_item(tables, s[i].name)
            &&& 0 <= n <= s.len()
            &&& behind_needs(s, n)
            &&& all_wait(s.skip(n))
        }),
{
    let f = if_no_meta(tables);
    let items = gather(keys(tables), f);
    let s = arranged(items);
    lemma_arranged_permutes(items);
    lemma_mapped_multiset(s, items, |x: ItemModel| x.name);
    assert(item_names(s) =~= s.map_values(|x: ItemModel| x.name));
    assert(item_names(items) =~= items.map_values(|x: ItemModel| x.name));
    assert forall|x: ItemModel| #[trigger] items.contains(x) implies x == table_item(
        tables,
        x.name,
    ) && keys(tables).contains(x.name) && !same_name(x.name, "_schema_meta"@) by {
        lemma_gather_contains(keys(tables), f, x);
        let i = choose|i: int|
            0 <= i < keys(tables).len() && f(#[trigger] keys(tables)[i]).contains(x);
    }
    assert forall|t: Text| #[trigger]
        item_names(items).contains(t) <==> keys(tables).contains(t) && !same_name(
            t,
            "_schema_meta"@,
        ) by {
        if item_names(items).contains(t) {
            let i = choose|i: int| 0 <= i < items.len() && item_names(items)[i] == t;
            assert(items.contains(items[i]));
        }
        if keys(tables).contains(t) && !same_name(t, "_schema_meta"@) {
            let i = choose|i: int| 0 <= i < keys(tables).len() && keys(tables)[i] == t;
            let x = table_item(tables, t);
            assert(f(keys(tables)[i])[0] == x);
            lemma_gather_contains(keys(tables), f, x);
            let k = choose|k: int| 0 <= k < items.len() && items[k] == x;
            assert(item_names(items)[k] == t);
        }
    }
    assert forall|i: int| 0 <= i < s.len() implies #[trigger] s[i] == table_item(
        tables,
        s[i].name,
    ) by {
        lemma_member(s, items, i);
    }
    lemma_arranged_behind_needs(items)
}

/// Each statement with its semicolon and an empty line behind it.
pub open spec fn ended(list: Seq<Text>) -> Text
    decreases list.len(),
{
    if list.len() == 0 {
        Seq::empty()
    } else {
        ended(list.drop_last()) + list.last() + ";\n\n"@
    }
}

pub open spec fn index_text(fts: bool) -> spec_fn((Text, IndexModel)) -> Seq<Text> {
    |e: (Text, IndexModel)|
        if e.1.is_fts == fts {
            seq![e.1.sql]
        } else {
            Seq::empty()
        }
}

/// The second of each pair.
pub open spec fn second_parts(pairs: Seq<(Text, Text)>) -> Seq<Text> {
    Seq::new(pairs.len(), |i: int| pairs[i].1)
}

/// The schema as text: tables in the order of their foreign keys, indexes, full-text
/// indexes, views, triggers.
pub open spec fn schema_text(s: SnapshotModel) -> Text {
    trim_end(
        ended(gather(tables_by_keys(s.tables), sql_in(table_texts(s.tables)))) + ended(
            gather(s.indexes, index_text(false)),
        ) + ended(gather(s.indexes, index_text(true))) + ended(
            second_parts(view_texts(s.views)),
        ) + ended(second_parts(trigger_texts(s.triggers))),
    )
}

/// Appends a statement with its semicolon and an empty line.
fn push_statement(out: &mut String, sql: &str)
    ensures
        final(out)@ == old(out)@ + sql@ + ";\n\n"@,
{
    out.append(sql);
    out.append(";\n\n");
}

/// Appends the statements of the named tables.
fn push_tables(out: &mut String, names: &Vec<String>, map: &CIMap<TableInfo>)
    ensures
        final(out)@ == old(out)@ + ended(gather(names.deep_view(), sql_in(texts_of(map@)))),
{
    let ghost before = out@;
    let ghost all = names.deep_view();
    let ghost texts = texts_of(map@);
    let ghost f = sql_in(texts);
    assert(keys(texts) =~= keys(map@));
    let mut i: usize = 0;
    assert(all.take(0) =~= Seq::empty());
    assert(before + ended(gather(all.take(0), f)) =~= before);
    while i < names.len()
        invariant
            i <= names.len(),
            all == names.deep_view(),
            texts == texts_of(map@),
            keys(texts) == keys(map@),
            f == sql_in(texts),
            out@ == before + ended(gather(all.take(i as int), f)),
        decreases names.len() - i,
    {
        let ghost part = gather(all.take(i as int), f);
        proof {
            lemma_gather_step(all, i as int, f);
            lemma_name_index(keys(texts), all[i as int]);
        }
        assert(all[i as int] == names@[i as int]@);
        match map.position(names[i].as_str()) {
            Some(k) => {
                let sql = map.value_at(k).statement_text();
                assert(texts[k as int].1 == sql@);
                push_statement(out, sql);
                proof {
                    let now = part + seq![sql@];
                    assert(now.drop_last() =~= part);
                    assert(out@ =~= before + (ended(part) + sql@ + ";\n\n"@));
                }
            },
            None => {
                assert(part + Seq::<Text>::empty() =~= part);
            },
        }
        i += 1;
    }
    assert(all.take(i as int) =~= all);
}

/// Appends the statements of the indexes of one kind.
fn push_indexes(out: &mut String, fts: bool, map: &CIMap<IndexInfo>)
    ensures
        final(out)@ == old(out)@ + ended(gather(map.deep_view(), index_text(fts))),
{
    let ghost before = out@;
    let ghost all = map.deep_view();
    let ghost f = index_text(fts);
    let mut i: usize = 0;
    assert(all.take(0) =~= Seq::empty());
    assert(before + ended(gather(all.take(0), f)) =~= before);
    while i < map.len()
        invariant
            i <= map@.len(),
            all == map.deep_view(),
            f == index_text(fts),
            out@ == before + ended(gather(all.take(i as int), f)),
        decreases map@.len() - i,
    {
        let ghost part = gather(all.take(i as int), f);
        proof {
            lemma_gather_step(all, i as int, f);
        }
        let index = map.value_at(i);
        assert(all[i as int].1 == index.deep_view());
        if index.is_fts == fts {
            push_statement(out, index.sql.as_str());
            proof {
                let now = part + seq![index.sql@];
                assert(now.drop_last() =~= part);
                assert(out@ =~= before + (ended(part) + index.sql@ + ";\n\n"@));
            }
        } else {
            assert(part + Seq::<Text>::empty() =~= part);
        }
        i += 1;
    }
    assert(all.take(i as int) =~= all);
}

/// Appends the statements of a map.
fn push_all<V: Stated>(out: &mut String, map: &CIMap<V>)
    ensures
        final(out)@ == old(out)@ + ended(second_parts(texts_of(map@))),
{
    let ghost before = out@;
    let ghost all = second_parts(texts_of(map@));
    let mut i: usize = 0;
    assert(all.take(0) =~= Seq::empty());
    assert(before + ended(all.take(0)) =~= before);
    while i < map.len()
        invariant
            i <= map@.len(),
            all == second_parts(texts_of(map@)),
            out@ == before + ended(all.take(i as int)),
        decreases map@.len() - i,
    {
        let ghost part = all.take(i as int);
        let sql = map.value_at(i).statement_text();
        assert(all[i as int] == sql@);
        push_statement(out, sql);
        assert(all.take(i + 1).drop_last() =~= part);
        assert(out@ =~= before + (ended(part) + sql@ + ";\n\n"@));
        i += 1;
    }
    assert(all.take(i as int) =~= all);
}

/// The tables of the schema in the order of their foreign keys.
fn order_tables(map: &CIMap<TableInfo>) -> (r: Vec<String>)
    ensures
        r.deep_view() == tables_by_keys(map.deep_view()),
{
    let ghost tables = map.deep_view();
    let ghost all = keys(tables);
    let ghost f = if_no_meta(tables);
    proof {
        lemma_deep_keys(map@);
    }
    let mut items: Vec<Item> = Vec::new();
    let mut i: usize = 0;
    assert(all.take(0) =~= Seq::empty());
    assert(items.deep_view() =~= Seq::empty());
    while i < map.len()
        invariant
            i <= map@.len(),
            tables == map.deep_view(),
            all == keys(tables),
            all == keys(map@),
            f == if_no_meta(tables),
            items.deep_view() == gather(all.take(i as int), f),
        decreases map@.len() - i,
    {
        let ghost before = items.deep_view();
        let name = map.key_at(i);
        proof {
            lemma_gather_step(all, i as int, f);
            lemma_name_index(all, name@);
        }
        assert(all[i as int] == name@);
        if !is_meta_table(name) {
            let needs = match map.position(name) {
                Some(k) => {
                    let t = map.value_at(k);
                    assert(tables[k as int].1 == t.deep_view());
                    t.referenced_tables()
                },
                None => Vec::new(),
            };
            let item = Item { name: name.to_owned(), needs };
            assert(item.deep_view() == table_item(tables, name@));
            items.push(item);
            assert(items.deep_view() =~= before + seq![table_item(tables, name@)]);
        } else {
            assert(before + Seq::<ItemModel>::empty() =~= before);
        }
        i += 1;
    }
    assert(all.take(i as int) =~= all);
    arrange(items)
}

impl SchemaSnapshot {
    /// The schema as text, from which it can be made again: tables in the order of
    /// their foreign keys, indexes, full-text indexes, views, triggers.
    pub fn to_sql(&self) -> (r: String)
        ensures
            r@ == schema_text(self.deep_view()),
    {
        let ghost s = self.deep_view();
        proof {
            assert(texts_of(self.tables@) =~= table_texts(s.tables));
            assert(texts_of(self.views@) =~= view_texts(s.views));
            assert(texts_of(self.triggers@) =~= trigger_texts(s.triggers));
        }
        let ordered = order_tables(&self.tables);
        let mut sql = String::new();
        push_tables(&mut sql, &ordered, &self.tables);
        assert(sql@ =~= ended(gather(tables_by_keys(s.tables), sql_in(table_texts(s.tables)))));
        push_indexes(&mut sql, false, &self.indexes);
        push_indexes(&mut sql, true, &self.indexes);
        push_all(&mut sql, &self.views);
        push_all(&mut sql, &self.triggers);
        let v = chars_of(sql.as_str());
        let k = trim_end_at(v.as_slice());
        let r = string_of_range(v.as_slice(), 0, k);
        assert(r@ =~= v@.take(k as int));
        r
    }
}

// ---------------------------------------------------------------------------
// Capabilities
// ---------------------------------------------------------------------------

pub open spec fn version_number() -> spec_fn(Text) -> Seq<nat> {
    |p: Text|
        match parsed(before_char(p, '-'), 0xffff_ffff) {
            Some(n) => seq![n],
            None => Seq::empty(),
        }
}

/// The numbers of a version, in order.
pub open spec fn version_numbers(s: Text) -> Seq<nat> {
    gather(parts(s, '.'), version_number())
}

/// The version that a text names. Missing numbers are 3, 0 and 0.
pub open spec fn version_of(s: Text) -> (nat, nat, nat) {
    let n = version_numbers(s);
    (
        if n.len() > 0 {
            n[0]
        } else {
            3
        },
        if n.len() > 1 {
            n[1]
        } else {
            0
        },
        if n.len() > 2 {
            n[2]
        } else {
            0
        },
    )
}

/// The version that a text names.
pub fn parse_version(s: &str) -> (r: (u32, u32, u32))
    ensures
        version_of(s@) == (r.0 as nat, r.1 as nat, r.2 as nat),
{
    let v = chars_of(s);
    let list = parts_of(v.as_slice(), '.');
    let ghost all = parts(s@, '.');
    let ghost f = version_number();
    let mut found: Vec<u32> = Vec::new();
    let mut i: usize = 0;
    assert(all.take(0) =~= Seq::empty());
    while i < list.len()
        invariant
            i <= list.len(),
            all == list.deep_view(),
            f == version_number(),
            found.len() == gather(all.take(i as int), f).len(),
            forall|j: int|
                0 <= j < found.len() ==> #[trigger] found@[j] == gather(all.take(i as int), f)[j],
        decreases list.len() - i,
    {
        proof {
            lemma_gather_step(all, i as int, f);
        }
        assert(all[i as int] == list@[i as int]@);
        let p = chars_of(list[i].as_str());
        let end = part_end(p.as_slice(), '-', 0);
        assert(p@.skip(0) =~= p@);
        let head = string_of_range(p.as_slice(), 0, end);
        assert(head@ =~= before_char(p@, '-'));
        match parse_number(head.as_str(), 0xffff_ffff) {
            Some(n) => {
                found.push(n as u32);
            },
            None => {},
        }
        i += 1;
    }
    assert(all.take(i as int) =~= all);
    let major: u32 = if found.len() > 0 {
        found[0]
    } else {
        3
    };
    let minor: u32 = if found.len() > 1 {
        found[1]
    } else {
        0
    };
    let patch: u32 = if found.len() > 2 {
        found[2]
    } else {
        0
    };
    (major, minor, patch)
}

/// What became of the attempts to use each feature.
#[derive(Debug, Clone, Copy)]
pub struct Probes {
    pub fts: bool,
    pub vector: bool,
    pub materialized_views: bool,
    pub without_rowid: bool,
    pub generated_columns: bool,
    pub triggers: bool,
}

/// Whether a version comes at or behind another one.
pub open spec fn version_at_least(v: (nat, nat, nat), w: (nat, nat, nat)) -> bool {
    v.0 > w.0 || (v.0 == w.0 && (v.1 > w.1 || (v.1 == w.1 && v.2 >= w.2)))
}

impl Capabilities {
    /// What the database can do, from the version that it reports, if it reports one,
    /// and from the outcome of the probes.
    pub fn from_probes(version: &Option<String>, probes: &Probes) -> (r: Self)
        ensures
            ({
                let text = match version.deep_view() {
                    Some(s) => s,
                    None => "3.0.0"@,
                };
                let v = version_of(text);
                &&& r.database_version.0 == v.0 && r.database_version.1 == v.1
                    && r.database_version.2 == v.2
                &&& r.supports_drop_column == version_at_least(v, (3, 35, 0))
                &&& r.supports_rename_column == version_at_least(v, (3, 25, 0))
                &&& r.has_fts_module == probes.fts
                &&& r.has_vector_module == probes.vector
                &&& r.has_materialized_views == probes.materialized_views
                &&& r.supports_without_rowid == probes.without_rowid
                &&& r.supports_generated_columns == probes.generated_columns
                &&& r.has_triggers == probes.triggers
            }),
    {
        let (major, minor, patch) = match version {
            Some(s) => parse_version(s.as_str()),
            None => parse_version("3.0.0"),
        };
        Capabilities {
            database_version: (major, minor, patch),
            supports_drop_column: major > 3 || (major == 3 && minor >= 35),
            supports_rename_column: major > 3 || (major == 3 && minor >= 25),
            has_fts_module: probes.fts,
            has_vector_module: probes.vector,
            has_materialized_views: probes.materialized_views,
            supports_without_rowid: probes.without_rowid,
            supports_generated_columns: probes.generated_columns,
            has_triggers: probes.triggers,
        }
    }
}

// ---------------------------------------------------------------------------
// The cache of schemas
// ---------------------------------------------------------------------------

/// How many schemas the cache holds before it starts anew.
pub const CACHE_LIMIT: usize = 16;

/// Schemas by the fingerprint of their text.
#[derive(Debug)]
pub struct SnapshotCache {
    entries: Vec<(String, SchemaSnapshot)>,
}

/// The entries as a map: of entries with the same key the last counts.
pub open spec fn as_map(s: Seq<(Text, SnapshotModel)>) -> Map<Text, SnapshotModel>
    decreases s.len(),
{
    if s.len() == 0 {
        Map::empty()
    } else {
        as_map(s.drop_last()).insert(s.last().0, s.last().1)
    }
}

impl View for SnapshotCache {
    type V = Map<Text, SnapshotModel>;

    closed spec fn view(&self) -> Map<Text, SnapshotModel> {
        as_map(self.entries.deep_view())
    }
}

proof fn lemma_as_map(s: Seq<(Text, SnapshotModel)>, key: Text)
    ensures
        as_map(s).dom().contains(key) <==> exists|i: int| 0 <= i < s.len() && (#[trigger] s[i]).0 == key,
        as_map(s).dom().finite(),
    decreases s.len(),
{
    if s.len() > 0 {
        lemma_as_map(s.drop_last(), key);
        if exists|i: int| 0 <= i < s.len() && (#[trigger] s[i]).0 == key {
            let i = choose|i: int| 0 <= i < s.len() && (#[trigger] s[i]).0 == key;
            if i < s.len() - 1 {
                assert(s.drop_last()[i] == s[i]);
            }
        }
        if as_map(s.drop_last()).dom().contains(key) {
            let i = choose|i: int| 0 <= i < s.drop_last().len() && (#[trigger] s.drop_last()[i]).0 == key;
            assert(s[i].0 == key);
        }
        assert(s[s.len() - 1] == s.last());
    }
}

/// Whether no key occurs twice.
spec fn distinct_keys(s: Seq<(Text, SnapshotModel)>) -> bool {
    forall|i: int, j: int|
        0 <= i < j < s.len() ==> (#[trigger] s[i]).0 != (#[trigger] s[j]).0
}

proof fn lemma_as_map_at(s: Seq<(Text, SnapshotModel)>, k: int)
    requires
        distinct_keys(s),
        0 <= k < s.len(),
    ensures
        as_map(s).dom().contains(s[k].0),
        as_map(s)[s[k].0] == s[k].1,
    decreases s.len(),
{
    let d = s.drop_last();
    if k < d.len() {
        assert forall|i: int, j: int| 0 <= i < j < d.len() implies (#[trigger] d[i]).0
            != (#[trigger] d[j]).0 by {
            assert(s[i].0 != s[j].0);
        }
        lemma_as_map_at(d, k);
        assert(d[k] == s[k]);
        assert(s[k].0 != s[s.len() - 1].0);
    }
}

proof fn lemma_as_map_len(s: Seq<(Text, SnapshotModel)>)
    requires
        distinct_keys(s),
    ensures
        as_map(s).dom().len() == s.len(),
        as_map(s).dom().finite(),
    decreases s.len(),
{
    if s.len() > 0 {
        let d = s.drop_last();
        assert forall|i: int, j: int| 0 <= i < j < d.len() implies (#[trigger] d[i]).0
            != (#[trigger] d[j]).0 by {
            assert(s[i].0 != s[j].0);
        }
        lemma_as_map_len(d);
        lemma_as_map(d, s.last().0);
        if as_map(d).dom().contains(s.last().0) {
            let i = choose|i: int| 0 <= i < d.len() && (#[trigger] d[i]).0 == s.last().0;
            assert(s[i].0 != s[s.len() - 1].0);
        }
        assert(as_map(s).dom() =~= as_map(d).dom().insert(s.last().0));
    }
}

impl SnapshotCache {
    #[verifier::type_invariant]
    spec fn keyed(self) -> bool {
        distinct_keys(self.entries.deep_view())
    }

    /// An empty cache.
    pub fn new() -> (r: Self)
        ensures
            r@ == Map::<Text, SnapshotModel>::empty(),
    {
        let r = SnapshotCache { entries: Vec::new() };
        assert(r.entries.deep_view() =~= Seq::empty());
        r
    }

    pub fn len(&self) -> (r: usize)
        ensures
            r == self@.dom().len(),
            self@.dom().finite(),
    {
        proof {
            use_type_invariant(self);
            lemma_as_map_len(self.entries.deep_view());
        }
        self.entries.len()
    }

    /// Where the key stands.
    fn position(&self, key: &str) -> (r: Option<usize>)
        ensures
            match r {
                Some(k) => k < self.entries.len() && self.entries@[k as int].0@ == key@,
                None => forall|j: int|
                    0 <= j < self.entries.len() ==> (#[trigger] self.entries@[j]).0@ != key@,
            },
    {
        let mut i: usize = 0;
        while i < self.entries.len()
            invariant
                i <= self.entries.len(),
                forall|j: int| 0 <= j < i ==> (#[trigger] self.entries@[j]).0@ != key@,
            decreases self.entries.len() - i,
        {
            if str_equal(self.entries[i].0.as_str(), key) {
                return Some(i);
            }
            i += 1;
        }
        None
    }

    /// A copy of the schema with the fingerprint.
    pub fn get(&self, hash: &str) -> (r: Option<SchemaSnapshot>)
        ensures
            match r {
                Some(s) => self@.dom().contains(hash@) && self@[hash@] == s.deep_view(),
                None => !self@.dom().contains(hash@),
            },
    {
        let ghost all = self.entries.deep_view();
        proof {
            use_type_invariant(self);
            lemma_as_map(all, hash@);
        }
        match self.position(hash) {
            Some(k) => {
                proof {
                    assert(all[k as int].0 == hash@);
                    lemma_as_map_at(all, k as int);
                }
                Some(self.entries[k].1.clone())
            },
            None => {
                proof {
                    if exists|i: int| 0 <= i < all.len() && (#[trigger] all[i]).0 == hash@ {
                        let i = choose|i: int| 0 <= i < all.len() && (#[trigger] all[i]).0 == hash@;
                        assert(self.entries@[i].0@ == hash@);
                    }
                }
                None
            },
        }
    }

    /// Remembers a schema. A cache that holds more than its limit is emptied first.
    pub fn put(&mut self, hash: String, snapshot: SchemaSnapshot)
        ensures
            final(self)@ == if old(self)@.dom().len() > CACHE_LIMIT {
                Map::<Text, SnapshotModel>::empty().insert(hash@, snapshot.deep_view())
            } else {
                old(self)@.insert(hash@, snapshot.deep_view())
            },
    {
        proof {
            use_type_invariant(&*self);
            lemma_as_map_len(self.entries.deep_view());
        }
        let ghost key = hash@;
        let ghost value = snapshot.deep_view();
        if self.entries.len() > CACHE_LIMIT {
            let mut fresh: Vec<(String, SchemaSnapshot)> = Vec::new();
            fresh.push((hash, snapshot));
            assert(fresh.deep_view() =~= seq![(key, value)]);
            assert(fresh.deep_view().drop_last() =~= Seq::empty());
            proof {
                reveal_with_fuel(as_map, 2);
            }
            assert(as_map(fresh.deep_view()) =~= Map::<Text, SnapshotModel>::empty().insert(
                key,
                value,
            ));
            self.entries = fresh;
            return ;
        }
        let found = self.position(hash.as_str());
        let ghost all = self.entries.deep_view();
        let mut entries: Vec<(String, SchemaSnapshot)> = Vec::new();
        std::mem::swap(&mut entries, &mut self.entries);
        assert(entries.deep_view() == all);
        match found {
            Some(k) => {
                let _ = entries.remove(k);
                assert(entries.deep_view() =~= all.remove(k as int));
                proof {
                    lemma_without(all, k as int);
                }
            },
            None => {
                proof {
                    lemma_as_map(all, key);
                    if exists|i: int| 0 <= i < all.len() && (#[trigger] all[i]).0 == key {
                        let i = choose|i: int| 0 <= i < all.len() && (#[trigger] all[i]).0 == key;
                        assert(entries@[i].0@ == key);
                    }
                    assert forall|i: int| 0 <= i < all.len() implies (#[trigger] all[i]).0 != key by {
                        assert(entries@[i].0@ != key);
                    }
                }
            },
        }
        let ghost kept = entries.deep_view();
        entries.push((hash, snapshot));
        assert(entries.deep_view() =~= kept.push((key, value)));
        assert(kept.push((key, value)).drop_last() =~= kept);
        assert(as_map(kept.push((key, value))) =~= as_map(all).insert(key, value));
        self.entries = entries;
    }

    /// Forgets everything.
    pub fn clear(&mut self)
        ensures
            final(self)@ == Map::<Text, SnapshotModel>::empty(),
    {
        let fresh: Vec<(String, SchemaSnapshot)> = Vec::new();
        assert(fresh.deep_view() =~= Seq::empty());
        self.entries = fresh;
    }
}

/// Taking an entry out of the list takes its key out of the map.
proof fn lemma_without(s: Seq<(Text, SnapshotModel)>, k: int)
    requires
        distinct_keys(s),
        0 <= k < s.len(),
    ensures
        distinct_keys(s.remove(k)),
        forall|i: int| 0 <= i < s.remove(k).len() ==> (#[trigger] s.remove(k)[i]).0 != s[k].0,
        as_map(s.remove(k)) == as_map(s).remove(s[k].0),
{
    let t = s.remove(k);
    assert forall|i: int, j: int| 0 <= i < j < t.len() implies (#[trigger] t[i]).0
        != (#[trigger] t[j]).0 by {
        let a = if i < k {
            i
        } else {
            i + 1
        };
        let b = if j < k {
            j
        } else {
            j + 1
        };
        assert(s[a].0 != s[b].0);
    }
    assert forall|i: int| 0 <= i < t.len() implies (#[trigger] t[i]).0 != s[k].0 by {
        if i < k {
            assert(s[i].0 != s[k].0);
        } else {
            assert(s[k].0 != s[i + 1].0);
        }
    }
    let x = as_map(t);
    let y = as_map(s).remove(s[k].0);
    assert forall|key: Text| x.dom().contains(key) <==> y.dom().contains(key) by {
        lemma_as_map(t, key);
        lemma_as_map(s, key);
        if x.dom().contains(key) {
            let i = choose|i: int| 0 <= i < t.len() && (#[trigger] t[i]).0 == key;
            let a = if i < k {
                i
            } else {
                i + 1
            };
            assert(s[a].0 == key);
        }
        if y.dom().contains(key) {
            let i = choose|i: int| 0 <= i < s.len() && (#[trigger] s[i]).0 == key;
            let a = if i < k {
                i
            } else {
                i - 1
            };
            assert(t[a].0 == key);
        }
    }
    assert forall|key: Text| #[trigger] x.dom().contains(key) implies x[key] == y[key] by {
        lemma_as_map(t, key);
        let i = choose|i: int| 0 <= i < t.len() && (#[trigger] t[i]).0 == key;
        let a = if i < k {
            i
        } else {
            i + 1
        };
        assert(s[a] == t[i]);
        lemma_as_map_at(t, i);
        lemma_as_map_at(s, a);
    }
    assert(x =~= y);
}

impl SchemaSnapshot {
    /// How many schemas the cache holds.
    pub fn snapshot_cache_len_for_tests(cache: &SnapshotCache) -> (r: usize)
        ensures
            r == cache@.dom().len(),
    {
        cache.len()
    }

    /// Empties the cache.
    pub fn clear_snapshot_cache_for_tests(cache: &mut SnapshotCache)
        ensures
            final(cache)@ == Map::<Text, SnapshotModel>::empty(),
    {
        cache.clear();
    }
}

/// The cache never holds more than one schema beyond its limit.
pub proof fn lemma_cache_bounded(
    before: Map<Text, SnapshotModel>,
    after: Map<Text, SnapshotModel>,
    key: Text,
    value: SnapshotModel,
)
    requires
        before.dom().finite(),
        before.dom().len() <= CACHE_LIMIT + 1,
        after == (if before.dom().len() > CACHE_LIMIT {
            Map::<Text, SnapshotModel>::empty().insert(key, value)
        } else {
            before.insert(key, value)
        }),
    ensures
        after.dom().len() <= CACHE_LIMIT + 1,
        after.dom().contains(key),
        after[key] == value,
{
    assert(Map::<Text, SnapshotModel>::empty().insert(key, value).dom() =~= set![key]);
    assert(before.insert(key, value).dom() =~= before.dom().insert(key));
}

} // verus!
