//! The statements that carry out a difference, in an order that works.

use vstd::prelude::*;

use crate::diff::SchemaDiff;
#[allow(unused_imports)]
use crate::diff::DiffModel;
use crate::error::MigrateError;
#[allow(unused_imports)]
use crate::error::ErrorModel;
use crate::format::{decimal_of, double_char, glue2, glue3, glue4, join, quote_ident};
#[allow(unused_imports)]
use crate::format::{decimal, doubled, joined, quoted_ident};
use crate::lists::{clone_strings, holds_name, sort_texts};
#[allow(unused_imports)]
use crate::lists::{
    gather, has_name, lemma_gather_step, lemma_name_index, sorted_set,
};
use crate::order::{arrange, stage, Item, Named};
#[allow(unused_imports)]
use crate::order::{arranged, item_names, names_in, staged, ItemModel, NamedModel};
use crate::schema::{
    find_column, CIMap, ColumnInfo, IndexInfo, SchemaSnapshot, Stated, TableInfo, TriggerInfo,
    ViewInfo,
};
#[allow(unused_imports)]
use crate::schema::{
    column_names, fk_targets, index_texts, keys, lemma_deep_keys, lookup, table_texts, texts_of,
    trigger_texts, view_texts, ColumnModel, IndexModel, SnapshotModel, TableModel, TriggerModel,
    ViewModel,
};
use crate::search::{
    chars_match_at, find_chars, lower_is, lower_starts_with, skip_space, skip_word,
};
#[allow(unused_imports)]
use crate::search::{find, matches_at, part_len, past_space, past_word, starts_with};
use crate::text::{chars_of, lower_chars, string_of_range, word_char, Text};
#[allow(unused_imports)]
use crate::text::{is_word_char, lower};

verus! {

// ---------------------------------------------------------------------------
// The result
// ---------------------------------------------------------------------------

/// What to run. The first lists say what the statements are about.
#[derive(Debug, PartialEq, Eq)]
pub struct MigrationPlan {
    pub new_tables: Vec<String>,
    pub altered_tables: Vec<String>,
    pub rebuilt_tables: Vec<String>,
    pub new_indexes: Vec<String>,
    pub changed_indexes: Vec<String>,
    pub new_views: Vec<String>,
    pub changed_views: Vec<String>,
    /// The statements that run in transactions.
    pub transactional_stmts: Vec<String>,
    /// The statements that cannot run in a transaction.
    pub non_transactional_stmts: Vec<String>,
}

#[verifier::ext_equal]
pub struct PlanModel {
    pub new_tables: Seq<Text>,
    pub altered_tables: Seq<Text>,
    pub rebuilt_tables: Seq<Text>,
    pub new_indexes: Seq<Text>,
    pub changed_indexes: Seq<Text>,
    pub new_views: Seq<Text>,
    pub changed_views: Seq<Text>,
    pub transactional_stmts: Seq<Text>,
    pub non_transactional_stmts: Seq<Text>,
}

impl DeepView for MigrationPlan {
    type V = PlanModel;

    open spec fn deep_view(&self) -> PlanModel {
        PlanModel {
            new_tables: self.new_tables.deep_view(),
            altered_tables: self.altered_tables.deep_view(),
            rebuilt_tables: self.rebuilt_tables.deep_view(),
            new_indexes: self.new_indexes.deep_view(),
            changed_indexes: self.changed_indexes.deep_view(),
            new_views: self.new_views.deep_view(),
            changed_views: self.changed_views.deep_view(),
            transactional_stmts: self.transactional_stmts.deep_view(),
            non_transactional_stmts: self.non_transactional_stmts.deep_view(),
        }
    }
}

impl Clone for MigrationPlan {
    fn clone(&self) -> (r: Self)
        ensures
            r.deep_view() == self.deep_view(),
    {
        MigrationPlan {
            new_tables: clone_strings(&self.new_tables),
            altered_tables: clone_strings(&self.altered_tables),
            rebuilt_tables: clone_strings(&self.rebuilt_tables),
            new_indexes: clone_strings(&self.new_indexes),
            changed_indexes: clone_strings(&self.changed_indexes),
            new_views: clone_strings(&self.new_views),
            changed_views: clone_strings(&self.changed_views),
            transactional_stmts: clone_strings(&self.transactional_stmts),
            non_transactional_stmts: clone_strings(&self.non_transactional_stmts),
        }
    }
}

impl PlanModel {
    /// There is nothing to run.
    pub open spec fn idle(self) -> bool {
        self.transactional_stmts.len() == 0 && self.non_transactional_stmts.len() == 0
    }
}

impl MigrationPlan {
    /// Whether there is nothing to run.
    pub fn is_empty(&self) -> (r: bool)
        ensures
            r == self.deep_view().idle(),
    {
        self.transactional_stmts.len() == 0 && self.non_transactional_stmts.len() == 0
    }
}

// ---------------------------------------------------------------------------
// Names
// ---------------------------------------------------------------------------

/// Whether the planner must never drop the table.
pub open spec fn protected(name: Text) -> bool {
    let n = lower(name);
    ||| n == "_schema_meta"@
    ||| n == "_turso_migrations"@
    ||| starts_with(n, "_converge_new_"@)
    ||| starts_with(n, "_cap_probe_"@)
    ||| starts_with(n, "sqlite_"@)
    ||| starts_with(n, "fts_dir_"@)
    ||| starts_with(n, "__turso_internal"@)
}

/// Whether the planner must never drop the table.
pub fn is_protected_table(name: &str) -> (r: bool)
    ensures
        r == protected(name@),
{
    lower_is(name, "_schema_meta") || lower_is(name, "_turso_migrations") || lower_starts_with(
        name,
        "_converge_new_",
    ) || lower_starts_with(name, "_cap_probe_") || lower_starts_with(name, "sqlite_")
        || lower_starts_with(name, "fts_dir_") || lower_starts_with(name, "__turso_internal")
}

/// The name of the table that takes the place of the `seq`-th rebuilt one.
pub open spec fn temp_name(table: Text, seq: nat) -> Text {
    "_converge_new_"@ + table + "_"@ + decimal(seq)
}

fn temp_table_name(table: &str, seq: usize) -> (r: String)
    ensures
        r@ == temp_name(table@, seq as nat),
{
    let n = decimal_of(seq as u64);
    glue4("_converge_new_", table, "_", n.as_str())
}

// ---------------------------------------------------------------------------
// Lists of names
// ---------------------------------------------------------------------------

pub open spec fn trigger_on(tables: Seq<Text>) -> spec_fn((Text, TriggerModel)) -> Seq<Text> {
    |e: (Text, TriggerModel)|
        if has_name(tables, e.1.table_name) {
            seq![e.1.name]
        } else {
            Seq::empty()
        }
}

pub open spec fn index_on(fts: bool, tables: Seq<Text>) -> spec_fn((Text, IndexModel)) -> Seq<
    Text,
> {
    |e: (Text, IndexModel)|
        if e.1.is_fts == fts && has_name(tables, e.1.table_name) {
            seq![e.1.name]
        } else {
            Seq::empty()
        }
}

/// The named triggers, and those on rebuilt tables: sorted, each once.
pub open spec fn with_triggers(
    names: Seq<Text>,
    triggers: Seq<(Text, TriggerModel)>,
    rebuilt: Seq<Text>,
) -> Seq<Text> {
    sorted_set(names + gather(triggers, trigger_on(rebuilt)))
}

/// The named indexes, and those of the kind on rebuilt tables: sorted, each once.
pub open spec fn with_indexes(
    names: Seq<Text>,
    fts: bool,
    indexes: Seq<(Text, IndexModel)>,
    rebuilt: Seq<Text>,
) -> Seq<Text> {
    sorted_set(names + gather(indexes, index_on(fts, rebuilt)))
}

/// The named views, and all of them where a table is rebuilt: sorted, each once.
pub open spec fn with_views(
    names: Seq<Text>,
    views: Seq<(Text, ViewModel)>,
    rebuilt: Seq<Text>,
) -> Seq<Text> {
    if rebuilt.len() > 0 {
        sorted_set(names + keys(views))
    } else {
        sorted_set(names)
    }
}

pub open spec fn if_in(names: Seq<Text>, wanted: bool) -> spec_fn(Text) -> Seq<Text> {
    |n: Text|
        if has_name(names, n) == wanted {
            seq![n]
        } else {
            Seq::empty()
        }
}

pub open spec fn if_not_protected() -> spec_fn(Text) -> Seq<Text> {
    |n: Text|
        if protected(n) {
            Seq::empty()
        } else {
            seq![n]
        }
}

/// The first of each pair.
pub open spec fn first_parts<A>(pairs: Seq<(Text, A)>) -> Seq<Text> {
    Seq::new(pairs.len(), |i: int| pairs[i].0)
}

/// The tables of the renamed columns.
pub open spec fn renamed_in(renames: Seq<(Text, Text, Text)>) -> Seq<Text> {
    Seq::new(renames.len(), |i: int| renames[i].0)
}

/// The tables whose columns are renamed, added or dropped in place: sorted, each once.
pub open spec fn altered(diff: DiffModel) -> Seq<Text> {
    sorted_set(
        renamed_in(diff.columns_to_rename) + first_parts(diff.columns_to_add) + first_parts(
            diff.columns_to_drop,
        ),
    )
}

// ---------------------------------------------------------------------------
// Statements
// ---------------------------------------------------------------------------

/// A statement that drops each name.
pub open spec fn drop_statements(prefix: Text, names: Seq<Text>) -> Seq<Text> {
    Seq::new(names.len(), |i: int| prefix + quoted_ident(names[i]))
}

pub open spec fn rename_statement(r: (Text, Text, Text)) -> Text {
    "ALTER TABLE "@ + quoted_ident(r.0) + " RENAME COLUMN "@ + quoted_ident(r.1) + " TO "@
        + quoted_ident(r.2)
}

pub open spec fn drop_column_statement(d: (Text, Text)) -> Text {
    "ALTER TABLE "@ + quoted_ident(d.0) + " DROP COLUMN "@ + quoted_ident(d.1)
}

pub open spec fn add_column_statement(table: Text, col: ColumnModel) -> Text {
    "ALTER TABLE "@ + quoted_ident(table) + " ADD COLUMN "@ + quoted_ident(col.name) + " "@
        + col.col_type + (if col.notnull {
        " NOT NULL"@
    } else {
        Seq::empty()
    }) + (match col.default_value {
        Some(d) => " DEFAULT "@ + d,
        None => Seq::empty(),
    }) + (match col.collation {
        Some(c) => " COLLATE "@ + c,
        None => Seq::empty(),
    })
}

pub open spec fn if_insertable() -> spec_fn(ColumnModel) -> Seq<ColumnModel> {
    |c: ColumnModel|
        if c.insertable() {
            seq![c]
        } else {
            Seq::empty()
        }
}

/// The columns that take values.
pub open spec fn insertable_columns(columns: Seq<ColumnModel>) -> Seq<ColumnModel> {
    gather(columns, if_insertable())
}

/// What a column of the new table gets: the old value, the default, or NULL.
pub open spec fn copied_value(c: ColumnModel, actual: Seq<ColumnModel>) -> Text {
    if has_name(column_names(insertable_columns(actual)), c.name) {
        quoted_ident(c.name)
    } else {
        match c.default_value {
            Some(d) => d,
            None => "NULL"@,
        }
    }
}

pub open spec fn quoted_names(columns: Seq<ColumnModel>) -> Seq<Text> {
    Seq::new(columns.len(), |i: int| quoted_ident(columns[i].name))
}

pub open spec fn copied_values(columns: Seq<ColumnModel>, actual: Seq<ColumnModel>) -> Seq<Text> {
    Seq::new(columns.len(), |i: int| copied_value(columns[i], actual))
}

/// The statement that copies the rows of the old table into the new one.
pub open spec fn copy_statement(
    table: Text,
    temp: Text,
    desired: Seq<ColumnModel>,
    actual: Seq<ColumnModel>,
) -> Text {
    let columns = insertable_columns(desired);
    "INSERT INTO "@ + quoted_ident(temp) + " ("@ + joined(quoted_names(columns), ", "@)
        + ") SELECT "@ + joined(copied_values(columns, actual), ", "@) + " FROM "@ + quoted_ident(
        table,
    )
}

/// The position behind the word `w` at `i` and the white space that follows it, where
/// that word stands there, whatever its case.
pub open spec fn past_keyword(t: Text, i: int, w: Text) -> Option<int> {
    if matches_at(lower(t), w, i) && (i + w.len() == t.len() || !is_word_char(t[i + w.len()])) {
        Some(past_space(t, i + w.len()))
    } else {
        None
    }
}

/// The position behind IF NOT EXISTS at `i`, or `i` where that does not stand there.
pub open spec fn past_if_not_exists(t: Text, i: int) -> int {
    match past_keyword(t, i, "if"@) {
        Some(j) => match past_keyword(t, j, "not"@) {
            Some(k) => match past_keyword(t, k, "exists"@) {
                Some(m) => m,
                None => i,
            },
            None => i,
        },
        None => i,
    }
}

/// The position behind the table name at `i`: a quoted name up to its closing quote,
/// or a bare one.
pub open spec fn name_end(t: Text, i: int) -> int {
    if t[i] == '"' {
        let k = i + 1 + part_len(t.skip(i + 1), '"');
        if k < t.len() {
            k + 1
        } else {
            k
        }
    } else {
        past_word(t, i)
    }
}

/// The CREATE TABLE statement with another table name.
pub open spec fn with_table_name(sql: Text, name: Text) -> Text {
    match find(lower(sql), "create table"@) {
        Some(p) => {
            let i = past_if_not_exists(sql, past_space(sql, p + "create table"@.len()));
            if i >= sql.len() {
                sql
            } else {
                sql.take(i) + quoted_ident(name) + sql.skip(name_end(sql, i))
            }
        },
        None => sql,
    }
}

/// Whether a column of the new table would be left without a value: it is new, takes
/// values, must not be null and has no default.
pub open spec fn unfilled(c: ColumnModel, actual: Seq<ColumnModel>) -> bool {
    c.insertable() && !has_name(column_names(actual), c.name) && c.notnull && c.default_value is None
}

/// The first column from `i` on that would be left without a value.
pub open spec fn first_unfilled(
    desired: Seq<ColumnModel>,
    actual: Seq<ColumnModel>,
    i: int,
) -> Option<int>
    decreases desired.len() - i,
{
    if i < 0 || i >= desired.len() {
        None
    } else if unfilled(desired[i], actual) {
        Some(i)
    } else {
        first_unfilled(desired, actual, i + 1)
    }
}

pub open spec fn unfilled_message(table: Text, column: Text) -> Text {
    "Table '"@ + table + "' rebuild would add NOT NULL column '"@ + column
        + "' without DEFAULT. Existing rows would violate the constraint. Add a DEFAULT value to the column definition."@
}

/// The statement that deletes the saved AUTOINCREMENT counter of a table.
pub open spec fn counter_deletion(table: Text) -> Text {
    "DELETE FROM _schema_meta WHERE key = 'autoincrement_seq_"@ + doubled(table, '\'') + "'"@
}

/// The statements that rebuild a table: make a new one, copy the rows, put it in the
/// place of the old one, and keep the AUTOINCREMENT counter. Where the counter was saved
/// on the way, it is deleted in the end.
pub open spec fn rebuild_statements(
    table: Text,
    seq: nat,
    desired: TableModel,
    actual: TableModel,
) -> Seq<Text> {
    let temp = temp_name(table, seq);
    let name = doubled(table, '\'');
    seq!["DROP TABLE IF EXISTS "@ + quoted_ident(temp)] + (if actual.has_autoincrement {
        seq![
            "INSERT OR REPLACE INTO _schema_meta (key, value) SELECT 'autoincrement_seq_"@ + name
                + "', seq FROM sqlite_sequence WHERE name = '"@ + name + "'"@,
        ]
    } else {
        Seq::empty()
    }) + seq![
        with_table_name(desired.sql, temp),
        copy_statement(table, temp, desired.columns, actual.columns),
        "DROP TABLE "@ + quoted_ident(table),
        "ALTER TABLE "@ + quoted_ident(temp) + " RENAME TO "@ + quoted_ident(table),
    ] + (if desired.has_autoincrement {
        seq![
            "INSERT OR REPLACE INTO sqlite_sequence (name, seq) SELECT '"@ + name
                + "', CAST(value AS INTEGER) FROM _schema_meta WHERE key = 'autoincrement_seq_"@
                + name + "'"@,
        ]
    } else {
        Seq::empty()
    }) + (if actual.has_autoincrement || desired.has_autoincrement {
        seq![counter_deletion(table)]
    } else {
        Seq::empty()
    })
}

/// The statements that rebuild the first `n` of the tables.
pub open spec fn rebuilds(
    tables: Seq<Text>,
    desired: SnapshotModel,
    actual: SnapshotModel,
    n: int,
) -> Seq<Text>
    decreases n,
{
    if n <= 0 {
        Seq::empty()
    } else {
        let t = tables[n - 1];
        let before = rebuilds(tables, desired, actual, n - 1);
        match (lookup(desired.tables, t), lookup(actual.tables, t)) {
            (Some(d), Some(a)) => before + rebuild_statements(t, (n - 1) as nat, d, a),
            _ => before,
        }
    }
}

/// Why a table cannot be rebuilt, if so.
pub open spec fn rebuild_refusal(
    table: Text,
    desired: SnapshotModel,
    actual: SnapshotModel,
) -> Option<Text> {
    match (lookup(desired.tables, table), lookup(actual.tables, table)) {
        (Some(d), Some(a)) => match first_unfilled(d.columns, a.columns, 0) {
            Some(i) => Some(unfilled_message(table, d.columns[i].name)),
            None => None,
        },
        _ => None,
    }
}

/// Why the first of the tables from `i` on that cannot be rebuilt cannot, if so.
pub open spec fn first_refusal(
    tables: Seq<Text>,
    desired: SnapshotModel,
    actual: SnapshotModel,
    i: int,
) -> Option<Text>
    decreases tables.len() - i,
{
    if i < 0 || i >= tables.len() {
        None
    } else {
        match rebuild_refusal(tables[i], desired, actual) {
            Some(m) => Some(m),
            None => first_refusal(tables, desired, actual, i + 1),
        }
    }
}

/// The statement that a map holds for a name, if it holds one.
pub open spec fn sql_in(texts: Seq<(Text, Text)>) -> spec_fn(Text) -> Seq<Text> {
    |n: Text|
        match lookup(texts, n) {
            Some(sql) => seq![sql],
            None => Seq::empty(),
        }
}

/// The tables that a new table must come behind: those that it points to and that are
/// not in the database yet.
pub open spec fn new_table_item(
    desired: SnapshotModel,
    actual: SnapshotModel,
    table: Text,
) -> ItemModel {
    ItemModel {
        name: table,
        needs: match lookup(desired.tables, table) {
            Some(t) => gather(
                sorted_set(fk_targets(t.foreign_keys)),
                if_in(keys(actual.tables), false),
            ),
            None => Seq::empty(),
        },
    }
}

pub open spec fn new_table_items(
    names: Seq<Text>,
    desired: SnapshotModel,
    actual: SnapshotModel,
) -> Seq<ItemModel> {
    Seq::new(names.len(), |i: int| new_table_item(desired, actual, names[i]))
}

/// The new tables in the order of their foreign keys.
pub open spec fn ordered_tables(
    to_create: Seq<Text>,
    desired: SnapshotModel,
    actual: SnapshotModel,
) -> Seq<Text> {
    item_names(arranged(new_table_items(sorted_set(to_create), desired, actual)))
}

pub open spec fn view_item(views: Seq<(Text, ViewModel)>, name: Text) -> NamedModel {
    NamedModel {
        name,
        sql: lookup(view_texts(views), name),
    }
}

pub open spec fn view_items(names: Seq<Text>, views: Seq<(Text, ViewModel)>) -> Seq<NamedModel> {
    Seq::new(names.len(), |i: int| view_item(views, names[i]))
}

/// The views in an order in which each comes behind those it mentions.
pub open spec fn ordered_views(names: Seq<Text>, views: Seq<(Text, ViewModel)>) -> Seq<Text> {
    names_in(staged(view_items(names, views)))
}

pub open spec fn rename_statements(renames: Seq<(Text, Text, Text)>) -> Seq<Text> {
    Seq::new(renames.len(), |i: int| rename_statement(renames[i]))
}

pub open spec fn add_column_statements(adds: Seq<(Text, ColumnModel)>) -> Seq<Text> {
    Seq::new(adds.len(), |i: int| add_column_statement(adds[i].0, adds[i].1))
}

pub open spec fn drop_column_statements(drops: Seq<(Text, Text)>) -> Seq<Text> {
    Seq::new(drops.len(), |i: int| drop_column_statement(drops[i]))
}

/// The statements that run in transactions: what goes away, then tables, then
/// columns, then rebuilds, then indexes, views and triggers.
pub open spec fn transactional(
    diff: DiffModel,
    desired: SnapshotModel,
    actual: SnapshotModel,
) -> Seq<Text> {
    let rebuilt = diff.tables_to_rebuild;
    drop_statements(
        "DROP TRIGGER IF EXISTS "@,
        with_triggers(diff.triggers_to_drop, actual.triggers, rebuilt),
    ) + drop_statements(
        "DROP VIEW IF EXISTS "@,
        gather(
            with_views(diff.views_to_drop, actual.views, rebuilt),
            if_in(keys(actual.views), true),
        ),
    ) + drop_statements(
        "DROP INDEX IF EXISTS "@,
        with_indexes(diff.indexes_to_drop, false, actual.indexes, rebuilt),
    ) + drop_statements(
        "DROP TABLE IF EXISTS "@,
        gather(diff.tables_to_drop, if_not_protected()),
    ) + gather(ordered_tables(diff.tables_to_create, desired, actual), sql_in(table_texts(desired.tables)))
        + rename_statements(diff.columns_to_rename) + add_column_statements(diff.columns_to_add)
        + drop_column_statements(diff.columns_to_drop) + rebuilds(
        rebuilt,
        desired,
        actual,
        rebuilt.len() as int,
    ) + gather(
        with_indexes(diff.indexes_to_create, false, desired.indexes, rebuilt),
        sql_in(index_texts(desired.indexes)),
    ) + gather(
        ordered_views(with_views(diff.views_to_create, desired.views, rebuilt), desired.views),
        sql_in(view_texts(desired.views)),
    ) + gather(
        with_triggers(diff.triggers_to_create, desired.triggers, rebuilt),
        sql_in(trigger_texts(desired.triggers)),
    )
}

/// The statements that run outside transactions: full-text indexes.
pub open spec fn non_transactional(
    diff: DiffModel,
    desired: SnapshotModel,
    actual: SnapshotModel,
) -> Seq<Text> {
    let rebuilt = diff.tables_to_rebuild;
    drop_statements(
        "DROP INDEX IF EXISTS "@,
        with_indexes(diff.fts_indexes_to_drop, true, actual.indexes, rebuilt),
    ) + gather(
        with_indexes(diff.fts_indexes_to_create, true, desired.indexes, rebuilt),
        sql_in(index_texts(desired.indexes)),
    )
}

/// The plan for a difference.
pub open spec fn plan_of(
    diff: DiffModel,
    desired: SnapshotModel,
    actual: SnapshotModel,
) -> PlanModel {
    let rebuilt = diff.tables_to_rebuild;
    let indexes = with_indexes(diff.indexes_to_create, false, desired.indexes, rebuilt);
    let views = with_views(diff.views_to_create, desired.views, rebuilt);
    PlanModel {
        new_tables: ordered_tables(diff.tables_to_create, desired, actual),
        altered_tables: altered(diff),
        rebuilt_tables: sorted_set(rebuilt),
        new_indexes: gather(indexes, if_in(keys(actual.indexes), false)),
        changed_indexes: gather(indexes, if_in(keys(actual.indexes), true)),
        new_views: gather(views, if_in(keys(actual.views), false)),
        changed_views: gather(views, if_in(keys(actual.views), true)),
        transactional_stmts: transactional(diff, desired, actual),
        non_transactional_stmts: non_transactional(diff, desired, actual),
    }
}

// ---------------------------------------------------------------------------
// Lists of names, executable
// ---------------------------------------------------------------------------

/// Appends a copy of each string.
fn append_copies(list: &mut Vec<String>, more: &Vec<String>)
    ensures
        final(list).deep_view() == old(list).deep_view() + more.deep_view(),
{
    let ghost before = list.deep_view();
    let ghost all = more.deep_view();
    let mut copy = clone_strings(more);
    list.append(&mut copy);
    assert(list.deep_view() =~= before + all);
}

/// The named triggers, and those on rebuilt tables.
fn add_triggers_on(
    names: &Vec<String>,
    triggers: &CIMap<TriggerInfo>,
    rebuilt: &Vec<String>,
) -> (r: Vec<String>)
    ensures
        r.deep_view() == with_triggers(
            names.deep_view(),
            triggers.deep_view(),
            rebuilt.deep_view(),
        ),
{
    let ghost all = triggers.deep_view();
    let ghost f = trigger_on(rebuilt.deep_view());
    let ghost start = names.deep_view();
    let mut list = clone_strings(names);
    let mut i: usize = 0;
    assert(all.take(0) =~= Seq::empty());
    assert(start + Seq::<Text>::empty() =~= start);
    while i < triggers.len()
        invariant
            i <= triggers@.len(),
            all == triggers.deep_view(),
            f == trigger_on(rebuilt.deep_view()),
            list.deep_view() == start + gather(all.take(i as int), f),
        decreases triggers@.len() - i,
    {
        let ghost part = gather(all.take(i as int), f);
        let ghost now = list.deep_view();
        proof {
            lemma_gather_step(all, i as int, f);
        }
        let trigger = triggers.value_at(i);
        assert(all[i as int].1 == trigger.deep_view());
        if holds_name(rebuilt, trigger.table_name.as_str()) {
            list.push(trigger.name.clone());
            assert(list.deep_view() =~= now.push(trigger.name@));
            assert(list.deep_view() =~= start + (part + seq![trigger.name@]));
        } else {
            assert(part + Seq::<Text>::empty() =~= part);
        }
        i += 1;
    }
    assert(all.take(i as int) =~= all);
    sort_texts(&list)
}

/// The named indexes, and those of the kind on rebuilt tables.
fn add_indexes_on(
    names: &Vec<String>,
    fts: bool,
    indexes: &CIMap<IndexInfo>,
    rebuilt: &Vec<String>,
) -> (r: Vec<String>)
    ensures
        r.deep_view() == with_indexes(
            names.deep_view(),
            fts,
            indexes.deep_view(),
            rebuilt.deep_view(),
        ),
{
    let ghost all = indexes.deep_view();
    let ghost f = index_on(fts, rebuilt.deep_view());
    let ghost start = names.deep_view();
    let mut list = clone_strings(names);
    let mut i: usize = 0;
    assert(all.take(0) =~= Seq::empty());
    assert(start + Seq::<Text>::empty() =~= start);
    while i < indexes.len()
        invariant
            i <= indexes@.len(),
            all == indexes.deep_view(),
            f == index_on(fts, rebuilt.deep_view()),
            list.deep_view() == start + gather(all.take(i as int), f),
        decreases indexes@.len() - i,
    {
        let ghost part = gather(all.take(i as int), f);
        let ghost now = list.deep_view();
        proof {
            lemma_gather_step(all, i as int, f);
        }
        let index = indexes.value_at(i);
        assert(all[i as int].1 == index.deep_view());
        if index.is_fts == fts && holds_name(rebuilt, index.table_name.as_str()) {
            list.push(index.name.clone());
            assert(list.deep_view() =~= now.push(index.name@));
            assert(list.deep_view() =~= start + (part + seq![index.name@]));
        } else {
            assert(part + Seq::<Text>::empty() =~= part);
        }
        i += 1;
    }
    assert(all.take(i as int) =~= all);
    sort_texts(&list)
}

/// The named views, and all of them where a table is rebuilt.
fn add_views(names: &Vec<String>, views: &CIMap<ViewInfo>, rebuilt: &Vec<String>) -> (r: Vec<
    String,
>)
    ensures
        r.deep_view() == with_views(names.deep_view(), views.deep_view(), rebuilt.deep_view()),
{
    if rebuilt.len() == 0 {
        return sort_texts(names);
    }
    let ghost all = keys(views.deep_view());
    let ghost start = names.deep_view();
    let mut list = clone_strings(names);
    let mut i: usize = 0;
    assert(start + all.take(0) =~= start);
    while i < views.len()
        invariant
            i <= views@.len(),
            all == keys(views.deep_view()),
            list.deep_view() == start + all.take(i as int),
        decreases views@.len() - i,
    {
        let ghost now = list.deep_view();
        let name = views.key_at(i).to_owned();
        assert(all[i as int] == name@);
        list.push(name);
        assert(list.deep_view() =~= now.push(all[i as int]));
        assert(list.deep_view() =~= start + all.take(i + 1));
        i += 1;
    }
    assert(all.take(i as int) =~= all);
    sort_texts(&list)
}

/// The names that are in the map, or those that are not.
fn select_in<V>(names: &Vec<String>, map: &CIMap<V>, wanted: bool) -> (r: Vec<String>)
    ensures
        r.deep_view() == gather(names.deep_view(), if_in(keys(map@), wanted)),
{
    let ghost all = names.deep_view();
    let ghost f = if_in(keys(map@), wanted);
    let mut r: Vec<String> = Vec::new();
    let mut i: usize = 0;
    assert(all.take(0) =~= Seq::empty());
    assert(r.deep_view() =~= Seq::empty());
    while i < names.len()
        invariant
            i <= names.len(),
            all == names.deep_view(),
            f == if_in(keys(map@), wanted),
            r.deep_view() == gather(all.take(i as int), f),
        decreases names.len() - i,
    {
        let ghost now = r.deep_view();
        proof {
            lemma_gather_step(all, i as int, f);
            lemma_name_index(keys(map@), all[i as int]);
        }
        assert(all[i as int] == names@[i as int]@);
        if map.position(names[i].as_str()).is_some() == wanted {
            r.push(names[i].clone());
            assert(r.deep_view() =~= now + seq![all[i as int]]);
        } else {
            assert(now + Seq::<Text>::empty() =~= now);
        }
        i += 1;
    }
    assert(all.take(i as int) =~= all);
    r
}

/// The names that may be dropped.
fn select_unprotected(names: &Vec<String>) -> (r: Vec<String>)
    ensures
        r.deep_view() == gather(names.deep_view(), if_not_protected()),
{
    let ghost all = names.deep_view();
    let ghost f = if_not_protected();
    let mut r: Vec<String> = Vec::new();
    let mut i: usize = 0;
    assert(all.take(0) =~= Seq::empty());
    assert(r.deep_view() =~= Seq::empty());
    while i < names.len()
        invariant
            i <= names.len(),
            all == names.deep_view(),
            f == if_not_protected(),
            r.deep_view() == gather(all.take(i as int), f),
        decreases names.len() - i,
    {
        let ghost now = r.deep_view();
        proof {
            lemma_gather_step(all, i as int, f);
        }
        assert(all[i as int] == names@[i as int]@);
        if !is_protected_table(names[i].as_str()) {
            r.push(names[i].clone());
            assert(r.deep_view() =~= now + seq![all[i as int]]);
        } else {
            assert(now + Seq::<Text>::empty() =~= now);
        }
        i += 1;
    }
    assert(all.take(i as int) =~= all);
    r
}

/// The statements that a map holds for the names.
fn statements_for<V: Stated>(names: &Vec<String>, map: &CIMap<V>) -> (r: Vec<String>)
    ensures
        r.deep_view() == gather(names.deep_view(), sql_in(texts_of(map@))),
{
    let ghost all = names.deep_view();
    let ghost texts = texts_of(map@);
    let ghost f = sql_in(texts);
    assert(keys(texts) =~= keys(map@));
    let mut r: Vec<String> = Vec::new();
    let mut i: usize = 0;
    assert(all.take(0) =~= Seq::empty());
    assert(r.deep_view() =~= Seq::empty());
    while i < names.len()
        invariant
            i <= names.len(),
            all == names.deep_view(),
            texts == texts_of(map@),
            keys(texts) == keys(map@),
            f == sql_in(texts),
            r.deep_view() == gather(all.take(i as int), f),
        decreases names.len() - i,
    {
        let ghost now = r.deep_view();
        proof {
            lemma_gather_step(all, i as int, f);
            lemma_name_index(keys(texts), all[i as int]);
        }
        assert(all[i as int] == names@[i as int]@);
        match map.position(names[i].as_str()) {
            Some(k) => {
                let sql = map.value_at(k).statement_text();
                assert(texts[k as int].1 == sql@);
                r.push(sql.to_owned());
                assert(r.deep_view() =~= now + seq![sql@]);
            },
            None => {
                assert(now + Seq::<Text>::empty() =~= now);
            },
        }
        i += 1;
    }
    assert(all.take(i as int) =~= all);
    r
}

/// Appends the first of each pair.
fn push_first_parts<V: DeepView>(out: &mut Vec<String>, pairs: &Vec<(String, V)>)
    ensures
        final(out).deep_view() == old(out).deep_view() + first_parts(pairs.deep_view()),
{
    let ghost before = out.deep_view();
    let ghost all = first_parts(pairs.deep_view());
    let mut i: usize = 0;
    assert(before + all.take(0) =~= before);
    while i < pairs.len()
        invariant
            i <= pairs.len(),
            all == first_parts(pairs.deep_view()),
            out.deep_view() == before + all.take(i as int),
        decreases pairs.len() - i,
    {
        let ghost name = pairs@[i as int].0@;
        assert(all[i as int] == name);
        let ghost was = out.deep_view();
        out.push(pairs[i].0.clone());
        assert(out.deep_view() =~= was.push(name));
        i += 1;
        assert(before + all.take(i as int) =~= was.push(name));
    }
    assert(all.take(i as int) =~= all);
}

/// The tables whose columns are renamed, added or dropped in place.
fn altered_tables(diff: &SchemaDiff) -> (r: Vec<String>)
    ensures
        r.deep_view() == altered(diff.deep_view()),
{
    let ghost renames = diff.columns_to_rename.deep_view();
    let mut names: Vec<String> = Vec::new();
    let mut i: usize = 0;
    while i < diff.columns_to_rename.len()
        invariant
            i <= diff.columns_to_rename.len(),
            names.len() == i,
            forall|j: int|
                0 <= j < i ==> (#[trigger] names@[j])@ == diff.columns_to_rename@[j].0@,
        decreases diff.columns_to_rename.len() - i,
    {
        names.push(diff.columns_to_rename[i].0.clone());
        i += 1;
    }
    assert(names.deep_view() =~= renamed_in(renames));
    push_first_parts(&mut names, &diff.columns_to_add);
    push_first_parts(&mut names, &diff.columns_to_drop);
    sort_texts(&names)
}

// ---------------------------------------------------------------------------
// Statements, executable
// ---------------------------------------------------------------------------

/// Appends a statement that drops each name.
fn push_drops(out: &mut Vec<String>, prefix: &str, names: &Vec<String>)
    ensures
        final(out).deep_view() == old(out).deep_view() + drop_statements(
            prefix@,
            names.deep_view(),
        ),
{
    let ghost before = out.deep_view();
    let ghost all = drop_statements(prefix@, names.deep_view());
    let mut i: usize = 0;
    assert(before + all.take(0) =~= before);
    while i < names.len()
        invariant
            i <= names.len(),
            all == drop_statements(prefix@, names.deep_view()),
            out.deep_view() == before + all.take(i as int),
        decreases names.len() - i,
    {
        let ghost now = out.deep_view();
        let name = quote_ident(names[i].as_str());
        let stmt = glue2(prefix, name.as_str());
        assert(stmt@ == all[i as int]);
        out.push(stmt);
        assert(out.deep_view() =~= now.push(all[i as int]));
        assert(out.deep_view() =~= before + all.take(i + 1));
        i += 1;
    }
    assert(all.take(i as int) =~= all);
}

/// Appends the statements that rename columns.
fn push_renames(out: &mut Vec<String>, renames: &Vec<(String, String, String)>)
    ensures
        final(out).deep_view() == old(out).deep_view() + rename_statements(renames.deep_view()),
{
    let ghost before = out.deep_view();
    let ghost all = rename_statements(renames.deep_view());
    let mut i: usize = 0;
    assert(before + all.take(0) =~= before);
    while i < renames.len()
        invariant
            i <= renames.len(),
            all == rename_statements(renames.deep_view()),
            out.deep_view() == before + all.take(i as int),
        decreases renames.len() - i,
    {
        let ghost now = out.deep_view();
        let table = quote_ident(renames[i].0.as_str());
        let from = quote_ident(renames[i].1.as_str());
        let to = quote_ident(renames[i].2.as_str());
        let mut stmt = glue4("ALTER TABLE ", table.as_str(), " RENAME COLUMN ", from.as_str());
        stmt.append(" TO ");
        stmt.append(to.as_str());
        assert(stmt@ == all[i as int]);
        out.push(stmt);
        assert(out.deep_view() =~= now.push(all[i as int]));
        assert(out.deep_view() =~= before + all.take(i + 1));
        i += 1;
    }
    assert(all.take(i as int) =~= all);
}

/// Appends the statements that drop columns.
fn push_column_drops(out: &mut Vec<String>, drops: &Vec<(String, String)>)
    ensures
        final(out).deep_view() == old(out).deep_view() + drop_column_statements(drops.deep_view()),
{
    let ghost before = out.deep_view();
    let ghost all = drop_column_statements(drops.deep_view());
    let mut i: usize = 0;
    assert(before + all.take(0) =~= before);
    while i < drops.len()
        invariant
            i <= drops.len(),
            all == drop_column_statements(drops.deep_view()),
            out.deep_view() == before + all.take(i as int),
        decreases drops.len() - i,
    {
        let ghost now = out.deep_view();
        let table = quote_ident(drops[i].0.as_str());
        let column = quote_ident(drops[i].1.as_str());
        let stmt = glue4("ALTER TABLE ", table.as_str(), " DROP COLUMN ", column.as_str());
        assert(stmt@ == all[i as int]);
        out.push(stmt);
        assert(out.deep_view() =~= now.push(all[i as int]));
        assert(out.deep_view() =~= before + all.take(i + 1));
        i += 1;
    }
    assert(all.take(i as int) =~= all);
}

/// The statement that adds a column.
pub fn build_add_column_stmt(table_name: &str, col: &ColumnInfo) -> (r: String)
    ensures
        r@ == add_column_statement(table_name@, col.deep_view()),
{
    let table = quote_ident(table_name);
    let column = quote_ident(col.name.as_str());
    let mut ddl = glue4("ALTER TABLE ", table.as_str(), " ADD COLUMN ", column.as_str());
    ddl.append(" ");
    ddl.append(col.col_type.as_str());
    if col.notnull {
        ddl.append(" NOT NULL");
    } else {
        assert(ddl@ + Seq::<char>::empty() =~= ddl@);
    }
    match &col.default_value {
        Some(d) => {
            let ghost before = ddl@;
            ddl.append(" DEFAULT ");
            ddl.append(d.as_str());
            assert(ddl@ =~= before + (" DEFAULT "@ + d@));
        },
        None => {
            assert(ddl@ + Seq::<char>::empty() =~= ddl@);
        },
    }
    match &col.collation {
        Some(c) => {
            let ghost before = ddl@;
            ddl.append(" COLLATE ");
            ddl.append(c.as_str());
            assert(ddl@ =~= before + (" COLLATE "@ + c@));
        },
        None => {
            assert(ddl@ + Seq::<char>::empty() =~= ddl@);
        },
    }
    ddl
}

/// Appends the statements that add columns.
fn push_adds(out: &mut Vec<String>, adds: &Vec<(String, ColumnInfo)>)
    ensures
        final(out).deep_view() == old(out).deep_view() + add_column_statements(adds.deep_view()),
{
    let ghost before = out.deep_view();
    let ghost all = add_column_statements(adds.deep_view());
    let mut i: usize = 0;
    assert(before + all.take(0) =~= before);
    while i < adds.len()
        invariant
            i <= adds.len(),
            all == add_column_statements(adds.deep_view()),
            out.deep_view() == before + all.take(i as int),
        decreases adds.len() - i,
    {
        let ghost now = out.deep_view();
        let stmt = build_add_column_stmt(adds[i].0.as_str(), &adds[i].1);
        assert(stmt@ == all[i as int]);
        out.push(stmt);
        assert(out.deep_view() =~= now.push(all[i as int]));
        assert(out.deep_view() =~= before + all.take(i + 1));
        i += 1;
    }
    assert(all.take(i as int) =~= all);
}

/// The names of the columns that take values.
fn insertable_names(columns: &Vec<ColumnInfo>) -> (r: Vec<String>)
    ensures
        r.deep_view() == column_names(insertable_columns(columns.deep_view())),
{
    let ghost all = columns.deep_view();
    let ghost f = if_insertable();
    let mut r: Vec<String> = Vec::new();
    let mut i: usize = 0;
    assert(all.take(0) =~= Seq::empty());
    assert(r.deep_view() =~= column_names(gather(all.take(0), f)));
    while i < columns.len()
        invariant
            i <= columns.len(),
            all == columns.deep_view(),
            f == if_insertable(),
            r.deep_view() == column_names(gather(all.take(i as int), f)),
        decreases columns.len() - i,
    {
        let ghost now = r.deep_view();
        let ghost part = gather(all.take(i as int), f);
        proof {
            lemma_gather_step(all, i as int, f);
        }
        assert(all[i as int] == columns@[i as int].deep_view());
        if columns[i].is_insertable() {
            r.push(columns[i].name.clone());
            assert(r.deep_view() =~= now.push(all[i as int].name));
            assert(r.deep_view() =~= column_names(part + seq![all[i as int]]));
        } else {
            assert(part + Seq::<ColumnModel>::empty() =~= part);
        }
        i += 1;
    }
    assert(all.take(i as int) =~= all);
    r
}

/// The statement that copies the rows of the old table into the new one.
pub fn build_copy_data_stmt(
    source_table: &str,
    temp_table: &str,
    desired_table: &TableInfo,
    actual_table: &TableInfo,
) -> (r: String)
    ensures
        r@ == copy_statement(
            source_table@,
            temp_table@,
            desired_table.deep_view().columns,
            actual_table.deep_view().columns,
        ),
{
    let ghost all = desired_table.deep_view().columns;
    let ghost old_columns = actual_table.deep_view().columns;
    let ghost f = if_insertable();
    let kept = insertable_names(&actual_table.columns);
    let mut columns: Vec<String> = Vec::new();
    let mut values: Vec<String> = Vec::new();
    let mut i: usize = 0;
    assert(all.take(0) =~= Seq::empty());
    assert(columns.deep_view() =~= quoted_names(gather(all.take(0), f)));
    assert(values.deep_view() =~= copied_values(gather(all.take(0), f), old_columns));
    while i < desired_table.columns.len()
        invariant
            i <= desired_table.columns.len(),
            all == desired_table.deep_view().columns,
            old_columns == actual_table.deep_view().columns,
            kept.deep_view() == column_names(insertable_columns(old_columns)),
            f == if_insertable(),
            columns.deep_view() == quoted_names(gather(all.take(i as int), f)),
            values.deep_view() == copied_values(gather(all.take(i as int), f), old_columns),
        decreases desired_table.columns.len() - i,
    {
        let ghost c0 = columns.deep_view();
        let ghost v0 = values.deep_view();
        let ghost part = gather(all.take(i as int), f);
        proof {
            lemma_gather_step(all, i as int, f);
        }
        let col = &desired_table.columns[i];
        assert(all[i as int] == col.deep_view());
        if col.is_insertable() {
            columns.push(quote_ident(col.name.as_str()));
            let value = if holds_name(&kept, col.name.as_str()) {
                quote_ident(col.name.as_str())
            } else {
                match &col.default_value {
                    Some(d) => d.clone(),
                    None => "NULL".to_owned(),
                }
            };
            assert(value@ == copied_value(all[i as int], old_columns));
            values.push(value);
            assert(columns.deep_view() =~= c0.push(quoted_ident(all[i as int].name)));
            assert(columns.deep_view() =~= quoted_names(part + seq![all[i as int]]));
            assert(values.deep_view() =~= v0.push(copied_value(all[i as int], old_columns)));
            assert(values.deep_view() =~= copied_values(
                part + seq![all[i as int]],
                old_columns,
            ));
        } else {
            assert(part + Seq::<ColumnModel>::empty() =~= part);
        }
        i += 1;
    }
    assert(all.take(i as int) =~= all);
    let cols = join(&columns, ", ");
    let exprs = join(&values, ", ");
    let temp = quote_ident(temp_table);
    let source = quote_ident(source_table);
    let mut out = glue4("INSERT INTO ", temp.as_str(), " (", cols.as_str());
    out.append(") SELECT ");
    out.append(exprs.as_str());
    out.append(" FROM ");
    out.append(source.as_str());
    out
}

fn skip_keyword(v: &Vec<char>, low: &Vec<char>, from: usize, w: &str) -> (r: Option<usize>)
    requires
        low@ == lower(v@),
        from <= v.len(),
    ensures
        match r {
            Some(k) => past_keyword(v@, from as int, w@) == Some(k as int) && k <= v.len(),
            None => past_keyword(v@, from as int, w@) is None,
        },
{
    let pat = chars_of(w);
    if chars_match_at(low.as_slice(), pat.as_slice(), from) {
        let end: usize = from + pat.len();
        if end == v.len() || !word_char(v[end]) {
            return Some(skip_space(v, end));
        }
    }
    None
}

fn skip_if_not_exists(v: &Vec<char>, low: &Vec<char>, from: usize) -> (k: usize)
    requires
        low@ == lower(v@),
        from <= v.len(),
    ensures
        k <= v.len(),
        k == past_if_not_exists(v@, from as int),
{
    if let Some(a) = skip_keyword(v, low, from, "if") {
        if let Some(b) = skip_keyword(v, low, a, "not") {
            if let Some(c) = skip_keyword(v, low, b, "exists") {
                return c;
            }
        }
    }
    from
}

/// The CREATE TABLE statement with another table name.
pub fn rewrite_create_table_name(create_sql: &str, temp_table_name: &str) -> (r: String)
    ensures
        r@ == with_table_name(create_sql@, temp_table_name@),
{
    let v = chars_of(create_sql);
    let low = lower_chars(create_sql);
    let pat = chars_of("create table");
    let pos = match find_chars(low.as_slice(), pat.as_slice(), 0) {
        Some(p) => p,
        None => {
            return create_sql.to_owned();
        },
    };
    assert(pos + pat@.len() <= low@.len());
    assert(low@.len() == v@.len());
    assert(v@.len() == v.len());
    let after = skip_space(&v, pos + pat.len());
    let start = skip_if_not_exists(&v, &low, after);
    if start >= v.len() {
        return create_sql.to_owned();
    }
    let end: usize = if v[start] == '"' {
        let k = crate::search::part_end(v.as_slice(), '"', start + 1);
        if k < v.len() {
            k + 1
        } else {
            k
        }
    } else {
        skip_word(&v, start)
    };
    assert(end == name_end(v@, start as int));
    let head = string_of_range(v.as_slice(), 0, start);
    let tail = string_of_range(v.as_slice(), end, v.len());
    let name = quote_ident(temp_table_name);
    assert(head@ =~= v@.take(start as int));
    assert(tail@ =~= v@.skip(end as int));
    glue3(head.as_str(), name.as_str(), tail.as_str())
}

/// Whether the rows of the old table can fill the new one.
pub fn validate_rebuild_safety(
    table_name: &str,
    desired: &TableInfo,
    actual: &TableInfo,
) -> (r: Result<(), MigrateError>)
    ensures
        match first_unfilled(desired.deep_view().columns, actual.deep_view().columns, 0) {
            Some(i) => r matches Err(e) && e.deep_view() == ErrorModel::Schema(
                unfilled_message(table_name@, desired.deep_view().columns[i].name),
            ),
            None => r is Ok,
        },
{
    let ghost de = desired.deep_view().columns;
    let ghost ac = actual.deep_view().columns;
    let mut i: usize = 0;
    while i < desired.columns.len()
        invariant
            i <= desired.columns.len(),
            de == desired.deep_view().columns,
            ac == actual.deep_view().columns,
            first_unfilled(de, ac, 0) == first_unfilled(de, ac, i as int),
        decreases desired.columns.len() - i,
    {
        let col = &desired.columns[i];
        assert(de[i as int] == col.deep_view());
        if col.is_insertable() && find_column(&actual.columns, col.name.as_str()).is_none()
            && col.notnull && col.default_value.is_none() {
            let mut m = glue4(
                "Table '",
                table_name,
                "' rebuild would add NOT NULL column '",
                col.name.as_str(),
            );
            m.append(
                "' without DEFAULT. Existing rows would violate the constraint. Add a DEFAULT value to the column definition.",
            );
            return Err(MigrateError::Schema(m));
        }
        i += 1;
    }
    Ok(())
}

/// Appends the statements that rebuild a table.
fn push_rebuild(
    out: &mut Vec<String>,
    table_name: &str,
    seq: usize,
    desired: &TableInfo,
    actual: &TableInfo,
)
    ensures
        final(out).deep_view() == old(out).deep_view() + rebuild_statements(
            table_name@,
            seq as nat,
            desired.deep_view(),
            actual.deep_view(),
        ),
{
    let ghost before = out.deep_view();
    let temp = temp_table_name(table_name, seq);
    let quoted_temp = quote_ident(temp.as_str());
    let quoted = quote_ident(table_name);
    let name = double_char(table_name, '\'');
    let ghost all = rebuild_statements(
        table_name@,
        seq as nat,
        desired.deep_view(),
        actual.deep_view(),
    );
    let mut more: Vec<String> = Vec::new();
    more.push(glue2("DROP TABLE IF EXISTS ", quoted_temp.as_str()));
    if actual.has_autoincrement {
        let mut save = glue4(
            "INSERT OR REPLACE INTO _schema_meta (key, value) SELECT 'autoincrement_seq_",
            name.as_str(),
            "', seq FROM sqlite_sequence WHERE name = '",
            name.as_str(),
        );
        save.append("'");
        more.push(save);
    }
    more.push(rewrite_create_table_name(desired.sql.as_str(), temp.as_str()));
    more.push(build_copy_data_stmt(table_name, temp.as_str(), desired, actual));
    more.push(glue2("DROP TABLE ", quoted.as_str()));
    more.push(
        glue4("ALTER TABLE ", quoted_temp.as_str(), " RENAME TO ", quoted.as_str()),
    );
    if desired.has_autoincrement {
        let mut restore = glue4(
            "INSERT OR REPLACE INTO sqlite_sequence (name, seq) SELECT '",
            name.as_str(),
            "', CAST(value AS INTEGER) FROM _schema_meta WHERE key = 'autoincrement_seq_",
            name.as_str(),
        );
        restore.append("'");
        more.push(restore);
    }
    if actual.has_autoincrement || desired.has_autoincrement {
        more.push(
            glue3(
                "DELETE FROM _schema_meta WHERE key = 'autoincrement_seq_",
                name.as_str(),
                "'",
            ),
        );
    }
    assert(more.deep_view() =~= all);
    out.append(&mut more);
    assert(out.deep_view() =~= before + all);
}

/// Appends the statements that rebuild the tables, or tells why one cannot be rebuilt.
fn push_rebuilds(
    out: &mut Vec<String>,
    tables: &Vec<String>,
    desired: &SchemaSnapshot,
    actual: &SchemaSnapshot,
) -> (r: Result<(), MigrateError>)
    ensures
        match first_refusal(tables.deep_view(), desired.deep_view(), actual.deep_view(), 0) {
            Some(m) => r matches Err(e) && e.deep_view() == ErrorModel::Schema(m),
            None => r is Ok && final(out).deep_view() == old(out).deep_view() + rebuilds(
                tables.deep_view(),
                desired.deep_view(),
                actual.deep_view(),
                tables.len() as int,
            ),
        },
{
    let ghost before = out.deep_view();
    let ghost all = tables.deep_view();
    let ghost de = desired.deep_view();
    let ghost ac = actual.deep_view();
    let mut i: usize = 0;
    assert(before + Seq::<Text>::empty() =~= before);
    while i < tables.len()
        invariant
            i <= tables.len(),
            all == tables.deep_view(),
            de == desired.deep_view(),
            ac == actual.deep_view(),
            first_refusal(all, de, ac, 0) == first_refusal(all, de, ac, i as int),
            out.deep_view() == before + rebuilds(all, de, ac, i as int),
        decreases tables.len() - i,
    {
        let ghost part = rebuilds(all, de, ac, i as int);
        assert(all[i as int] == tables@[i as int]@);
        let name = tables[i].as_str();
        if let (Some(d), Some(a)) = (desired.get_table(name), actual.get_table(name)) {
            match validate_rebuild_safety(name, d, a) {
                Ok(_) => {},
                Err(e) => {
                    return Err(e);
                },
            }
            push_rebuild(out, name, i, d, a);
            assert(out.deep_view() =~= before + (part + rebuild_statements(
                all[i as int],
                i as nat,
                d.deep_view(),
                a.deep_view(),
            )));
        }
        i += 1;
    }
    Ok(())
}

// ---------------------------------------------------------------------------
// Orders, executable
// ---------------------------------------------------------------------------

/// The new tables in the order of their foreign keys.
pub fn order_new_tables(
    to_create: &Vec<String>,
    desired: &SchemaSnapshot,
    actual: &SchemaSnapshot,
) -> (r: Vec<String>)
    ensures
        r.deep_view() == ordered_tables(
            to_create.deep_view(),
            desired.deep_view(),
            actual.deep_view(),
        ),
{
    let ghost de = desired.deep_view();
    let ghost ac = actual.deep_view();
    let names = sort_texts(to_create);
    let ghost all = names.deep_view();
    proof {
        lemma_deep_keys(actual.tables@);
    }
    let mut items: Vec<Item> = Vec::new();
    let mut i: usize = 0;
    while i < names.len()
        invariant
            i <= names.len(),
            all == names.deep_view(),
            de == desired.deep_view(),
            ac == actual.deep_view(),
            keys(ac.tables) == keys(actual.tables@),
            items.len() == i,
            forall|j: int|
                0 <= j < i ==> (#[trigger] items@[j]).deep_view() == new_table_item(de, ac, all[j]),
        decreases names.len() - i,
    {
        assert(all[i as int] == names@[i as int]@);
        let needs = match desired.get_table(names[i].as_str()) {
            Some(t) => {
                let targets = t.referenced_tables();
                select_in(&targets, &actual.tables, false)
            },
            None => {
                let none: Vec<String> = Vec::new();
                assert(none.deep_view() =~= Seq::empty());
                none
            },
        };
        let item = Item { name: names[i].clone(), needs };
        assert(item.deep_view() == new_table_item(de, ac, all[i as int]));
        items.push(item);
        i += 1;
    }
    assert(items.deep_view() =~= new_table_items(all, de, ac));
    arrange(items)
}

/// The views in an order in which each comes behind those it mentions.
pub fn order_view_creation(views_to_create: &Vec<String>, desired: &SchemaSnapshot) -> (r: Vec<
    String,
>)
    ensures
        r.deep_view() == ordered_views(views_to_create.deep_view(), desired.deep_view().views),
{
    let ghost views = desired.deep_view().views;
    let ghost all = views_to_create.deep_view();
    let ghost texts = view_texts(views);
    proof {
        lemma_deep_keys(desired.views@);
        assert(keys(texts) =~= keys(desired.views@));
    }
    let mut items: Vec<Named> = Vec::new();
    let mut i: usize = 0;
    while i < views_to_create.len()
        invariant
            i <= views_to_create.len(),
            all == views_to_create.deep_view(),
            views == desired.deep_view().views,
            texts == view_texts(views),
            keys(texts) == keys(desired.views@),
            items.len() == i,
            forall|j: int|
                0 <= j < i ==> (#[trigger] items@[j]).deep_view() == view_item(views, all[j]),
        decreases views_to_create.len() - i,
    {
        assert(all[i as int] == views_to_create@[i as int]@);
        proof {
            lemma_name_index(keys(texts), all[i as int]);
        }
        let sql = match desired.views.position(views_to_create[i].as_str()) {
            Some(k) => {
                assert(texts[k as int].1 == desired.views@[k as int].1.sql@);
                Some(desired.views.value_at(k).sql.clone())
            },
            None => None,
        };
        let item = Named { name: views_to_create[i].clone(), sql };
        assert(item.deep_view() == view_item(views, all[i as int]));
        items.push(item);
        i += 1;
    }
    assert(items.deep_view() =~= view_items(all, views));
    stage(items)
}

// ---------------------------------------------------------------------------
// The whole plan
// ---------------------------------------------------------------------------

/// The plan that carries out a difference. It fails where a rebuild would leave a
/// NOT NULL column without a value, and nowhere else.
pub fn generate_plan(
    diff: &SchemaDiff,
    desired: &SchemaSnapshot,
    actual: &SchemaSnapshot,
) -> (r: Result<MigrationPlan, MigrateError>)
    ensures
        match first_refusal(
            diff.deep_view().tables_to_rebuild,
            desired.deep_view(),
            actual.deep_view(),
            0,
        ) {
            Some(m) => r matches Err(e) && e.deep_view() == ErrorModel::Schema(m),
            None => r matches Ok(plan) && plan.deep_view() == plan_of(
                diff.deep_view(),
                desired.deep_view(),
                actual.deep_view(),
            ),
        },
{
    let ghost df = diff.deep_view();
    let ghost de = desired.deep_view();
    let ghost ac = actual.deep_view();
    proof {
        lemma_deep_keys(actual.views@);
        lemma_deep_keys(actual.indexes@);
        assert(texts_of(desired.tables@) =~= table_texts(de.tables));
        assert(texts_of(desired.indexes@) =~= index_texts(de.indexes));
        assert(texts_of(desired.views@) =~= view_texts(de.views));
        assert(texts_of(desired.triggers@) =~= trigger_texts(de.triggers));
    }
    let rebuilt = &diff.tables_to_rebuild;
    let triggers_to_drop = add_triggers_on(&diff.triggers_to_drop, &actual.triggers, rebuilt);
    let triggers_to_create = add_triggers_on(
        &diff.triggers_to_create,
        &desired.triggers,
        rebuilt,
    );
    let views_to_drop = add_views(&diff.views_to_drop, &actual.views, rebuilt);
    let views_to_create = add_views(&diff.views_to_create, &desired.views, rebuilt);
    let indexes_to_drop = add_indexes_on(&diff.indexes_to_drop, false, &actual.indexes, rebuilt);
    let indexes_to_create = add_indexes_on(
        &diff.indexes_to_create,
        false,
        &desired.indexes,
        rebuilt,
    );
    let fts_to_drop = add_indexes_on(&diff.fts_indexes_to_drop, true, &actual.indexes, rebuilt);
    let fts_to_create = add_indexes_on(
        &diff.fts_indexes_to_create,
        true,
        &desired.indexes,
        rebuilt,
    );
    let known_views = select_in(&views_to_drop, &actual.views, true);
    let tables_to_drop = select_unprotected(&diff.tables_to_drop);
    let new_tables = order_new_tables(&diff.tables_to_create, desired, actual);
    let ordered = order_view_creation(&views_to_create, desired);

    let mut stmts: Vec<String> = Vec::new();
    push_drops(&mut stmts, "DROP TRIGGER IF EXISTS ", &triggers_to_drop);
    assert(stmts.deep_view() =~= drop_statements(
        "DROP TRIGGER IF EXISTS "@,
        triggers_to_drop.deep_view(),
    ));
    push_drops(&mut stmts, "DROP VIEW IF EXISTS ", &known_views);
    push_drops(&mut stmts, "DROP INDEX IF EXISTS ", &indexes_to_drop);
    push_drops(&mut stmts, "DROP TABLE IF EXISTS ", &tables_to_drop);
    let created = statements_for(&new_tables, &desired.tables);
    append_copies(&mut stmts, &created);
    push_renames(&mut stmts, &diff.columns_to_rename);
    push_adds(&mut stmts, &diff.columns_to_add);
    push_column_drops(&mut stmts, &diff.columns_to_drop);
    match push_rebuilds(&mut stmts, rebuilt, desired, actual) {
        Ok(_) => {},
        Err(e) => {
            return Err(e);
        },
    }
    let index_stmts = statements_for(&indexes_to_create, &desired.indexes);
    append_copies(&mut stmts, &index_stmts);
    let view_stmts = statements_for(&ordered, &desired.views);
    append_copies(&mut stmts, &view_stmts);
    let trigger_stmts = statements_for(&triggers_to_create, &desired.triggers);
    append_copies(&mut stmts, &trigger_stmts);
    assert(stmts.deep_view() == transactional(df, de, ac));

    let mut outside: Vec<String> = Vec::new();
    push_drops(&mut outside, "DROP INDEX IF EXISTS ", &fts_to_drop);
    assert(outside.deep_view() =~= drop_statements(
        "DROP INDEX IF EXISTS "@,
        fts_to_drop.deep_view(),
    ));
    let fts_stmts = statements_for(&fts_to_create, &desired.indexes);
    append_copies(&mut outside, &fts_stmts);
    assert(outside.deep_view() == non_transactional(df, de, ac));

    Ok(
        MigrationPlan {
            new_tables,
            altered_tables: altered_tables(diff),
            rebuilt_tables: sort_texts(rebuilt),
            new_indexes: select_in(&indexes_to_create, &actual.indexes, false),
            changed_indexes: select_in(&indexes_to_create, &actual.indexes, true),
            new_views: select_in(&views_to_create, &actual.views, false),
            changed_views: select_in(&views_to_create, &actual.views, true),
            transactional_stmts: stmts,
            non_transactional_stmts: outside,
        },
    )
}

} // verus!
