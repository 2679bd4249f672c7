//! The difference between a wanted schema and the one a database has.

use vstd::prelude::*;

use crate::format::{glue3, glue5};
use crate::lists::{clone_pairs, clone_strings, holds_name};
#[allow(unused_imports)]
use crate::lists::{gather, has_name, lemma_gather_step, lemma_name_index, name_index};
#[allow(unused_imports)]
use crate::normalize::normal;
use crate::normalize::same_sql;
pub use crate::normalize::normalize_for_hash;
use crate::options::ColumnRenameHint;
#[allow(unused_imports)]
use crate::options::HintModel;
use crate::rename::{
    defaults_match, detect_column_renames, do_hints_fit, optional_equal, types_match,
};
#[allow(unused_imports)]
use crate::rename::{hints_fit, renames, same_default, RenameModel};
use crate::schema::{
    find_column, CIMap, ColumnInfo, IndexInfo, SchemaSnapshot, Stated, TableInfo,
};
#[allow(unused_imports)]
use crate::schema::{
    column_names, keys, lemma_deep_keys, lookup, texts_of, trigger_texts, view_texts, ColumnModel,
    ForeignKeyModel, IndexModel, SnapshotModel, TableModel, TriggerModel, ViewModel,
};
#[allow(unused_imports)]
use crate::search::contains;
use crate::search::lower_contains;
use crate::text::{names_equal, to_lower, Text};
#[allow(unused_imports)]
use crate::text::{lower, same_name};

verus! {

// ---------------------------------------------------------------------------
// The result
// ---------------------------------------------------------------------------

/// The changes that lead from the actual schema to the wanted one, by kind.
#[derive(Debug, PartialEq, Eq)]
pub struct SchemaDiff {
    pub tables_to_create: Vec<String>,
    pub tables_to_drop: Vec<String>,
    pub tables_to_rebuild: Vec<String>,
    /// Pairs of a table and the new column.
    pub columns_to_add: Vec<(String, ColumnInfo)>,
    /// Pairs of a table and the name of the column.
    pub columns_to_drop: Vec<(String, String)>,
    /// A table, the old name and the new name of the column.
    pub columns_to_rename: Vec<(String, String, String)>,
    pub indexes_to_create: Vec<String>,
    pub indexes_to_drop: Vec<String>,
    pub fts_indexes_to_create: Vec<String>,
    pub fts_indexes_to_drop: Vec<String>,
    pub views_to_create: Vec<String>,
    pub views_to_drop: Vec<String>,
    pub triggers_to_create: Vec<String>,
    pub triggers_to_drop: Vec<String>,
}

#[verifier::ext_equal]
pub struct DiffModel {
    pub tables_to_create: Seq<Text>,
    pub tables_to_drop: Seq<Text>,
    pub tables_to_rebuild: Seq<Text>,
    pub columns_to_add: Seq<(Text, ColumnModel)>,
    pub columns_to_drop: Seq<(Text, Text)>,
    pub columns_to_rename: Seq<(Text, Text, Text)>,
    pub indexes_to_create: Seq<Text>,
    pub indexes_to_drop: Seq<Text>,
    pub fts_indexes_to_create: Seq<Text>,
    pub fts_indexes_to_drop: Seq<Text>,
    pub views_to_create: Seq<Text>,
    pub views_to_drop: Seq<Text>,
    pub triggers_to_create: Seq<Text>,
    pub triggers_to_drop: Seq<Text>,
}

impl DeepView for SchemaDiff {
    type V = DiffModel;

    open spec fn deep_view(&self) -> DiffModel {
        DiffModel {
            tables_to_create: self.tables_to_create.deep_view(),
            tables_to_drop: self.tables_to_drop.deep_view(),
            tables_to_rebuild: self.tables_to_rebuild.deep_view(),
            columns_to_add: self.columns_to_add.deep_view(),
            columns_to_drop: self.columns_to_drop.deep_view(),
            columns_to_rename: self.columns_to_rename.deep_view(),
            indexes_to_create: self.indexes_to_create.deep_view(),
            indexes_to_drop: self.indexes_to_drop.deep_view(),
            fts_indexes_to_create: self.fts_indexes_to_create.deep_view(),
            fts_indexes_to_drop: self.fts_indexes_to_drop.deep_view(),
            views_to_create: self.views_to_create.deep_view(),
            views_to_drop: self.views_to_drop.deep_view(),
            triggers_to_create: self.triggers_to_create.deep_view(),
            triggers_to_drop: self.triggers_to_drop.deep_view(),
        }
    }
}

impl Clone for SchemaDiff {
    fn clone(&self) -> (r: Self)
        ensures
            r.deep_view() == self.deep_view(),
    {
        let columns_to_add = clone_added(&self.columns_to_add);
        let columns_to_rename = clone_renamed(&self.columns_to_rename);
        SchemaDiff {
            tables_to_create: clone_strings(&self.tables_to_create),
            tables_to_drop: clone_strings(&self.tables_to_drop),
            tables_to_rebuild: clone_strings(&self.tables_to_rebuild),
            columns_to_add,
            columns_to_drop: clone_pairs(&self.columns_to_drop),
            columns_to_rename,
            indexes_to_create: clone_strings(&self.indexes_to_create),
            indexes_to_drop: clone_strings(&self.indexes_to_drop),
            fts_indexes_to_create: clone_strings(&self.fts_indexes_to_create),
            fts_indexes_to_drop: clone_strings(&self.fts_indexes_to_drop),
            views_to_create: clone_strings(&self.views_to_create),
            views_to_drop: clone_strings(&self.views_to_drop),
            triggers_to_create: clone_strings(&self.triggers_to_create),
            triggers_to_drop: clone_strings(&self.triggers_to_drop),
        }
    }
}

fn clone_added(list: &Vec<(String, ColumnInfo)>) -> (r: Vec<(String, ColumnInfo)>)
    ensures
        r.deep_view() == list.deep_view(),
{
    let mut r: Vec<(String, ColumnInfo)> = Vec::new();
    let mut i: usize = 0;
    while i < list.len()
        invariant
            i <= list.len(),
            r.len() == i,
            forall|j: int| 0 <= j < i ==> (#[trigger] r@[j]).deep_view() == list@[j].deep_view(),
        decreases list.len() - i,
    {
        r.push((list[i].0.clone(), list[i].1.clone()));
        i += 1;
    }
    assert(r.deep_view() =~= list.deep_view());
    r
}

fn clone_renamed(list: &Vec<(String, String, String)>) -> (r: Vec<(String, String, String)>)
    ensures
        r.deep_view() == list.deep_view(),
{
    let mut r: Vec<(String, String, String)> = Vec::new();
    let mut i: usize = 0;
    while i < list.len()
        invariant
            i <= list.len(),
            r.len() == i,
            forall|j: int| 0 <= j < i ==> (#[trigger] r@[j]).deep_view() == list@[j].deep_view(),
        decreases list.len() - i,
    {
        r.push((list[i].0.clone(), list[i].1.clone(), list[i].2.clone()));
        i += 1;
    }
    assert(r.deep_view() =~= list.deep_view());
    r
}

impl DiffModel {
    /// Nothing has to change.
    pub open spec fn nothing(self) -> bool {
        &&& self.tables_to_create.len() == 0
        &&& self.tables_to_drop.len() == 0
        &&& self.tables_to_rebuild.len() == 0
        &&& self.columns_to_add.len() == 0
        &&& self.columns_to_drop.len() == 0
        &&& self.columns_to_rename.len() == 0
        &&& self.indexes_to_create.len() == 0
        &&& self.indexes_to_drop.len() == 0
        &&& self.fts_indexes_to_create.len() == 0
        &&& self.fts_indexes_to_drop.len() == 0
        &&& self.views_to_create.len() == 0
        &&& self.views_to_drop.len() == 0
        &&& self.triggers_to_create.len() == 0
        &&& self.triggers_to_drop.len() == 0
    }
}

impl SchemaDiff {
    /// Whether nothing has to change.
    pub fn is_empty(&self) -> (r: bool)
        ensures
            r == self.deep_view().nothing(),
    {
        self.tables_to_create.len() == 0 && self.tables_to_drop.len() == 0
            && self.tables_to_rebuild.len() == 0 && self.columns_to_add.len() == 0
            && self.columns_to_drop.len() == 0 && self.columns_to_rename.len() == 0
            && self.indexes_to_create.len() == 0 && self.indexes_to_drop.len() == 0
            && self.fts_indexes_to_create.len() == 0 && self.fts_indexes_to_drop.len() == 0
            && self.views_to_create.len() == 0 && self.views_to_drop.len() == 0
            && self.triggers_to_create.len() == 0 && self.triggers_to_drop.len() == 0
    }
}

// ---------------------------------------------------------------------------
// Tables
// ---------------------------------------------------------------------------

pub open spec fn lost_from(desired: Seq<ColumnModel>) -> spec_fn(ColumnModel) -> Seq<ColumnModel> {
    |c: ColumnModel|
        if c.is_hidden || has_name(column_names(desired), c.name) {
            Seq::empty()
        } else {
            seq![c]
        }
}

/// The visible columns of the actual table that the wanted table lacks.
pub open spec fn lost_columns(
    desired: Seq<ColumnModel>,
    actual: Seq<ColumnModel>,
) -> Seq<ColumnModel> {
    gather(actual, lost_from(desired))
}

/// The visible columns of the wanted table that the actual table lacks.
pub open spec fn fresh_columns(
    desired: Seq<ColumnModel>,
    actual: Seq<ColumnModel>,
) -> Seq<ColumnModel> {
    gather(desired, lost_from(actual))
}

/// Whether a column that is in both tables is not what is wanted.
pub open spec fn column_differs(actual: ColumnModel, desired: ColumnModel) -> bool {
    ||| !same_name(actual.col_type, desired.col_type)
    ||| actual.notnull != desired.notnull
    ||| !same_default(actual.default_value, desired.default_value)
    ||| actual.pk != desired.pk
    ||| actual.collation != desired.collation
    ||| actual.is_generated != desired.is_generated
}

/// Whether the wanted column is in the actual table and is different there.
pub open spec fn column_altered(c: ColumnModel, actual: Seq<ColumnModel>) -> bool {
    !c.is_hidden && match name_index(column_names(actual), c.name) {
        Some(k) => column_differs(actual[k], c),
        None => false,
    }
}

/// Whether what the two tables share is different: a column or the CHECK constraints.
pub open spec fn table_altered(desired: TableModel, actual: TableModel) -> bool {
    ||| desired.check_constraints != actual.check_constraints
    ||| exists|i: int|
        0 <= i < desired.columns.len() && column_altered(
            #[trigger] desired.columns[i],
            actual.columns,
        )
}

/// Whether an index of the table uses the column.
pub open spec fn is_indexed(
    indexes: Seq<(Text, IndexModel)>,
    table: Text,
    column: Text,
) -> bool {
    exists|i: int|
        0 <= i < indexes.len() && same_name((#[trigger] indexes[i]).1.table_name, table)
            && has_name(indexes[i].1.columns, column)
}

/// Whether the table has a trigger.
pub open spec fn has_table_trigger(triggers: Seq<(Text, TriggerModel)>, table: Text) -> bool {
    exists|i: int|
        0 <= i < triggers.len() && same_name((#[trigger] triggers[i]).1.table_name, table)
}

/// Whether the text of a view mentions the table.
pub open spec fn is_in_view(views: Seq<(Text, ViewModel)>, table: Text) -> bool {
    exists|i: int|
        0 <= i < views.len() && contains(lower((#[trigger] views[i]).1.sql), lower(table))
}

/// Whether a foreign key starts from the column.
pub open spec fn starts_key(keys: Seq<ForeignKeyModel>, column: Text) -> bool {
    exists|i: int| 0 <= i < keys.len() && has_name((#[trigger] keys[i]).from_columns, column)
}

/// Whether a foreign key points to the column of the table.
pub open spec fn ends_key(keys: Seq<ForeignKeyModel>, table: Text, column: Text) -> bool {
    exists|i: int|
        0 <= i < keys.len() && same_name((#[trigger] keys[i]).to_table, table) && has_name(
            keys[i].to_columns,
            column,
        )
}

/// Whether a foreign key of any table points to the column of the table.
pub open spec fn is_referenced(
    tables: Seq<(Text, TableModel)>,
    table: Text,
    column: Text,
) -> bool {
    exists|i: int|
        0 <= i < tables.len() && ends_key((#[trigger] tables[i]).1.foreign_keys, table, column)
}

/// Whether the column can be dropped without a rebuild of its table.
pub open spec fn droppable(col: ColumnModel, table: TableModel, snapshot: SnapshotModel) -> bool {
    &&& col.pk == 0
    &&& !is_indexed(snapshot.indexes, table.name, col.name)
    &&& !has_table_trigger(snapshot.triggers, table.name)
    &&& !is_in_view(snapshot.views, table.name)
    &&& !starts_key(table.foreign_keys, col.name)
    &&& !is_referenced(snapshot.tables, table.name, col.name)
}

/// Whether the column can be added without a rebuild of its table.
pub open spec fn addable(col: ColumnModel) -> bool {
    col.pk == 0 && (!col.notnull || col.default_value is Some) && !col.is_generated
}

/// Whether one of the lost columns has the name and cannot be dropped.
pub open spec fn stuck(
    name: Text,
    lost: Seq<ColumnModel>,
    table: TableModel,
    snapshot: SnapshotModel,
) -> bool {
    match name_index(column_names(lost), name) {
        Some(k) => !droppable(lost[k], table, snapshot),
        None => false,
    }
}

/// What has to be done to a table.
#[verifier::ext_equal]
pub struct ChangeModel {
    pub rebuild: bool,
    pub add: Seq<ColumnModel>,
    pub drop: Seq<Text>,
    pub renamed: Seq<(Text, Text)>,
}

pub open spec fn table_renames(
    name: Text,
    desired: TableModel,
    actual: TableModel,
    hints: Seq<HintModel>,
) -> RenameModel {
    renames(
        name,
        desired.columns,
        actual.columns,
        fresh_columns(desired.columns, actual.columns),
        column_names(lost_columns(desired.columns, actual.columns)),
        hints,
    )
}

/// Whether columns must go that cannot be dropped, or come that cannot be added.
pub open spec fn columns_force_rebuild(
    r: RenameModel,
    lost: Seq<ColumnModel>,
    table: TableModel,
    snapshot: SnapshotModel,
) -> bool {
    ||| exists|i: int| 0 <= i < r.drop.len() && stuck(#[trigger] r.drop[i], lost, table, snapshot)
    ||| exists|i: int| 0 <= i < r.add.len() && !addable(#[trigger] r.add[i])
}

/// What has to be done to a table that is in both schemas: a rebuild, or new, lost
/// and renamed columns.
pub open spec fn table_change(
    name: Text,
    desired: TableModel,
    actual: TableModel,
    snapshot: SnapshotModel,
    hints: Seq<HintModel>,
) -> ChangeModel {
    let r = table_renames(name, desired, actual, hints);
    let lost = lost_columns(desired.columns, actual.columns);
    if table_altered(desired, actual) || columns_force_rebuild(r, lost, actual, snapshot) {
        ChangeModel {
            rebuild: true,
            add: Seq::empty(),
            drop: Seq::empty(),
            renamed: Seq::empty(),
        }
    } else {
        ChangeModel { rebuild: false, add: r.add, drop: r.drop, renamed: r.renamed }
    }
}

/// What has to be done to a wanted table, where the database has one of its name.
pub open spec fn entry_change(
    e: (Text, TableModel),
    snapshot: SnapshotModel,
    hints: Seq<HintModel>,
) -> ChangeModel {
    match lookup(snapshot.tables, e.0) {
        Some(actual) => table_change(e.0, e.1, actual, snapshot, hints),
        None => ChangeModel {
            rebuild: false,
            add: Seq::empty(),
            drop: Seq::empty(),
            renamed: Seq::empty(),
        },
    }
}

/// Whether the hints can be carried out on a wanted table, where they are looked at.
pub open spec fn entry_hints_fit(
    e: (Text, TableModel),
    snapshot: SnapshotModel,
    hints: Seq<HintModel>,
) -> bool {
    match lookup(snapshot.tables, e.0) {
        Some(actual) => table_altered(e.1, actual) || hints_fit(
            e.0,
            e.1.columns,
            actual.columns,
            fresh_columns(e.1.columns, actual.columns),
            column_names(lost_columns(e.1.columns, actual.columns)),
            hints,
        ),
        None => true,
    }
}

/// Whether the hints can be carried out on every wanted table: each removal that they
/// ask for finds its position.
pub open spec fn hints_applicable(
    desired: SnapshotModel,
    actual: SnapshotModel,
    hints: Seq<HintModel>,
) -> bool {
    forall|i: int|
        0 <= i < desired.tables.len() ==> entry_hints_fit(
            #[trigger] desired.tables[i],
            actual,
            hints,
        )
}

/// Each item with the name of its table.
pub open spec fn tagged<A>(table: Text, items: Seq<A>) -> Seq<(Text, A)> {
    Seq::new(items.len(), |i: int| (table, items[i]))
}

/// Each pair with the name of its table.
pub open spec fn tagged_pairs(table: Text, pairs: Seq<(Text, Text)>) -> Seq<(Text, Text, Text)> {
    Seq::new(pairs.len(), |i: int| (table, pairs[i].0, pairs[i].1))
}

pub open spec fn rebuilds_of(
    snapshot: SnapshotModel,
    hints: Seq<HintModel>,
) -> spec_fn((Text, TableModel)) -> Seq<Text> {
    |e: (Text, TableModel)|
        if entry_change(e, snapshot, hints).rebuild {
            seq![e.0]
        } else {
            Seq::empty()
        }
}

pub open spec fn adds_of(
    snapshot: SnapshotModel,
    hints: Seq<HintModel>,
) -> spec_fn((Text, TableModel)) -> Seq<(Text, ColumnModel)> {
    |e: (Text, TableModel)| tagged(e.0, entry_change(e, snapshot, hints).add)
}

pub open spec fn drops_of(
    snapshot: SnapshotModel,
    hints: Seq<HintModel>,
) -> spec_fn((Text, TableModel)) -> Seq<(Text, Text)> {
    |e: (Text, TableModel)| tagged(e.0, entry_change(e, snapshot, hints).drop)
}

pub open spec fn renames_of(
    snapshot: SnapshotModel,
    hints: Seq<HintModel>,
) -> spec_fn((Text, TableModel)) -> Seq<(Text, Text, Text)> {
    |e: (Text, TableModel)| tagged_pairs(e.0, entry_change(e, snapshot, hints).renamed)
}

// ---------------------------------------------------------------------------
// Indexes, views, triggers
// ---------------------------------------------------------------------------

pub open spec fn if_missing(names: Seq<Text>) -> spec_fn(Text) -> Seq<Text> {
    |n: Text|
        if has_name(names, n) {
            Seq::empty()
        } else {
            seq![n]
        }
}

/// The names of the one list that the other lacks.
pub open spec fn missing_names(from: Seq<Text>, other: Seq<Text>) -> Seq<Text> {
    gather(from, if_missing(other))
}

/// Whether an index is in both schemas and has to be made anew: its statement changed,
/// or its table is rebuilt.
pub open spec fn index_changed(
    e: (Text, IndexModel),
    actual: Seq<(Text, IndexModel)>,
    rebuilt: Seq<Text>,
) -> bool {
    match lookup(actual, e.0) {
        Some(a) => normal(e.1.sql) != normal(a.sql) || has_name(rebuilt, e.1.table_name),
        None => false,
    }
}

pub open spec fn index_creations(
    fts: bool,
    actual: Seq<(Text, IndexModel)>,
    rebuilt: Seq<Text>,
) -> spec_fn((Text, IndexModel)) -> Seq<Text> {
    |e: (Text, IndexModel)|
        if e.1.is_fts == fts && (lookup(actual, e.0) is None || index_changed(
            e,
            actual,
            rebuilt,
        )) {
            seq![e.0]
        } else {
            Seq::empty()
        }
}

pub open spec fn index_replacements(
    fts: bool,
    actual: Seq<(Text, IndexModel)>,
    rebuilt: Seq<Text>,
) -> spec_fn((Text, IndexModel)) -> Seq<Text> {
    |e: (Text, IndexModel)|
        if e.1.is_fts == fts && index_changed(e, actual, rebuilt) {
            seq![e.0]
        } else {
            Seq::empty()
        }
}

pub open spec fn index_removals(
    fts: bool,
    desired: Seq<(Text, IndexModel)>,
) -> spec_fn((Text, IndexModel)) -> Seq<Text> {
    |e: (Text, IndexModel)|
        if e.1.is_fts == fts && !has_name(keys(desired), e.0) {
            seq![e.0]
        } else {
            Seq::empty()
        }
}

pub open spec fn creations(actual: Seq<(Text, Text)>) -> spec_fn((Text, Text)) -> Seq<Text> {
    |e: (Text, Text)|
        match lookup(actual, e.0) {
            Some(sql) => if normal(e.1) != normal(sql) {
                seq![e.0]
            } else {
                Seq::empty()
            },
            None => seq![e.0],
        }
}

pub open spec fn replacements(actual: Seq<(Text, Text)>) -> spec_fn((Text, Text)) -> Seq<Text> {
    |e: (Text, Text)|
        match lookup(actual, e.0) {
            Some(sql) => if normal(e.1) != normal(sql) {
                seq![e.0]
            } else {
                Seq::empty()
            },
            None => Seq::empty(),
        }
}

/// What has to be created: what is not there, or not with the wanted statement.
pub open spec fn created(desired: Seq<(Text, Text)>, actual: Seq<(Text, Text)>) -> Seq<Text> {
    gather(desired, creations(actual))
}

/// What has to be dropped: what has another statement, then what is not wanted.
pub open spec fn dropped(desired: Seq<(Text, Text)>, actual: Seq<(Text, Text)>) -> Seq<Text> {
    gather(desired, replacements(actual)) + missing_names(keys(actual), keys(desired))
}

/// The difference between the wanted and the actual schema.
pub open spec fn difference(
    desired: SnapshotModel,
    actual: SnapshotModel,
    hints: Seq<HintModel>,
) -> DiffModel {
    let rebuilt = gather(desired.tables, rebuilds_of(actual, hints));
    let ix = actual.indexes;
    DiffModel {
        tables_to_create: missing_names(keys(desired.tables), keys(actual.tables)),
        tables_to_drop: missing_names(keys(actual.tables), keys(desired.tables)),
        tables_to_rebuild: rebuilt,
        columns_to_add: gather(desired.tables, adds_of(actual, hints)),
        columns_to_drop: gather(desired.tables, drops_of(actual, hints)),
        columns_to_rename: gather(desired.tables, renames_of(actual, hints)),
        indexes_to_create: gather(desired.indexes, index_creations(false, ix, rebuilt)),
        indexes_to_drop: gather(desired.indexes, index_replacements(false, ix, rebuilt)) + gather(
            ix,
            index_removals(false, desired.indexes),
        ),
        fts_indexes_to_create: gather(desired.indexes, index_creations(true, ix, rebuilt)),
        fts_indexes_to_drop: gather(desired.indexes, index_replacements(true, ix, rebuilt))
            + gather(ix, index_removals(true, desired.indexes)),
        views_to_create: created(view_texts(desired.views), view_texts(actual.views)),
        views_to_drop: dropped(view_texts(desired.views), view_texts(actual.views)),
        triggers_to_create: created(trigger_texts(desired.triggers), trigger_texts(actual.triggers)),
        triggers_to_drop: dropped(trigger_texts(desired.triggers), trigger_texts(actual.triggers)),
    }
}

// ---------------------------------------------------------------------------
// Tables, executable
// ---------------------------------------------------------------------------

/// The visible columns of the one table that the other lacks.
fn columns_lost(other: &Vec<ColumnInfo>, columns: &Vec<ColumnInfo>) -> (r: Vec<ColumnInfo>)
    ensures
        r.deep_view() == gather(columns.deep_view(), lost_from(other.deep_view())),
{
    let ghost all = columns.deep_view();
    let ghost f = lost_from(other.deep_view());
    let mut r: Vec<ColumnInfo> = Vec::new();
    let mut i: usize = 0;
    assert(all.take(0) =~= Seq::empty());
    assert(r.deep_view() =~= Seq::empty());
    while i < columns.len()
        invariant
            i <= columns.len(),
            all == columns.deep_view(),
            f == lost_from(other.deep_view()),
            r.deep_view() == gather(all.take(i as int), f),
        decreases columns.len() - i,
    {
        let ghost before = r.deep_view();
        proof {
            lemma_gather_step(all, i as int, f);
        }
        assert(all[i as int] == columns@[i as int].deep_view());
        if !columns[i].is_hidden && find_column(other, columns[i].name.as_str()).is_none() {
            r.push(columns[i].clone());
            assert(r.deep_view() =~= before.push(all[i as int]));
            assert(f(all[i as int]) == seq![all[i as int]]);
            assert(before + seq![all[i as int]] =~= before.push(all[i as int]));
        } else {
            assert(before + Seq::<ColumnModel>::empty() =~= before);
        }
        i += 1;
    }
    assert(all.take(i as int) =~= all);
    r
}

/// The names of the columns.
fn names_of_columns(columns: &Vec<ColumnInfo>) -> (r: Vec<String>)
    ensures
        r.deep_view() == column_names(columns.deep_view()),
{
    let mut r: Vec<String> = Vec::new();
    let mut i: usize = 0;
    while i < columns.len()
        invariant
            i <= columns.len(),
            r.len() == i,
            forall|j: int| 0 <= j < i ==> (#[trigger] r@[j])@ == columns@[j].name@,
        decreases columns.len() - i,
    {
        r.push(columns[i].name.clone());
        i += 1;
    }
    assert(r.deep_view() =~= column_names(columns.deep_view()));
    r
}

/// Whether two lists of strings are equal.
fn same_strings(a: &Vec<String>, b: &Vec<String>) -> (r: bool)
    ensures
        r == (a.deep_view() == b.deep_view()),
{
    if a.len() != b.len() {
        assert(a.deep_view().len() != b.deep_view().len());
        return false;
    }
    let mut i: usize = 0;
    while i < a.len()
        invariant
            i <= a.len(),
            a.len() == b.len(),
            forall|j: int| 0 <= j < i ==> a@[j]@ == b@[j]@,
        decreases a.len() - i,
    {
        if !crate::text::str_equal(a[i].as_str(), b[i].as_str()) {
            assert(a.deep_view()[i as int] != b.deep_view()[i as int]);
            return false;
        }
        i += 1;
    }
    assert(a.deep_view() =~= b.deep_view());
    true
}

/// Whether what the two tables share is different.
fn is_table_altered(desired: &TableInfo, actual: &TableInfo) -> (r: bool)
    ensures
        r == table_altered(desired.deep_view(), actual.deep_view()),
{
    let ghost de = desired.deep_view();
    let ghost ac = actual.deep_view();
    if !same_strings(&desired.check_constraints, &actual.check_constraints) {
        return true;
    }
    let mut i: usize = 0;
    while i < desired.columns.len()
        invariant
            i <= desired.columns.len(),
            de == desired.deep_view(),
            ac == actual.deep_view(),
            forall|j: int| 0 <= j < i ==> !column_altered(#[trigger] de.columns[j], ac.columns),
        decreases desired.columns.len() - i,
    {
        let c = &desired.columns[i];
        assert(de.columns[i as int] == c.deep_view());
        if !c.is_hidden {
            match find_column(&actual.columns, c.name.as_str()) {
                Some(k) => {
                    let a = &actual.columns[k];
                    assert(ac.columns[k as int] == a.deep_view());
                    if !types_match(a.col_type.as_str(), c.col_type.as_str()) || a.notnull
                        != c.notnull || !defaults_match(&a.default_value, &c.default_value) || a.pk
                        != c.pk || !optional_equal(&a.collation, &c.collation) || a.is_generated
                        != c.is_generated {
                        assert(column_altered(de.columns[i as int], ac.columns));
                        return true;
                    }
                },
                None => {},
            }
        }
        i += 1;
    }
    false
}

/// Whether the column can be dropped without a rebuild of its table.
pub fn can_drop_column(col: &ColumnInfo, table: &TableInfo, snapshot: &SchemaSnapshot) -> (r: bool)
    ensures
        r == droppable(col.deep_view(), table.deep_view(), snapshot.deep_view()),
{
    let ghost s = snapshot.deep_view();
    let ghost t = table.deep_view();
    if col.pk != 0 {
        return false;
    }
    let mut i: usize = 0;
    while i < snapshot.indexes.len()
        invariant
            i <= snapshot.indexes@.len(),
            s == snapshot.deep_view(),
            t == table.deep_view(),
            forall|j: int|
                0 <= j < i ==> !(same_name((#[trigger] s.indexes[j]).1.table_name, t.name)
                    && has_name(s.indexes[j].1.columns, col.name@)),
        decreases snapshot.indexes@.len() - i,
    {
        let idx = snapshot.indexes.value_at(i);
        assert(s.indexes[i as int].1 == idx.deep_view());
        if names_equal(idx.table_name.as_str(), table.name.as_str()) && holds_name(
            &idx.columns,
            col.name.as_str(),
        ) {
            return false;
        }
        i += 1;
    }
    i = 0;
    while i < snapshot.triggers.len()
        invariant
            i <= snapshot.triggers@.len(),
            s == snapshot.deep_view(),
            t == table.deep_view(),
            forall|j: int|
                0 <= j < i ==> !same_name((#[trigger] s.triggers[j]).1.table_name, t.name),
        decreases snapshot.triggers@.len() - i,
    {
        let trigger = snapshot.triggers.value_at(i);
        assert(s.triggers[i as int].1 == trigger.deep_view());
        if names_equal(trigger.table_name.as_str(), table.name.as_str()) {
            return false;
        }
        i += 1;
    }
    let table_lower = to_lower(table.name.as_str());
    i = 0;
    while i < snapshot.views.len()
        invariant
            i <= snapshot.views@.len(),
            s == snapshot.deep_view(),
            t == table.deep_view(),
            table_lower@ == lower(t.name),
            forall|j: int|
                0 <= j < i ==> !contains(lower((#[trigger] s.views[j]).1.sql), lower(t.name)),
        decreases snapshot.views@.len() - i,
    {
        let view = snapshot.views.value_at(i);
        assert(s.views[i as int].1 == view.deep_view());
        if lower_contains(view.sql.as_str(), table_lower.as_str()) {
            return false;
        }
        i += 1;
    }
    i = 0;
    while i < table.foreign_keys.len()
        invariant
            i <= table.foreign_keys.len(),
            t == table.deep_view(),
            forall|j: int|
                0 <= j < i ==> !has_name((#[trigger] t.foreign_keys[j]).from_columns, col.name@),
        decreases table.foreign_keys.len() - i,
    {
        assert(t.foreign_keys[i as int] == table.foreign_keys@[i as int].deep_view());
        if holds_name(&table.foreign_keys[i].from_columns, col.name.as_str()) {
            return false;
        }
        i += 1;
    }
    i = 0;
    while i < snapshot.tables.len()
        invariant
            i <= snapshot.tables@.len(),
            s == snapshot.deep_view(),
            t == table.deep_view(),
            forall|j: int|
                0 <= j < i ==> !ends_key(
                    (#[trigger] s.tables[j]).1.foreign_keys,
                    t.name,
                    col.name@,
                ),
        decreases snapshot.tables@.len() - i,
    {
        let other = snapshot.tables.value_at(i);
        assert(s.tables[i as int].1 == other.deep_view());
        if has_key_to(other, table.name.as_str(), col.name.as_str()) {
            return false;
        }
        i += 1;
    }
    true
}

/// Whether a foreign key of `other` points to the column of the table.
fn has_key_to(other: &TableInfo, table: &str, column: &str) -> (r: bool)
    ensures
        r == ends_key(other.deep_view().foreign_keys, table@, column@),
{
    let ghost fks = other.deep_view().foreign_keys;
    let mut i: usize = 0;
    while i < other.foreign_keys.len()
        invariant
            i <= other.foreign_keys.len(),
            fks == other.deep_view().foreign_keys,
            forall|j: int|
                0 <= j < i ==> !(same_name((#[trigger] fks[j]).to_table, table@) && has_name(
                    fks[j].to_columns,
                    column@,
                )),
        decreases other.foreign_keys.len() - i,
    {
        let fk = &other.foreign_keys[i];
        assert(fks[i as int] == fk.deep_view());
        if names_equal(fk.to_table.as_str(), table) && holds_name(&fk.to_columns, column) {
            return true;
        }
        i += 1;
    }
    false
}

/// Whether the column can be added without a rebuild of its table.
pub fn can_add_column(col: &ColumnInfo) -> (r: bool)
    ensures
        r == addable(col.deep_view()),
{
    col.pk == 0 && (!col.notnull || col.default_value.is_some()) && !col.is_generated
}

/// What has to be done to a table.
struct TableChange {
    rebuild: bool,
    add: Vec<ColumnInfo>,
    drop: Vec<String>,
    renamed: Vec<(String, String)>,
}

impl DeepView for TableChange {
    type V = ChangeModel;

    closed spec fn deep_view(&self) -> ChangeModel {
        ChangeModel {
            rebuild: self.rebuild,
            add: self.add.deep_view(),
            drop: self.drop.deep_view(),
            renamed: self.renamed.deep_view(),
        }
    }
}

impl TableChange {
    /// A rebuild, or nothing.
    fn plain(rebuild: bool) -> (r: Self)
        ensures
            r.deep_view() == (ChangeModel {
                rebuild,
                add: Seq::empty(),
                drop: Seq::empty(),
                renamed: Seq::empty(),
            }),
    {
        let r = TableChange { rebuild, add: Vec::new(), drop: Vec::new(), renamed: Vec::new() };
        assert(r.add.deep_view() =~= Seq::empty());
        assert(r.drop.deep_view() =~= Seq::empty());
        assert(r.renamed.deep_view() =~= Seq::empty());
        r
    }
}

/// Whether the hints can be carried out on a table that is in both schemas.
fn table_hints_fit(
    name: &str,
    desired: &TableInfo,
    actual: &TableInfo,
    hints: &Vec<ColumnRenameHint>,
) -> (r: bool)
    ensures
        r == (table_altered(desired.deep_view(), actual.deep_view()) || hints_fit(
            name@,
            desired.deep_view().columns,
            actual.deep_view().columns,
            fresh_columns(desired.deep_view().columns, actual.deep_view().columns),
            column_names(lost_columns(desired.deep_view().columns, actual.deep_view().columns)),
            hints.deep_view(),
        )),
{
    if is_table_altered(desired, actual) {
        return true;
    }
    let lost = columns_lost(&desired.columns, &actual.columns);
    let fresh = columns_lost(&actual.columns, &desired.columns);
    let names = names_of_columns(&lost);
    do_hints_fit(name, &desired.columns, &actual.columns, &fresh, &names, hints)
}

/// What has to be done to a table that is in both schemas.
fn compare_tables(
    name: &str,
    desired: &TableInfo,
    actual: &TableInfo,
    snapshot: &SchemaSnapshot,
    hints: &Vec<ColumnRenameHint>,
) -> (r: TableChange)
    requires
        table_altered(desired.deep_view(), actual.deep_view()) || hints_fit(
            name@,
            desired.deep_view().columns,
            actual.deep_view().columns,
            fresh_columns(desired.deep_view().columns, actual.deep_view().columns),
            column_names(lost_columns(desired.deep_view().columns, actual.deep_view().columns)),
            hints.deep_view(),
        ),
    ensures
        r.deep_view() == table_change(
            name@,
            desired.deep_view(),
            actual.deep_view(),
            snapshot.deep_view(),
            hints.deep_view(),
        ),
{
    if is_table_altered(desired, actual) {
        return TableChange::plain(true);
    }
    let ghost ac = actual.deep_view();
    let ghost s = snapshot.deep_view();
    let lost = columns_lost(&desired.columns, &actual.columns);
    let fresh = columns_lost(&actual.columns, &desired.columns);
    let names = names_of_columns(&lost);
    let found = detect_column_renames(
        name,
        &desired.columns,
        &actual.columns,
        fresh,
        names,
        hints,
    );
    let ghost m = found.deep_view();
    let ghost gone = lost.deep_view();
    let mut i: usize = 0;
    while i < found.drop.len()
        invariant
            i <= found.drop.len(),
            m == found.deep_view(),
            m == table_renames(name@, desired.deep_view(), ac, hints.deep_view()),
            gone == lost_columns(desired.deep_view().columns, ac.columns),
            ac == actual.deep_view(),
            s == snapshot.deep_view(),
            gone == lost.deep_view(),
            forall|j: int| 0 <= j < i ==> !stuck(#[trigger] m.drop[j], gone, ac, s),
        decreases found.drop.len() - i,
    {
        assert(m.drop[i as int] == found.drop@[i as int]@);
        match find_column(&lost, found.drop[i].as_str()) {
            Some(k) => {
                assert(gone[k as int] == lost@[k as int].deep_view());
                if !can_drop_column(&lost[k], actual, snapshot) {
                    assert(stuck(m.drop[i as int], gone, ac, s));
                    return TableChange::plain(true);
                }
            },
            None => {},
        }
        i += 1;
    }
    i = 0;
    while i < found.add.len()
        invariant
            i <= found.add.len(),
            m == found.deep_view(),
            ac == actual.deep_view(),
            m == table_renames(name@, desired.deep_view(), ac, hints.deep_view()),
            forall|j: int| 0 <= j < i ==> addable(#[trigger] m.add[j]),
        decreases found.add.len() - i,
    {
        assert(m.add[i as int] == found.add@[i as int].deep_view());
        if !can_add_column(&found.add[i]) {
            return TableChange::plain(true);
        }
        i += 1;
    }
    TableChange { rebuild: false, add: found.add, drop: found.drop, renamed: found.renamed }
}

/// Whether the rename hints can be carried out on these two schemas.
pub fn are_hints_applicable(
    desired: &SchemaSnapshot,
    actual: &SchemaSnapshot,
    rename_hints: &Vec<ColumnRenameHint>,
) -> (r: bool)
    ensures
        r == hints_applicable(desired.deep_view(), actual.deep_view(), rename_hints.deep_view()),
{
    let ghost de = desired.deep_view();
    let ghost ac = actual.deep_view();
    let ghost hs = rename_hints.deep_view();
    let mut i: usize = 0;
    while i < desired.tables.len()
        invariant
            i <= desired.tables@.len(),
            de == desired.deep_view(),
            ac == actual.deep_view(),
            hs == rename_hints.deep_view(),
            forall|j: int| 0 <= j < i ==> entry_hints_fit(#[trigger] de.tables[j], ac, hs),
        decreases desired.tables@.len() - i,
    {
        let name = desired.tables.key_at(i);
        let table = desired.tables.value_at(i);
        assert(de.tables[i as int] == (name@, table.deep_view()));
        if let Some(there) = actual.get_table(name) {
            if !table_hints_fit(name, table, there, rename_hints) {
                assert(!entry_hints_fit(de.tables[i as int], ac, hs));
                return false;
            }
        }
        i += 1;
    }
    true
}

// ---------------------------------------------------------------------------
// Indexes, views, triggers, executable
// ---------------------------------------------------------------------------

/// The names of the one map that the other lacks.
fn keys_missing<V>(from: &CIMap<V>, other: &CIMap<V>) -> (r: Vec<String>)
    ensures
        r.deep_view() == missing_names(keys(from@), keys(other@)),
{
    let ghost all = keys(from@);
    let ghost f = if_missing(keys(other@));
    let mut r: Vec<String> = Vec::new();
    let mut i: usize = 0;
    assert(all.take(0) =~= Seq::empty());
    assert(r.deep_view() =~= Seq::empty());
    while i < from.len()
        invariant
            i <= from@.len(),
            all == keys(from@),
            f == if_missing(keys(other@)),
            r.deep_view() == gather(all.take(i as int), f),
        decreases from@.len() - i,
    {
        let ghost before = r.deep_view();
        proof {
            lemma_gather_step(all, i as int, f);
            lemma_name_index(keys(other@), all[i as int]);
        }
        let name = from.key_at(i);
        if other.position(name).is_none() {
            let s = name.to_owned();
            r.push(s);
            assert(r.deep_view() =~= before + f(all[i as int]));
        } else {
            assert(before + Seq::<Text>::empty() =~= before);
        }
        i += 1;
    }
    assert(all.take(i as int) =~= all);
    r
}

/// What has to be created, and what has to be dropped.
fn compare_statements<V: Stated>(desired: &CIMap<V>, actual: &CIMap<V>) -> (r: (
    Vec<String>,
    Vec<String>,
))
    ensures
        r.0.deep_view() == created(texts_of(desired@), texts_of(actual@)),
        r.1.deep_view() == dropped(texts_of(desired@), texts_of(actual@)),
{
    let ghost de = texts_of(desired@);
    let ghost ac = texts_of(actual@);
    assert(keys(ac) =~= keys(actual@));
    assert(keys(de) =~= keys(desired@));
    let mut create: Vec<String> = Vec::new();
    let mut drop: Vec<String> = Vec::new();
    let mut i: usize = 0;
    assert(de.take(0) =~= Seq::empty());
    assert(create.deep_view() =~= Seq::empty());
    assert(drop.deep_view() =~= Seq::empty());
    while i < desired.len()
        invariant
            i <= desired@.len(),
            de == texts_of(desired@),
            ac == texts_of(actual@),
            keys(ac) == keys(actual@),
            create.deep_view() == gather(de.take(i as int), creations(ac)),
            drop.deep_view() == gather(de.take(i as int), replacements(ac)),
        decreases desired@.len() - i,
    {
        let ghost c0 = create.deep_view();
        let ghost d0 = drop.deep_view();
        let name = desired.key_at(i);
        let sql = desired.value_at(i).statement_text();
        proof {
            lemma_gather_step(de, i as int, creations(ac));
            lemma_gather_step(de, i as int, replacements(ac));
            lemma_name_index(keys(ac), name@);
            assert(de[i as int] == (name@, sql@));
        }
        match actual.position(name) {
            Some(k) => {
                assert(ac[k as int].1 == actual@[k as int].1.statement());
                assert(lookup(ac, name@) == Some(ac[k as int].1));
                if !same_sql(sql, actual.value_at(k).statement_text()) {
                    drop.push(name.to_owned());
                    create.push(name.to_owned());
                    assert(create.deep_view() =~= c0 + seq![name@]);
                    assert(drop.deep_view() =~= d0 + seq![name@]);
                } else {
                    assert(c0 + Seq::<Text>::empty() =~= c0);
                    assert(d0 + Seq::<Text>::empty() =~= d0);
                }
            },
            None => {
                assert(lookup(ac, name@) is None);
                create.push(name.to_owned());
                assert(create.deep_view() =~= c0 + seq![name@]);
                assert(d0 + Seq::<Text>::empty() =~= d0);
            },
        }
        i += 1;
    }
    assert(de.take(i as int) =~= de);
    let mut unwanted = keys_missing(actual, desired);
    let ghost d1 = drop.deep_view();
    let ghost d2 = unwanted.deep_view();
    drop.append(&mut unwanted);
    assert(drop.deep_view() =~= d1 + d2);
    (create, drop)
}

/// The changes of indexes of one kind: what has to be created and what dropped.
fn compare_indexes(
    fts: bool,
    desired: &CIMap<IndexInfo>,
    actual: &CIMap<IndexInfo>,
    rebuilt: &Vec<String>,
) -> (r: (Vec<String>, Vec<String>))
    ensures
        r.0.deep_view() == gather(
            desired.deep_view(),
            index_creations(fts, actual.deep_view(), rebuilt.deep_view()),
        ),
        r.1.deep_view() == gather(
            desired.deep_view(),
            index_replacements(fts, actual.deep_view(), rebuilt.deep_view()),
        ) + gather(actual.deep_view(), index_removals(fts, desired.deep_view())),
{
    let ghost de = desired.deep_view();
    let ghost ac = actual.deep_view();
    let ghost rb = rebuilt.deep_view();
    let ghost f = index_creations(fts, ac, rb);
    let ghost g = index_replacements(fts, ac, rb);
    let ghost h = index_removals(fts, de);
    proof {
        lemma_deep_keys(desired@);
        lemma_deep_keys(actual@);
    }
    let mut create: Vec<String> = Vec::new();
    let mut drop: Vec<String> = Vec::new();
    let mut i: usize = 0;
    assert(de.take(0) =~= Seq::empty());
    assert(create.deep_view() =~= Seq::empty());
    assert(drop.deep_view() =~= Seq::empty());
    while i < desired.len()
        invariant
            i <= desired@.len(),
            de == desired.deep_view(),
            ac == actual.deep_view(),
            rb == rebuilt.deep_view(),
            f == index_creations(fts, ac, rb),
            g == index_replacements(fts, ac, rb),
            keys(ac) == keys(actual@),
            create.deep_view() == gather(de.take(i as int), f),
            drop.deep_view() == gather(de.take(i as int), g),
        decreases desired@.len() - i,
    {
        let ghost c0 = create.deep_view();
        let ghost d0 = drop.deep_view();
        let name = desired.key_at(i);
        let index = desired.value_at(i);
        let ghost e = de[i as int];
        proof {
            lemma_gather_step(de, i as int, f);
            lemma_gather_step(de, i as int, g);
            lemma_name_index(keys(ac), name@);
            assert(e == (name@, index.deep_view()));
            assert(c0 + Seq::<Text>::empty() =~= c0);
            assert(d0 + Seq::<Text>::empty() =~= d0);
        }
        if index.is_fts == fts {
            match actual.position(name) {
                Some(k) => {
                    let there = actual.value_at(k);
                    assert(ac[k as int].1 == there.deep_view());
                    if !same_sql(index.sql.as_str(), there.sql.as_str()) || holds_name(
                        rebuilt,
                        index.table_name.as_str(),
                    ) {
                        assert(index_changed(e, ac, rb));
                        drop.push(name.to_owned());
                        create.push(name.to_owned());
                        assert(create.deep_view() =~= c0 + seq![name@]);
                        assert(drop.deep_view() =~= d0 + seq![name@]);
                    } else {
                        assert(!index_changed(e, ac, rb));
                    }
                },
                None => {
                    create.push(name.to_owned());
                    assert(create.deep_view() =~= c0 + seq![name@]);
                },
            }
        }
        i += 1;
    }
    assert(de.take(i as int) =~= de);
    let ghost kept = drop.deep_view();
    i = 0;
    assert(ac.take(0) =~= Seq::empty());
    assert(kept + Seq::<Text>::empty() =~= kept);
    while i < actual.len()
        invariant
            i <= actual@.len(),
            de == desired.deep_view(),
            ac == actual.deep_view(),
            h == index_removals(fts, de),
            keys(de) == keys(desired@),
            drop.deep_view() == kept + gather(ac.take(i as int), h),
        decreases actual@.len() - i,
    {
        let ghost d0 = drop.deep_view();
        let name = actual.key_at(i);
        let index = actual.value_at(i);
        let ghost part = gather(ac.take(i as int), h);
        proof {
            lemma_gather_step(ac, i as int, h);
            lemma_name_index(keys(de), name@);
            assert(ac[i as int] == (name@, index.deep_view()));
        }
        if index.is_fts == fts && desired.position(name).is_none() {
            drop.push(name.to_owned());
            assert(drop.deep_view() =~= d0 + seq![name@]);
            assert((kept + part) + seq![name@] =~= kept + (part + seq![name@]));
        } else {
            assert(part + Seq::<Text>::empty() =~= part);
        }
        i += 1;
    }
    assert(ac.take(i as int) =~= ac);
    (create, drop)
}

// ---------------------------------------------------------------------------
// The whole difference
// ---------------------------------------------------------------------------

/// The difference between the wanted and the actual schema, without rename hints.
pub fn compute_diff(desired: &SchemaSnapshot, actual: &SchemaSnapshot) -> (r: SchemaDiff)
    ensures
        r.deep_view() == difference(desired.deep_view(), actual.deep_view(), Seq::empty()),
{
    let hints: Vec<ColumnRenameHint> = Vec::new();
    assert(hints.deep_view() =~= Seq::empty());
    proof {
        lemma_no_hints_applicable(desired.deep_view(), actual.deep_view());
    }
    compute_diff_with_hints(desired, actual, &hints)
}

/// Without hints there is none that could not be carried out.
pub proof fn lemma_no_hints_applicable(desired: SnapshotModel, actual: SnapshotModel)
    ensures
        hints_applicable(desired, actual, Seq::empty()),
{
}

/// The changes of all tables that are in both schemas.
struct TableChanges {
    rebuilt: Vec<String>,
    added: Vec<(String, ColumnInfo)>,
    dropped: Vec<(String, String)>,
    renamed: Vec<(String, String, String)>,
}

/// The changes of all tables that are in both schemas.
fn compare_all_tables(
    desired: &SchemaSnapshot,
    actual: &SchemaSnapshot,
    hints: &Vec<ColumnRenameHint>,
) -> (r: TableChanges)
    requires
        hints_applicable(desired.deep_view(), actual.deep_view(), hints.deep_view()),
    ensures
        ({
            let de = desired.deep_view();
            let ac = actual.deep_view();
            let hs = hints.deep_view();
            &&& r.rebuilt.deep_view() == gather(de.tables, rebuilds_of(ac, hs))
            &&& r.added.deep_view() == gather(de.tables, adds_of(ac, hs))
            &&& r.dropped.deep_view() == gather(de.tables, drops_of(ac, hs))
            &&& r.renamed.deep_view() == gather(de.tables, renames_of(ac, hs))
        }),
{
    let ghost de = desired.deep_view();
    let ghost ac = actual.deep_view();
    let ghost hs = hints.deep_view();
    let ghost all = de.tables;
    let mut rebuilt: Vec<String> = Vec::new();
    let mut added: Vec<(String, ColumnInfo)> = Vec::new();
    let mut dropped: Vec<(String, String)> = Vec::new();
    let mut renamed: Vec<(String, String, String)> = Vec::new();
    let mut i: usize = 0;
    assert(all.take(0) =~= Seq::empty());
    assert(rebuilt.deep_view() =~= Seq::empty());
    assert(added.deep_view() =~= Seq::empty());
    assert(dropped.deep_view() =~= Seq::empty());
    assert(renamed.deep_view() =~= Seq::empty());
    while i < desired.tables.len()
        invariant
            i <= desired.tables@.len(),
            de == desired.deep_view(),
            ac == actual.deep_view(),
            hs == hints.deep_view(),
            all == de.tables,
            hints_applicable(de, ac, hs),
            rebuilt.deep_view() == gather(all.take(i as int), rebuilds_of(ac, hs)),
            added.deep_view() == gather(all.take(i as int), adds_of(ac, hs)),
            dropped.deep_view() == gather(all.take(i as int), drops_of(ac, hs)),
            renamed.deep_view() == gather(all.take(i as int), renames_of(ac, hs)),
        decreases desired.tables@.len() - i,
    {
        let name = desired.tables.key_at(i);
        let table = desired.tables.value_at(i);
        let ghost e = all[i as int];
        proof {
            assert(e == (name@, table.deep_view()));
            assert(entry_hints_fit(e, ac, hs));
            lemma_gather_step(all, i as int, rebuilds_of(ac, hs));
            lemma_gather_step(all, i as int, adds_of(ac, hs));
            lemma_gather_step(all, i as int, drops_of(ac, hs));
            lemma_gather_step(all, i as int, renames_of(ac, hs));
        }
        let change = match actual.get_table(name) {
            Some(there) => compare_tables(name, table, there, actual, hints),
            None => TableChange::plain(false),
        };
        assert(change.deep_view() == entry_change(e, ac, hs));
        let ghost before = rebuilt.deep_view();
        if change.rebuild {
            rebuilt.push(name.to_owned());
            assert(rebuilt.deep_view() =~= before + seq![name@]);
        } else {
            assert(before + Seq::<Text>::empty() =~= before);
        }
        add_columns(&mut added, name, &change.add);
        add_names(&mut dropped, name, &change.drop);
        add_renames(&mut renamed, name, &change.renamed);
        i += 1;
    }
    assert(all.take(i as int) =~= all);
    TableChanges { rebuilt, added, dropped, renamed }
}

/// Appends the columns with the name of their table.
fn add_columns(list: &mut Vec<(String, ColumnInfo)>, table: &str, columns: &Vec<ColumnInfo>)
    ensures
        final(list).deep_view() == old(list).deep_view() + tagged(table@, columns.deep_view()),
{
    let ghost before = list.deep_view();
    let ghost all = tagged(table@, columns.deep_view());
    let mut i: usize = 0;
    assert(before + all.take(0) =~= before);
    while i < columns.len()
        invariant
            i <= columns.len(),
            all == tagged(table@, columns.deep_view()),
            list.deep_view() == before + all.take(i as int),
        decreases columns.len() - i,
    {
        let ghost now = list.deep_view();
        list.push((table.to_owned(), columns[i].clone()));
        assert(list.deep_view() =~= now.push(all[i as int]));
        assert(now.push(all[i as int]) =~= before + all.take(i + 1));
        i += 1;
    }
    assert(all.take(i as int) =~= all);
}

/// Appends the names with the name of their table.
fn add_names(list: &mut Vec<(String, String)>, table: &str, names: &Vec<String>)
    ensures
        final(list).deep_view() == old(list).deep_view() + tagged(table@, names.deep_view()),
{
    let ghost before = list.deep_view();
    let ghost all = tagged(table@, names.deep_view());
    let mut i: usize = 0;
    assert(before + all.take(0) =~= before);
    while i < names.len()
        invariant
            i <= names.len(),
            all == tagged(table@, names.deep_view()),
            list.deep_view() == before + all.take(i as int),
        decreases names.len() - i,
    {
        let ghost now = list.deep_view();
        list.push((table.to_owned(), names[i].clone()));
        assert(list.deep_view() =~= now.push(all[i as int]));
        assert(now.push(all[i as int]) =~= before + all.take(i + 1));
        i += 1;
    }
    assert(all.take(i as int) =~= all);
}

/// Appends the renames with the name of their table.
fn add_renames(
    list: &mut Vec<(String, String, String)>,
    table: &str,
    pairs: &Vec<(String, String)>,
)
    ensures
        final(list).deep_view() == old(list).deep_view() + tagged_pairs(table@, pairs.deep_view()),
{
    let ghost before = list.deep_view();
    let ghost all = tagged_pairs(table@, pairs.deep_view());
    let mut i: usize = 0;
    assert(before + all.take(0) =~= before);
    while i < pairs.len()
        invariant
            i <= pairs.len(),
            all == tagged_pairs(table@, pairs.deep_view()),
            list.deep_view() == before + all.take(i as int),
        decreases pairs.len() - i,
    {
        let ghost now = list.deep_view();
        list.push((table.to_owned(), pairs[i].0.clone(), pairs[i].1.clone()));
        assert(list.deep_view() =~= now.push(all[i as int]));
        assert(now.push(all[i as int]) =~= before + all.take(i + 1));
        i += 1;
    }
    assert(all.take(i as int) =~= all);
}

/// The difference between the wanted and the actual schema. Hints say which columns
/// got a new name. Two hints that rename the same column can ask for more removals than
/// there are columns; `are_hints_applicable` tells.
pub fn compute_diff_with_hints(
    desired: &SchemaSnapshot,
    actual: &SchemaSnapshot,
    rename_hints: &Vec<ColumnRenameHint>,
) -> (r: SchemaDiff)
    requires
        hints_applicable(desired.deep_view(), actual.deep_view(), rename_hints.deep_view()),
    ensures
        r.deep_view() == difference(
            desired.deep_view(),
            actual.deep_view(),
            rename_hints.deep_view(),
        ),
{
    let changes = compare_all_tables(desired, actual, rename_hints);
    let (index_create, index_drop) = compare_indexes(
        false,
        &desired.indexes,
        &actual.indexes,
        &changes.rebuilt,
    );
    let (fts_create, fts_drop) = compare_indexes(
        true,
        &desired.indexes,
        &actual.indexes,
        &changes.rebuilt,
    );
    let (view_create, view_drop) = compare_statements(&desired.views, &actual.views);
    let (trigger_create, trigger_drop) = compare_statements(&desired.triggers, &actual.triggers);
    proof {
        lemma_deep_keys(desired.tables@);
        lemma_deep_keys(actual.tables@);
        assert(texts_of(desired.views@) =~= view_texts(desired.deep_view().views));
        assert(texts_of(actual.views@) =~= view_texts(actual.deep_view().views));
        assert(texts_of(desired.triggers@) =~= trigger_texts(desired.deep_view().triggers));
        assert(texts_of(actual.triggers@) =~= trigger_texts(actual.deep_view().triggers));
    }
    SchemaDiff {
        tables_to_create: keys_missing(&desired.tables, &actual.tables),
        tables_to_drop: keys_missing(&actual.tables, &desired.tables),
        tables_to_rebuild: changes.rebuilt,
        columns_to_add: changes.added,
        columns_to_drop: changes.dropped,
        columns_to_rename: changes.renamed,
        indexes_to_create: index_create,
        indexes_to_drop: index_drop,
        fts_indexes_to_create: fts_create,
        fts_indexes_to_drop: fts_drop,
        views_to_create: view_create,
        views_to_drop: view_drop,
        triggers_to_create: trigger_create,
        triggers_to_drop: trigger_drop,
    }
}

// ---------------------------------------------------------------------------
// For people
// ---------------------------------------------------------------------------

/// One line for each name: a prefix, the name and a suffix.
pub open spec fn listed(prefix: Text, names: Seq<Text>, suffix: Text) -> Text
    decreases names.len(),
{
    if names.len() == 0 {
        Seq::empty()
    } else {
        listed(prefix, names.drop_last(), suffix) + prefix + names.last() + suffix
    }
}

/// A table, a column and its type.
pub open spec fn added_labels(columns: Seq<(Text, ColumnModel)>) -> Seq<Text> {
    Seq::new(
        columns.len(),
        |i: int| columns[i].0 + "."@ + columns[i].1.name + " "@ + columns[i].1.col_type,
    )
}

/// A table and a column.
pub open spec fn dropped_labels(columns: Seq<(Text, Text)>) -> Seq<Text> {
    Seq::new(columns.len(), |i: int| columns[i].0 + "."@ + columns[i].1)
}

/// A table, the old name and the new name of a column.
pub open spec fn renamed_labels(columns: Seq<(Text, Text, Text)>) -> Seq<Text> {
    Seq::new(columns.len(), |i: int| columns[i].0 + "."@ + columns[i].1 + " -> "@ + columns[i].2)
}

impl DiffModel {
    /// The changes for people, one per line: `+` is new, `-` goes away, `~` changes.
    pub open spec fn display(self) -> Text {
        if self.nothing() {
            "(no changes)"@
        } else {
            listed("+ TABLE "@, self.tables_to_create, "\n"@) + listed(
                "~ TABLE "@,
                self.tables_to_rebuild,
                ": REBUILD\n"@,
            ) + listed("- TABLE "@, self.tables_to_drop, "\n"@) + listed(
                "+ COLUMN "@,
                added_labels(self.columns_to_add),
                "\n"@,
            ) + listed("- COLUMN "@, dropped_labels(self.columns_to_drop), "\n"@) + listed(
                "~ COLUMN "@,
                renamed_labels(self.columns_to_rename),
                "\n"@,
            ) + listed("+ INDEX "@, self.indexes_to_create, "\n"@) + listed(
                "- INDEX "@,
                self.indexes_to_drop,
                "\n"@,
            ) + listed("+ FTS INDEX "@, self.fts_indexes_to_create, "\n"@) + listed(
                "- FTS INDEX "@,
                self.fts_indexes_to_drop,
                "\n"@,
            ) + listed("+ VIEW "@, self.views_to_create, "\n"@) + listed(
                "- VIEW "@,
                self.views_to_drop,
                "\n"@,
            ) + listed("+ TRIGGER "@, self.triggers_to_create, "\n"@) + listed(
                "- TRIGGER "@,
                self.triggers_to_drop,
                "\n"@,
            )
        }
    }
}

/// Appends one line for each name.
fn list_lines(out: &mut String, prefix: &str, names: &Vec<String>, suffix: &str)
    ensures
        final(out)@ == old(out)@ + listed(prefix@, names.deep_view(), suffix@),
{
    let ghost before = out@;
    let ghost all = names.deep_view();
    let mut i: usize = 0;
    assert(all.take(0) =~= Seq::empty());
    assert(before + listed(prefix@, all.take(0), suffix@) =~= before);
    while i < names.len()
        invariant
            i <= names.len(),
            all == names.deep_view(),
            out@ == before + listed(prefix@, all.take(i as int), suffix@),
        decreases names.len() - i,
    {
        let ghost now = listed(prefix@, all.take(i as int), suffix@);
        assert(all.take(i + 1).drop_last() =~= all.take(i as int));
        assert(all[i as int] == names@[i as int]@);
        out.append(prefix);
        out.append(names[i].as_str());
        out.append(suffix);
        assert(out@ =~= before + (now + prefix@ + all[i as int] + suffix@));
        i += 1;
    }
    assert(all.take(i as int) =~= all);
}

fn labels_of_added(columns: &Vec<(String, ColumnInfo)>) -> (r: Vec<String>)
    ensures
        r.deep_view() == added_labels(columns.deep_view()),
{
    let mut r: Vec<String> = Vec::new();
    let mut i: usize = 0;
    while i < columns.len()
        invariant
            i <= columns.len(),
            r.len() == i,
            forall|j: int|
                0 <= j < i ==> (#[trigger] r@[j])@ == columns@[j].0@ + "."@ + columns@[j].1.name@
                    + " "@ + columns@[j].1.col_type@,
        decreases columns.len() - i,
    {
        r.push(
            glue5(
                columns[i].0.as_str(),
                ".",
                columns[i].1.name.as_str(),
                " ",
                columns[i].1.col_type.as_str(),
            ),
        );
        i += 1;
    }
    assert(r.deep_view() =~= added_labels(columns.deep_view()));
    r
}

fn labels_of_dropped(columns: &Vec<(String, String)>) -> (r: Vec<String>)
    ensures
        r.deep_view() == dropped_labels(columns.deep_view()),
{
    let mut r: Vec<String> = Vec::new();
    let mut i: usize = 0;
    while i < columns.len()
        invariant
            i <= columns.len(),
            r.len() == i,
            forall|j: int|
                0 <= j < i ==> (#[trigger] r@[j])@ == columns@[j].0@ + "."@ + columns@[j].1@,
        decreases columns.len() - i,
    {
        r.push(glue3(columns[i].0.as_str(), ".", columns[i].1.as_str()));
        i += 1;
    }
    assert(r.deep_view() =~= dropped_labels(columns.deep_view()));
    r
}

fn labels_of_renamed(columns: &Vec<(String, String, String)>) -> (r: Vec<String>)
    ensures
        r.deep_view() == renamed_labels(columns.deep_view()),
{
    let mut r: Vec<String> = Vec::new();
    let mut i: usize = 0;
    while i < columns.len()
        invariant
            i <= columns.len(),
            r.len() == i,
            forall|j: int|
                0 <= j < i ==> (#[trigger] r@[j])@ == columns@[j].0@ + "."@ + columns@[j].1@
                    + " -> "@ + columns@[j].2@,
        decreases columns.len() - i,
    {
        r.push(
            glue5(
                columns[i].0.as_str(),
                ".",
                columns[i].1.as_str(),
                " -> ",
                columns[i].2.as_str(),
            ),
        );
        i += 1;
    }
    assert(r.deep_view() =~= renamed_labels(columns.deep_view()));
    r
}

impl SchemaDiff {
    /// The changes for people, one per line, or "(no changes)".
    pub fn to_string(&self) -> (r: String)
        ensures
            r@ == self.deep_view().display(),
    {
        if self.is_empty() {
            return "(no changes)".to_owned();
        }
        let added = labels_of_added(&self.columns_to_add);
        let dropped = labels_of_dropped(&self.columns_to_drop);
        let renamed = labels_of_renamed(&self.columns_to_rename);
        let mut out = String::new();
        list_lines(&mut out, "+ TABLE ", &self.tables_to_create, "\n");
        assert(out@ =~= listed("+ TABLE "@, self.deep_view().tables_to_create, "\n"@));
        list_lines(&mut out, "~ TABLE ", &self.tables_to_rebuild, ": REBUILD\n");
        list_lines(&mut out, "- TABLE ", &self.tables_to_drop, "\n");
        list_lines(&mut out, "+ COLUMN ", &added, "\n");
        list_lines(&mut out, "- COLUMN ", &dropped, "\n");
        list_lines(&mut out, "~ COLUMN ", &renamed, "\n");
        list_lines(&mut out, "+ INDEX ", &self.indexes_to_create, "\n");
        list_lines(&mut out, "- INDEX ", &self.indexes_to_drop, "\n");
        list_lines(&mut out, "+ FTS INDEX ", &self.fts_indexes_to_create, "\n");
        list_lines(&mut out, "- FTS INDEX ", &self.fts_indexes_to_drop, "\n");
        list_lines(&mut out, "+ VIEW ", &self.views_to_create, "\n");
        list_lines(&mut out, "- VIEW ", &self.views_to_drop, "\n");
        list_lines(&mut out, "+ TRIGGER ", &self.triggers_to_create, "\n");
        list_lines(&mut out, "- TRIGGER ", &self.triggers_to_drop, "\n");
        out
    }
}

} // verus!
