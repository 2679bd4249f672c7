//! The schema of a database as data: tables, indexes, views and triggers.
//!
//! Names keep the spelling they came with; they are compared, ordered and looked
//! up without regard to ASCII case.

use std::cmp::Ordering;

use vstd::prelude::*;
#[allow(unused_imports)]
use vstd::std_specs::cmp::{PartialEqSpec, PartialOrdSpec};

use crate::lists::{clone_optional, name_less, sort_texts, str_less};
#[allow(unused_imports)]
use crate::lists::{
    has_name, increasing, lemma_less_total, lemma_less_transitive, lemma_name_index,
    lemma_name_index_case, lemma_name_index_is, lemma_slot_from, less, name_index, slot_from, sorted_set,
};
use crate::text::{names_equal, str_equal, to_lower, Text};
#[allow(unused_imports)]
use crate::text::{lower, same_name};

verus! {

// ---------------------------------------------------------------------------
// Case-insensitive names
// ---------------------------------------------------------------------------

/// A name with its spelling and its ASCII lower case form.
///
/// Two names are equal where their lower case forms are, and ordered as those are; `raw`
/// gives the spelling back for DDL and messages.
#[derive(Debug)]
pub struct CIString {
    raw: String,
    lower: String,
}

impl View for CIString {
    type V = Text;

    /// The spelling.
    closed spec fn view(&self) -> Text {
        self.raw@
    }
}

impl DeepView for CIString {
    type V = Text;

    open spec fn deep_view(&self) -> Text {
        self@
    }
}

impl CIString {
    #[verifier::type_invariant]
    spec fn folded(self) -> bool {
        self.lower@ == lower(self.raw@)
    }

    /// The name spelled `s`.
    pub fn new(s: &str) -> (r: Self)
        ensures
            r@ == s@,
    {
        CIString { raw: s.to_owned(), lower: to_lower(s) }
    }

    /// The original spelling.
    pub fn raw(&self) -> (r: &str)
        ensures
            r@ == self@,
    {
        self.raw.as_str()
    }

    /// The ASCII lower case form.
    pub fn lower(&self) -> (r: &str)
        ensures
            r@ == lower(self@),
    {
        proof {
            use_type_invariant(self);
        }
        self.lower.as_str()
    }

    /// The text of the name: its original spelling.
    pub fn to_string(&self) -> (r: String)
        ensures
            r@ == self@,
    {
        self.raw.clone()
    }
}

impl Clone for CIString {
    fn clone(&self) -> (r: Self)
        ensures
            r@ == self@,
    {
        proof {
            use_type_invariant(self);
        }
        CIString { raw: self.raw.clone(), lower: self.lower.clone() }
    }
}

impl PartialEq for CIString {
    fn eq(&self, other: &Self) -> (r: bool) {
        proof {
            use_type_invariant(self);
            use_type_invariant(other);
        }
        self.lower == other.lower
    }
}

impl vstd::std_specs::cmp::PartialEqSpecImpl for CIString {
    open spec fn obeys_eq_spec() -> bool {
        true
    }

    open spec fn eq_spec(&self, other: &Self) -> bool {
        same_name(self@, other@)
    }
}

impl Eq for CIString {

}

impl PartialOrd for CIString {
    fn partial_cmp(&self, other: &Self) -> (r: Option<Ordering>) {
        proof {
            use_type_invariant(self);
            use_type_invariant(other);
        }
        if str_less(self.lower.as_str(), other.lower.as_str()) {
            Some(Ordering::Less)
        } else if str_equal(self.lower.as_str(), other.lower.as_str()) {
            Some(Ordering::Equal)
        } else {
            Some(Ordering::Greater)
        }
    }
}

impl vstd::std_specs::cmp::PartialOrdSpecImpl for CIString {
    open spec fn obeys_partial_cmp_spec() -> bool {
        true
    }

    /// The order of the lower case forms.
    open spec fn partial_cmp_spec(&self, other: &Self) -> Option<Ordering> {
        if less(lower(self@), lower(other@)) {
            Some(Ordering::Less)
        } else if lower(self@) == lower(other@) {
            Some(Ordering::Equal)
        } else {
            Some(Ordering::Greater)
        }
    }
}

/// The order of names is total, goes by their lower case forms, and calls those names
/// equal that are.
pub proof fn lemma_names_ordered(a: CIString, b: CIString)
    ensures
        a.partial_cmp_spec(&b) == Some(Ordering::Equal) <==> a.eq_spec(&b),
        a.eq_spec(&b) <==> lower(a@) == lower(b@),
        a.partial_cmp_spec(&b) == Some(Ordering::Less) <==> less(lower(a@), lower(b@)),
        a.partial_cmp_spec(&b) == Some(Ordering::Greater) <==> less(lower(b@), lower(a@)),
        a.partial_cmp_spec(&b) == Some(Ordering::Less) <==> b.partial_cmp_spec(&a) == Some(
            Ordering::Greater,
        ),
{
    lemma_less_total(lower(a@), lower(b@));
}

/// A name that comes before another comes before all that the other comes before.
pub proof fn lemma_names_ordered_transitively(a: CIString, b: CIString, c: CIString)
    requires
        a.partial_cmp_spec(&b) == Some(Ordering::Less),
        b.partial_cmp_spec(&c) == Some(Ordering::Less),
    ensures
        a.partial_cmp_spec(&c) == Some(Ordering::Less),
{
    lemma_names_ordered(a, b);
    lemma_names_ordered(b, c);
    lemma_less_transitive(lower(a@), lower(b@), lower(c@));
}

// ---------------------------------------------------------------------------
// Maps by name
// ---------------------------------------------------------------------------

/// The keys of a map, in order.
pub open spec fn keys<M>(s: Seq<(Text, M)>) -> Seq<Text> {
    Seq::new(s.len(), |i: int| s[i].0)
}

/// The keys of a map in lower case, in order.
pub open spec fn lower_keys<M>(s: Seq<(Text, M)>) -> Seq<Text> {
    Seq::new(s.len(), |i: int| lower(s[i].0))
}

/// Whether the entries stand in increasing order of their lower case keys.
pub open spec fn sorted_keys<M>(s: Seq<(Text, M)>) -> bool {
    increasing(lower_keys(s))
}

/// What the map holds for a name.
pub open spec fn lookup<M>(s: Seq<(Text, M)>, name: Text) -> Option<M> {
    match name_index(keys(s), name) {
        Some(k) => Some(s[k].1),
        None => None,
    }
}

/// The map with one more entry. An entry for the same name keeps its key and its
/// place and gets the new value.
pub open spec fn inserted<M>(s: Seq<(Text, M)>, key: Text, value: M) -> Seq<(Text, M)> {
    let k = slot_from(lower_keys(s), lower(key), 0);
    if k < s.len() && same_name(s[k].0, key) {
        s.update(k, (s[k].0, value))
    } else {
        s.insert(k, (key, value))
    }
}

/// A map whose keys are names, ordered by their lower case forms.
#[derive(Debug, PartialEq, Eq)]
pub struct CIMap<V> {
    entries: Vec<(CIString, V)>,
}

impl<V> View for CIMap<V> {
    type V = Seq<(Text, V)>;

    closed spec fn view(&self) -> Seq<(Text, V)> {
        Seq::new(self.entries@.len(), |i: int| (self.entries@[i].0@, self.entries@[i].1))
    }
}

/// The entries of a map with their values as mathematical values.
pub open spec fn deep_entries<V: DeepView>(s: Seq<(Text, V)>) -> Seq<(Text, V::V)> {
    Seq::new(s.len(), |i: int| (s[i].0, s[i].1.deep_view()))
}

impl<V: DeepView> DeepView for CIMap<V> {
    type V = Seq<(Text, V::V)>;

    open spec fn deep_view(&self) -> Seq<(Text, V::V)> {
        deep_entries(self@)
    }
}

impl<V> Default for CIMap<V> {
    fn default() -> (r: Self)
        ensures
            r@ == Seq::<(Text, V)>::empty(),
    {
        CIMap::new()
    }
}

impl<V> CIMap<V> {
    #[verifier::type_invariant]
    spec fn ordered(self) -> bool {
        sorted_keys(self@)
    }

    /// An empty map.
    pub fn new() -> (r: Self)
        ensures
            r@ == Seq::<(Text, V)>::empty(),
    {
        let r = CIMap { entries: Vec::new() };
        assert(r@ =~= Seq::<(Text, V)>::empty());
        r
    }

    pub fn len(&self) -> (r: usize)
        ensures
            r == self@.len(),
            sorted_keys(self@),
    {
        proof {
            use_type_invariant(self);
        }
        self.entries.len()
    }

    pub fn is_empty(&self) -> (r: bool)
        ensures
            r == (self@.len() == 0),
    {
        self.entries.len() == 0
    }

    /// The spelling of the key at position `i`.
    pub fn key_at(&self, i: usize) -> (r: &str)
        requires
            i < self@.len(),
        ensures
            r@ == self@[i as int].0,
    {
        self.entries[i].0.raw()
    }

    /// The value at position `i`.
    pub fn value_at(&self, i: usize) -> (r: &V)
        requires
            i < self@.len(),
        ensures
            *r == self@[i as int].1,
    {
        &self.entries[i].1
    }

    /// The position of the entry for a name.
    pub fn position(&self, name: &str) -> (r: Option<usize>)
        ensures
            match r {
                Some(k) => k < self@.len() && name_index(keys(self@), name@) == Some(k as int),
                None => name_index(keys(self@), name@) is None,
            },
    {
        let ghost names = keys(self@);
        let mut i: usize = 0;
        while i < self.entries.len()
            invariant
                i <= self.entries.len(),
                names == keys(self@),
                self@.len() == self.entries@.len(),
                forall|j: int| 0 <= j < i ==> !same_name(#[trigger] names[j], name@),
            decreases self.entries.len() - i,
        {
            assert(names[i as int] == self.entries@[i as int].0@);
            if names_equal(self.entries[i].0.raw(), name) {
                proof {
                    lemma_name_index_is(names, name@, i as int);
                }
                return Some(i);
            }
            i += 1;
        }
        proof {
            lemma_name_index(names, name@);
        }
        None
    }

    /// The value for a key.
    pub fn get(&self, key: &CIString) -> (r: Option<&V>)
        ensures
            match r {
                Some(v) => lookup(self@, key@) == Some(*v),
                None => lookup(self@, key@) is None,
            },
    {
        match self.position(key.raw()) {
            Some(k) => Some(&self.entries[k].1),
            None => None,
        }
    }

    pub fn contains_key(&self, key: &CIString) -> (r: bool)
        ensures
            r == has_name(keys(self@), key@),
    {
        proof {
            lemma_name_index(keys(self@), key@);
        }
        self.position(key.raw()).is_some()
    }

    /// Puts a value under a key. Where the name is in the map already, its value is
    /// replaced and returned, and the key keeps its spelling.
    pub fn insert(&mut self, key: CIString, value: V) -> (r: Option<V>)
        ensures
            final(self)@ == inserted(old(self)@, key@, value),
            match r {
                Some(v) => lookup(old(self)@, key@) == Some(v),
                None => lookup(old(self)@, key@) is None,
            },
            sorted_keys(final(self)@),
    {
        proof {
            use_type_invariant(&*self);
        }
        let ghost before = self@;
        let ghost low = lower_keys(before);
        let mut k: usize = 0;
        while k < self.entries.len() && name_less(self.entries[k].0.raw(), key.raw())
            invariant
                k <= self.entries.len(),
                before == self@,
                low == lower_keys(before),
                slot_from(low, lower(key@), 0) == slot_from(low, lower(key@), k as int),
            decreases self.entries.len() - k,
        {
            k += 1;
        }
        proof {
            lemma_inserted_sorted(before, key@, value);
            lemma_slot_lookup(before, key@);
        }
        let mut entries: Vec<(CIString, V)> = Vec::new();
        std::mem::swap(&mut entries, &mut self.entries);
        if k < entries.len() && names_equal(entries[k].0.raw(), key.raw()) {
            let old_entry = entries.remove(k);
            let ghost kept = old_entry.0@;
            entries.insert(k, (old_entry.0, value));
            let ghost now = Seq::new(entries@.len(), |i: int| (entries@[i].0@, entries@[i].1));
            assert(now =~= before.update(k as int, (kept, value)));
            self.entries = entries;
            assert(self@ =~= now);
            Some(old_entry.1)
        } else {
            let ghost name = key@;
            entries.insert(k, (key, value));
            let ghost now = Seq::new(entries@.len(), |i: int| (entries@[i].0@, entries@[i].1));
            assert(now =~= before.insert(k as int, (name, value)));
            self.entries = entries;
            assert(self@ =~= now);
            None
        }
    }
}

impl<V: Clone> Clone for CIMap<V> {
    fn clone(&self) -> (r: Self)
        ensures
            r@.len() == self@.len(),
            forall|i: int|
                0 <= i < self@.len() ==> (#[trigger] r@[i]).0 == self@[i].0 && cloned::<V>(
                    self@[i].1,
                    r@[i].1,
                ),
    {
        proof {
            use_type_invariant(self);
        }
        let mut entries: Vec<(CIString, V)> = Vec::new();
        let mut i: usize = 0;
        while i < self.entries.len()
            invariant
                i <= self.entries.len(),
                entries.len() == i,
                forall|j: int|
                    0 <= j < i ==> (#[trigger] entries@[j]).0@ == self.entries@[j].0@ && cloned::<V>(
                        self.entries@[j].1,
                        entries@[j].1,
                    ),
            decreases self.entries.len() - i,
        {
            entries.push((self.entries[i].0.clone(), self.entries[i].1.clone()));
            i += 1;
        }
        let ghost now = Seq::new(entries@.len(), |i: int| (entries@[i].0@, entries@[i].1));
        assert(lower_keys(now) =~= lower_keys(self@));
        let r = CIMap { entries };
        assert(r@ =~= now);
        r
    }
}

/// Inserting keeps the keys in order.
pub proof fn lemma_inserted_sorted<M>(s: Seq<(Text, M)>, key: Text, value: M)
    requires
        sorted_keys(s),
    ensures
        sorted_keys(inserted(s, key, value)),
{
    let low = lower_keys(s);
    let x = lower(key);
    let k = slot_from(low, x, 0);
    lemma_slot_from(low, x, 0);
    let r = inserted(s, key, value);
    if k < s.len() && same_name(s[k].0, key) {
        assert(lower_keys(r) =~= low);
    } else {
        assert(lower_keys(r) =~= low.insert(k, x));
        crate::lists::lemma_with_text(low, x);
        if k < s.len() {
            assert(low[k] != x);
        }
        assert(crate::lists::with_text(low, x) == low.insert(k, x));
    }
}

/// In a sorted map a name stands at its slot or nowhere.
proof fn lemma_slot_lookup<M>(s: Seq<(Text, M)>, name: Text)
    requires
        sorted_keys(s),
    ensures
        ({
            let k = slot_from(lower_keys(s), lower(name), 0);
            &&& 0 <= k <= s.len()
            &&& if k < s.len() && same_name(s[k].0, name) {
                lookup(s, name) == Some(s[k].1)
            } else {
                lookup(s, name) is None
            }
        }),
{
    let low = lower_keys(s);
    let k = slot_from(low, lower(name), 0);
    lemma_slot_from(low, lower(name), 0);
    lemma_name_index(keys(s), name);
    match name_index(keys(s), name) {
        Some(m) => {
            assert(low[m] == lower(name));
            if m < k {
                assert(less(low[m], lower(name)));
                lemma_less_total(low[m], lower(name));
            } else if m > k {
                assert(less(low[k], low[m]));
            }
        },
        None => {
            if k < s.len() && same_name(s[k].0, name) {
                assert(same_name(keys(s)[k], name));
            }
        },
    }
}

/// A look-up gives back what was put under the name last, and an insertion
/// leaves every other name as it was.
pub proof fn lemma_lookup_inserted<M>(s: Seq<(Text, M)>, key: Text, value: M, name: Text)
    requires
        sorted_keys(s),
    ensures
        lookup(inserted(s, key, value), name) == if same_name(name, key) {
            Some(value)
        } else {
            lookup(s, name)
        },
{
    let r = inserted(s, key, value);
    lemma_inserted_sorted(s, key, value);
    let low = lower_keys(s);
    let k = slot_from(low, lower(key), 0);
    lemma_slot_from(low, lower(key), 0);
    let names = keys(r);
    assert(same_name(r[k].0, key));
    assert(r[k].1 == value);
    if same_name(name, key) {
        lemma_distinct(r, name, k);
    } else {
        lemma_name_index(keys(s), name);
        match name_index(keys(s), name) {
            Some(m) => {
                assert(keys(s)[m] == s[m].0);
                let there: int = if k < s.len() && same_name(s[k].0, key) {
                    m
                } else if m < k {
                    m
                } else {
                    m + 1
                };
                assert(r[there] == s[m]);
                lemma_distinct(r, name, there);
            },
            None => {
                lemma_name_index(names, name);
                match name_index(names, name) {
                    Some(m) => {
                        assert(names[m] == r[m].0);
                        if m != k {
                            let from: int = if k < s.len() && same_name(s[k].0, key) {
                                m
                            } else if m < k {
                                m
                            } else {
                                m - 1
                            };
                            assert(r[m] == s[from]);
                            assert(same_name(keys(s)[from], name));
                        } else {
                            assert(same_name(r[k].0, name));
                        }
                    },
                    None => {},
                }
            },
        }
    }
}

/// In a sorted map an entry for a name is the only one.
pub proof fn lemma_distinct<M>(s: Seq<(Text, M)>, name: Text, k: int)
    requires
        sorted_keys(s),
        0 <= k < s.len(),
        same_name(s[k].0, name),
    ensures
        name_index(keys(s), name) == Some(k),
        lookup(s, name) == Some(s[k].1),
{
    let low = lower_keys(s);
    assert forall|j: int| 0 <= j < k implies !same_name(#[trigger] keys(s)[j], name) by {
        assert(less(low[j], low[k]));
        lemma_less_total(low[j], low[k]);
    }
    lemma_name_index_is(keys(s), name, k);
}

/// A look-up does not depend on the case of the name.
pub proof fn lemma_lookup_case<M>(s: Seq<(Text, M)>, a: Text, b: Text)
    requires
        same_name(a, b),
    ensures
        lookup(s, a) == lookup(s, b),
{
    lemma_name_index_case(keys(s), a, b);
}

// ---------------------------------------------------------------------------
// Columns and tables
// ---------------------------------------------------------------------------

/// A column as `PRAGMA table_xinfo` and the DDL of its table describe it.
#[derive(Debug, PartialEq, Eq)]
pub struct ColumnInfo {
    pub name: String,
    pub col_type: String,
    pub notnull: bool,
    pub default_value: Option<String>,
    pub pk: i64,
    /// The COLLATE clause, such as "NOCASE". None where there is none.
    pub collation: Option<String>,
    /// Whether this is a GENERATED ALWAYS AS column.
    pub is_generated: bool,
    /// Whether this column is hidden.
    pub is_hidden: bool,
}

#[verifier::ext_equal]
pub struct ColumnModel {
    pub name: Text,
    pub col_type: Text,
    pub notnull: bool,
    pub default_value: Option<Text>,
    pub pk: i64,
    pub collation: Option<Text>,
    pub is_generated: bool,
    pub is_hidden: bool,
}

impl DeepView for ColumnInfo {
    type V = ColumnModel;

    open spec fn deep_view(&self) -> ColumnModel {
        ColumnModel {
            name: self.name@,
            col_type: self.col_type@,
            notnull: self.notnull,
            default_value: self.default_value.deep_view(),
            pk: self.pk,
            collation: self.collation.deep_view(),
            is_generated: self.is_generated,
            is_hidden: self.is_hidden,
        }
    }
}

impl Clone for ColumnInfo {
    fn clone(&self) -> (r: Self)
        ensures
            r.deep_view() == self.deep_view(),
    {
        ColumnInfo {
            name: self.name.clone(),
            col_type: self.col_type.clone(),
            notnull: self.notnull,
            default_value: clone_optional(&self.default_value),
            pk: self.pk,
            collation: clone_optional(&self.collation),
            is_generated: self.is_generated,
            is_hidden: self.is_hidden,
        }
    }
}

impl ColumnModel {
    /// Whether an INSERT statement can name the column.
    pub open spec fn insertable(self) -> bool {
        !self.is_generated && !self.is_hidden
    }
}

impl ColumnInfo {
    /// Whether an INSERT statement can name the column: generated and hidden columns
    /// take no values.
    pub fn is_insertable(&self) -> (r: bool)
        ensures
            r == self.deep_view().insertable(),
    {
        !self.is_generated && !self.is_hidden
    }
}

/// A foreign key with its columns and actions.
#[derive(Debug, PartialEq, Eq)]
pub struct ForeignKey {
    pub from_columns: Vec<String>,
    pub to_table: String,
    pub to_columns: Vec<String>,
    pub on_delete: String,
    pub on_update: String,
}

#[verifier::ext_equal]
pub struct ForeignKeyModel {
    pub from_columns: Seq<Text>,
    pub to_table: Text,
    pub to_columns: Seq<Text>,
    pub on_delete: Text,
    pub on_update: Text,
}

impl DeepView for ForeignKey {
    type V = ForeignKeyModel;

    open spec fn deep_view(&self) -> ForeignKeyModel {
        ForeignKeyModel {
            from_columns: self.from_columns.deep_view(),
            to_table: self.to_table@,
            to_columns: self.to_columns.deep_view(),
            on_delete: self.on_delete@,
            on_update: self.on_update@,
        }
    }
}

impl Clone for ForeignKey {
    fn clone(&self) -> (r: Self)
        ensures
            r.deep_view() == self.deep_view(),
    {
        let r = ForeignKey {
            from_columns: self.from_columns.clone(),
            to_table: self.to_table.clone(),
            to_columns: self.to_columns.clone(),
            on_delete: self.on_delete.clone(),
            on_update: self.on_update.clone(),
        };
        assert(r.from_columns.deep_view() =~= self.from_columns.deep_view());
        assert(r.to_columns.deep_view() =~= self.to_columns.deep_view());
        r
    }
}

/// A table: its DDL and what the DDL says.
#[derive(Debug, PartialEq, Eq)]
pub struct TableInfo {
    pub name: String,
    pub sql: String,
    pub columns: Vec<ColumnInfo>,
    pub foreign_keys: Vec<ForeignKey>,
    /// The expressions of the CHECK constraints in normal form, sorted.
    pub check_constraints: Vec<String>,
    pub is_strict: bool,
    pub is_without_rowid: bool,
    pub has_autoincrement: bool,
}

#[verifier::ext_equal]
pub struct TableModel {
    pub name: Text,
    pub sql: Text,
    pub columns: Seq<ColumnModel>,
    pub foreign_keys: Seq<ForeignKeyModel>,
    pub check_constraints: Seq<Text>,
    pub is_strict: bool,
    pub is_without_rowid: bool,
    pub has_autoincrement: bool,
}

impl DeepView for TableInfo {
    type V = TableModel;

    open spec fn deep_view(&self) -> TableModel {
        TableModel {
            name: self.name@,
            sql: self.sql@,
            columns: self.columns.deep_view(),
            foreign_keys: self.foreign_keys.deep_view(),
            check_constraints: self.check_constraints.deep_view(),
            is_strict: self.is_strict,
            is_without_rowid: self.is_without_rowid,
            has_autoincrement: self.has_autoincrement,
        }
    }
}

impl Clone for TableInfo {
    fn clone(&self) -> (r: Self)
        ensures
            r.deep_view() == self.deep_view(),
    {
        let r = TableInfo {
            name: self.name.clone(),
            sql: self.sql.clone(),
            columns: self.columns.clone(),
            foreign_keys: self.foreign_keys.clone(),
            check_constraints: self.check_constraints.clone(),
            is_strict: self.is_strict,
            is_without_rowid: self.is_without_rowid,
            has_autoincrement: self.has_autoincrement,
        };
        assert(r.columns.deep_view() =~= self.columns.deep_view());
        assert(r.foreign_keys.deep_view() =~= self.foreign_keys.deep_view());
        assert(r.check_constraints.deep_view() =~= self.check_constraints.deep_view());
        r
    }
}

/// The names of the columns, in order.
pub open spec fn column_names(columns: Seq<ColumnModel>) -> Seq<Text> {
    Seq::new(columns.len(), |i: int| columns[i].name)
}

/// The tables that foreign keys point to, in the order of the keys.
pub open spec fn fk_targets(keys: Seq<ForeignKeyModel>) -> Seq<Text> {
    Seq::new(keys.len(), |i: int| keys[i].to_table)
}

/// The position of the first column with the name.
pub fn find_column(columns: &Vec<ColumnInfo>, name: &str) -> (r: Option<usize>)
    ensures
        match r {
            Some(k) => k < columns.len() && name_index(
                column_names(columns.deep_view()),
                name@,
            ) == Some(k as int),
            None => name_index(column_names(columns.deep_view()), name@) is None,
        },
        r.is_some() == has_name(column_names(columns.deep_view()), name@),
{
    let ghost names = column_names(columns.deep_view());
    let mut i: usize = 0;
    while i < columns.len()
        invariant
            i <= columns.len(),
            names == column_names(columns.deep_view()),
            forall|j: int| 0 <= j < i ==> !same_name(#[trigger] names[j], name@),
        decreases columns.len() - i,
    {
        assert(names[i as int] == columns@[i as int].deep_view().name);
        if names_equal(columns[i].name.as_str(), name) {
            proof {
                lemma_name_index_is(names, name@, i as int);
            }
            return Some(i);
        }
        i += 1;
    }
    proof {
        lemma_name_index(names, name@);
    }
    None
}

impl TableInfo {
    /// The tables that the foreign keys of this table point to, sorted, each once.
    pub fn referenced_tables(&self) -> (r: Vec<String>)
        ensures
            r.deep_view() == sorted_set(fk_targets(self.deep_view().foreign_keys)),
    {
        let mut names: Vec<String> = Vec::new();
        let mut i: usize = 0;
        while i < self.foreign_keys.len()
            invariant
                i <= self.foreign_keys.len(),
                names.len() == i,
                forall|j: int|
                    0 <= j < i ==> (#[trigger] names@[j])@ == self.foreign_keys@[j].to_table@,
            decreases self.foreign_keys.len() - i,
        {
            names.push(self.foreign_keys[i].to_table.clone());
            i += 1;
        }
        assert(names.deep_view() =~= fk_targets(self.deep_view().foreign_keys));
        sort_texts(&names)
    }
}

// ---------------------------------------------------------------------------
// Indexes, views, triggers
// ---------------------------------------------------------------------------

/// An index.
#[derive(Debug, PartialEq, Eq)]
pub struct IndexInfo {
    pub name: String,
    pub table_name: String,
    pub sql: String,
    pub is_fts: bool,
    pub is_unique: bool,
    pub columns: Vec<String>,
}

#[verifier::ext_equal]
pub struct IndexModel {
    pub name: Text,
    pub table_name: Text,
    pub sql: Text,
    pub is_fts: bool,
    pub is_unique: bool,
    pub columns: Seq<Text>,
}

impl DeepView for IndexInfo {
    type V = IndexModel;

    open spec fn deep_view(&self) -> IndexModel {
        IndexModel {
            name: self.name@,
            table_name: self.table_name@,
            sql: self.sql@,
            is_fts: self.is_fts,
            is_unique: self.is_unique,
            columns: self.columns.deep_view(),
        }
    }
}

impl Clone for IndexInfo {
    fn clone(&self) -> (r: Self)
        ensures
            r.deep_view() == self.deep_view(),
    {
        let r = IndexInfo {
            name: self.name.clone(),
            table_name: self.table_name.clone(),
            sql: self.sql.clone(),
            is_fts: self.is_fts,
            is_unique: self.is_unique,
            columns: self.columns.clone(),
        };
        assert(r.columns.deep_view() =~= self.columns.deep_view());
        r
    }
}

/// A view.
#[derive(Debug, PartialEq, Eq)]
pub struct ViewInfo {
    pub name: String,
    pub sql: String,
    pub is_materialized: bool,
}

#[verifier::ext_equal]
pub struct ViewModel {
    pub name: Text,
    pub sql: Text,
    pub is_materialized: bool,
}

impl DeepView for ViewInfo {
    type V = ViewModel;

    open spec fn deep_view(&self) -> ViewModel {
        ViewModel { name: self.name@, sql: self.sql@, is_materialized: self.is_materialized }
    }
}

impl Clone for ViewInfo {
    fn clone(&self) -> (r: Self)
        ensures
            r.deep_view() == self.deep_view(),
    {
        let r = ViewInfo {
            name: self.name.clone(),
            sql: self.sql.clone(),
            is_materialized: self.is_materialized,
        };
        r
    }
}

/// A trigger with the table it is attached to.
#[derive(Debug, PartialEq, Eq)]
pub struct TriggerInfo {
    pub name: String,
    pub table_name: String,
    pub sql: String,
}

#[verifier::ext_equal]
pub struct TriggerModel {
    pub name: Text,
    pub table_name: Text,
    pub sql: Text,
}

impl DeepView for TriggerInfo {
    type V = TriggerModel;

    open spec fn deep_view(&self) -> TriggerModel {
        TriggerModel { name: self.name@, table_name: self.table_name@, sql: self.sql@ }
    }
}

impl Clone for TriggerInfo {
    fn clone(&self) -> (r: Self)
        ensures
            r.deep_view() == self.deep_view(),
    {
        let r = TriggerInfo {
            name: self.name.clone(),
            table_name: self.table_name.clone(),
            sql: self.sql.clone(),
        };
        r
    }
}

// ---------------------------------------------------------------------------
// Statements
// ---------------------------------------------------------------------------

/// Something that a statement made.
pub trait Stated {
    spec fn statement(&self) -> Text;

    fn statement_text(&self) -> (r: &str)
        ensures
            r@ == self.statement(),
    ;
}

impl Stated for TableInfo {
    open spec fn statement(&self) -> Text {
        self.sql@
    }

    fn statement_text(&self) -> (r: &str) {
        self.sql.as_str()
    }
}

impl Stated for IndexInfo {
    open spec fn statement(&self) -> Text {
        self.sql@
    }

    fn statement_text(&self) -> (r: &str) {
        self.sql.as_str()
    }
}

impl Stated for ViewInfo {
    open spec fn statement(&self) -> Text {
        self.sql@
    }

    fn statement_text(&self) -> (r: &str) {
        self.sql.as_str()
    }
}

impl Stated for TriggerInfo {
    open spec fn statement(&self) -> Text {
        self.sql@
    }

    fn statement_text(&self) -> (r: &str) {
        self.sql.as_str()
    }
}

/// The names and statements of a map.
pub open spec fn texts_of<V: Stated>(s: Seq<(Text, V)>) -> Seq<(Text, Text)> {
    Seq::new(s.len(), |i: int| (s[i].0, s[i].1.statement()))
}

/// The names and statements of tables.
pub open spec fn table_texts(tables: Seq<(Text, TableModel)>) -> Seq<(Text, Text)> {
    Seq::new(tables.len(), |i: int| (tables[i].0, tables[i].1.sql))
}

/// The names and statements of indexes.
pub open spec fn index_texts(indexes: Seq<(Text, IndexModel)>) -> Seq<(Text, Text)> {
    Seq::new(indexes.len(), |i: int| (indexes[i].0, indexes[i].1.sql))
}

/// The names and statements of views.
pub open spec fn view_texts(views: Seq<(Text, ViewModel)>) -> Seq<(Text, Text)> {
    Seq::new(views.len(), |i: int| (views[i].0, views[i].1.sql))
}

/// The names and statements of triggers.
pub open spec fn trigger_texts(triggers: Seq<(Text, TriggerModel)>) -> Seq<(Text, Text)> {
    Seq::new(triggers.len(), |i: int| (triggers[i].0, triggers[i].1.sql))
}

// ---------------------------------------------------------------------------
// Snapshots
// ---------------------------------------------------------------------------

/// A whole schema.
#[derive(Debug, PartialEq, Eq)]
pub struct SchemaSnapshot {
    pub tables: CIMap<TableInfo>,
    pub indexes: CIMap<IndexInfo>,
    pub views: CIMap<ViewInfo>,
    pub triggers: CIMap<TriggerInfo>,
}

#[verifier::ext_equal]
pub struct SnapshotModel {
    pub tables: Seq<(Text, TableModel)>,
    pub indexes: Seq<(Text, IndexModel)>,
    pub views: Seq<(Text, ViewModel)>,
    pub triggers: Seq<(Text, TriggerModel)>,
}

impl DeepView for SchemaSnapshot {
    type V = SnapshotModel;

    open spec fn deep_view(&self) -> SnapshotModel {
        SnapshotModel {
            tables: self.tables.deep_view(),
            indexes: self.indexes.deep_view(),
            views: self.views.deep_view(),
            triggers: self.triggers.deep_view(),
        }
    }
}

impl Clone for SchemaSnapshot {
    fn clone(&self) -> (r: Self)
        ensures
            r.deep_view() == self.deep_view(),
    {
        let r = SchemaSnapshot {
            tables: self.tables.clone(),
            indexes: self.indexes.clone(),
            views: self.views.clone(),
            triggers: self.triggers.clone(),
        };
        assert(r.tables.deep_view() =~= self.tables.deep_view());
        assert(r.indexes.deep_view() =~= self.indexes.deep_view());
        assert(r.views.deep_view() =~= self.views.deep_view());
        assert(r.triggers.deep_view() =~= self.triggers.deep_view());
        r
    }
}

impl SnapshotModel {
    /// The keys of each map are in order, so that no name occurs twice.
    pub open spec fn sorted(self) -> bool {
        &&& sorted_keys(self.tables)
        &&& sorted_keys(self.indexes)
        &&& sorted_keys(self.views)
        &&& sorted_keys(self.triggers)
    }
}

/// The deep view of a map has its keys.
pub proof fn lemma_deep_keys<V: DeepView>(s: Seq<(Text, V)>)
    ensures
        keys(deep_entries(s)) == keys(s),
        lower_keys(deep_entries(s)) == lower_keys(s),
{
    assert(keys(deep_entries(s)) =~= keys(s));
    assert(lower_keys(deep_entries(s)) =~= lower_keys(s));
}

/// Inserting commutes with the deep view.
pub proof fn lemma_deep_inserted<V: DeepView>(s: Seq<(Text, V)>, key: Text, value: V)
    ensures
        deep_entries(inserted(s, key, value)) == inserted(deep_entries(s), key, value.deep_view()),
{
    lemma_deep_keys(s);
    lemma_slot_from(lower_keys(s), lower(key), 0);
    assert(deep_entries(inserted(s, key, value)) =~= inserted(
        deep_entries(s),
        key,
        value.deep_view(),
    ));
}

impl SchemaSnapshot {
    /// A schema with nothing in it.
    pub fn empty() -> (r: Self)
        ensures
            r.deep_view() == (SnapshotModel {
                tables: Seq::empty(),
                indexes: Seq::empty(),
                views: Seq::empty(),
                triggers: Seq::empty(),
            }),
    {
        let r = SchemaSnapshot {
            tables: CIMap::new(),
            indexes: CIMap::new(),
            views: CIMap::new(),
            triggers: CIMap::new(),
        };
        assert(r.deep_view().tables =~= Seq::empty());
        assert(r.deep_view().indexes =~= Seq::empty());
        assert(r.deep_view().views =~= Seq::empty());
        assert(r.deep_view().triggers =~= Seq::empty());
        r
    }

    /// The table with the name, whatever its case.
    pub fn get_table(&self, name: &str) -> (r: Option<&TableInfo>)
        ensures
            match r {
                Some(x) => lookup(self.deep_view().tables, name@) == Some(x.deep_view()),
                None => lookup(self.deep_view().tables, name@) is None,
            },
    {
        proof {
            lemma_deep_keys(self.tables@);
            lemma_name_index(keys(self.tables@), name@);
        }
        match self.tables.position(name) {
            Some(k) => Some(self.tables.value_at(k)),
            None => None,
        }
    }

    /// The index with the name, whatever its case.
    pub fn get_index(&self, name: &str) -> (r: Option<&IndexInfo>)
        ensures
            match r {
                Some(x) => lookup(self.deep_view().indexes, name@) == Some(x.deep_view()),
                None => lookup(self.deep_view().indexes, name@) is None,
            },
    {
        proof {
            lemma_deep_keys(self.indexes@);
            lemma_name_index(keys(self.indexes@), name@);
        }
        match self.indexes.position(name) {
            Some(k) => Some(self.indexes.value_at(k)),
            None => None,
        }
    }

    /// The view with the name, whatever its case.
    pub fn get_view(&self, name: &str) -> (r: Option<&ViewInfo>)
        ensures
            match r {
                Some(x) => lookup(self.deep_view().views, name@) == Some(x.deep_view()),
                None => lookup(self.deep_view().views, name@) is None,
            },
    {
        proof {
            lemma_deep_keys(self.views@);
            lemma_name_index(keys(self.views@), name@);
        }
        match self.views.position(name) {
            Some(k) => Some(self.views.value_at(k)),
            None => None,
        }
    }

    /// The trigger with the name, whatever its case.
    pub fn get_trigger(&self, name: &str) -> (r: Option<&TriggerInfo>)
        ensures
            match r {
                Some(x) => lookup(self.deep_view().triggers, name@) == Some(x.deep_view()),
                None => lookup(self.deep_view().triggers, name@) is None,
            },
    {
        proof {
            lemma_deep_keys(self.triggers@);
            lemma_name_index(keys(self.triggers@), name@);
        }
        match self.triggers.position(name) {
            Some(k) => Some(self.triggers.value_at(k)),
            None => None,
        }
    }

    pub fn has_table(&self, name: &str) -> (r: bool)
        ensures
            r == has_name(keys(self.deep_view().tables), name@),
    {
        proof {
            lemma_deep_keys(self.tables@);
            lemma_name_index(keys(self.tables@), name@);
        }
        self.tables.position(name).is_some()
    }

    pub fn has_index(&self, name: &str) -> (r: bool)
        ensures
            r == has_name(keys(self.deep_view().indexes), name@),
    {
        proof {
            lemma_deep_keys(self.indexes@);
            lemma_name_index(keys(self.indexes@), name@);
        }
        self.indexes.position(name).is_some()
    }

    pub fn has_view(&self, name: &str) -> (r: bool)
        ensures
            r == has_name(keys(self.deep_view().views), name@),
    {
        proof {
            lemma_deep_keys(self.views@);
            lemma_name_index(keys(self.views@), name@);
        }
        self.views.position(name).is_some()
    }

    pub fn has_trigger(&self, name: &str) -> (r: bool)
        ensures
            r == has_name(keys(self.deep_view().triggers), name@),
    {
        proof {
            lemma_deep_keys(self.triggers@);
            lemma_name_index(keys(self.triggers@), name@);
        }
        self.triggers.position(name).is_some()
    }
}

// ---------------------------------------------------------------------------
// Capabilities
// ---------------------------------------------------------------------------

/// What the connected database can do.
#[derive(Debug, Clone, Copy, PartialEq, Eq)]
pub struct Capabilities {
    pub database_version: (u32, u32, u32),
    /// From version 3.35.0 on: ALTER TABLE DROP COLUMN.
    pub supports_drop_column: bool,
    /// From version 3.25.0 on: ALTER TABLE RENAME COLUMN.
    pub supports_rename_column: bool,
    /// Whether the full-text search module is there.
    pub has_fts_module: bool,
    /// Whether vector column types are there.
    pub has_vector_module: bool,
    /// Whether MATERIALIZED VIEW is supported.
    pub has_materialized_views: bool,
    /// Whether WITHOUT ROWID tables are supported.
    pub supports_without_rowid: bool,
    /// Whether GENERATED ALWAYS AS columns are supported.
    pub supports_generated_columns: bool,
    /// Whether triggers are supported.
    pub has_triggers: bool,
}

impl Default for Capabilities {
    fn default() -> (r: Self)
        ensures
            r == (Capabilities {
                database_version: (3, 45, 0),
                supports_drop_column: true,
                supports_rename_column: true,
                has_fts_module: false,
                has_vector_module: false,
                has_materialized_views: false,
                supports_without_rowid: false,
                supports_generated_columns: false,
                has_triggers: false,
            }),
    {
        Capabilities {
            database_version: (3, 45, 0),
            supports_drop_column: true,
            supports_rename_column: true,
            has_fts_module: false,
            has_vector_module: false,
            has_materialized_views: false,
            supports_without_rowid: false,
            supports_generated_columns: false,
            has_triggers: false,
        }
    }
}

} // verus!
