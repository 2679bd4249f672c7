//! Finding out which columns got a new name.
//!
//! A table of the database lacks columns of the wanted table (`add`) and has
//! columns that the wanted table lacks (`drop`). A pair of one of each is a rename
//! where a hint says so, or where the two stand at the same place and neither has
//! another partner. In both cases the columns must be alike but for their names.

use vstd::prelude::*;

use crate::lists::find_name;
#[allow(unused_imports)]
use crate::lists::{gather, lemma_gather_step, lemma_name_index, lemma_name_index_is, name_index};
#[allow(unused_imports)]
use crate::normalize::normal;
use crate::normalize::same_sql;
#[allow(unused_imports)]
use crate::options::HintModel;
use crate::options::ColumnRenameHint;
use crate::schema::{find_column, ColumnInfo};
#[allow(unused_imports)]
use crate::schema::{column_names, ColumnModel};
#[allow(unused_imports)]
use crate::text::same_name;
use crate::text::{names_equal, str_equal, Text};

verus! {

// ---------------------------------------------------------------------------
// Columns that are alike
// ---------------------------------------------------------------------------

/// Whether two DEFAULT expressions have the same normal form, or both are missing.
pub open spec fn same_default(a: Option<Text>, b: Option<Text>) -> bool {
    match (a, b) {
        (Some(x), Some(y)) => normal(x) == normal(y),
        (None, None) => true,
        _ => false,
    }
}

/// Whether a column can become another one by a new name alone.
pub open spec fn renamable(old_col: ColumnModel, new_col: ColumnModel) -> bool {
    &&& old_col.insertable()
    &&& new_col.insertable()
    &&& same_name(old_col.col_type, new_col.col_type)
    &&& old_col.notnull == new_col.notnull
    &&& old_col.pk == new_col.pk
    &&& old_col.collation == new_col.collation
    &&& same_default(old_col.default_value, new_col.default_value)
}

pub open spec fn if_visible() -> spec_fn(ColumnModel) -> Seq<ColumnModel> {
    |c: ColumnModel|
        if c.is_hidden {
            Seq::empty()
        } else {
            seq![c]
        }
}

/// The columns that are not hidden.
pub open spec fn visible(columns: Seq<ColumnModel>) -> Seq<ColumnModel> {
    gather(columns, if_visible())
}

/// The place of a column among those that are not hidden.
pub open spec fn column_place(columns: Seq<ColumnModel>, name: Text) -> Option<int> {
    name_index(column_names(visible(columns)), name)
}

/// Whether two column types are equal, up to ASCII case.
pub fn types_match(desired: &str, actual: &str) -> (r: bool)
    ensures
        r == same_name(desired@, actual@),
{
    names_equal(desired, actual)
}

/// Whether two DEFAULT expressions have the same normal form, or both are missing.
pub fn defaults_match(desired: &Option<String>, actual: &Option<String>) -> (r: bool)
    ensures
        r == same_default(desired.deep_view(), actual.deep_view()),
{
    match (desired, actual) {
        (Some(d), Some(a)) => same_sql(d.as_str(), a.as_str()),
        (None, None) => true,
        _ => false,
    }
}

/// Whether two optional texts are equal.
pub fn optional_equal(a: &Option<String>, b: &Option<String>) -> (r: bool)
    ensures
        r == (a.deep_view() == b.deep_view()),
{
    match (a, b) {
        (Some(x), Some(y)) => str_equal(x.as_str(), y.as_str()),
        (None, None) => true,
        _ => false,
    }
}

/// Whether a column can become another one by a new name alone.
pub fn columns_compatible_for_rename(old_col: &ColumnInfo, new_col: &ColumnInfo) -> (r: bool)
    ensures
        r == renamable(old_col.deep_view(), new_col.deep_view()),
{
    old_col.is_insertable() && new_col.is_insertable() && types_match(
        old_col.col_type.as_str(),
        new_col.col_type.as_str(),
    ) && old_col.notnull == new_col.notnull && old_col.pk == new_col.pk && optional_equal(
        &old_col.collation,
        &new_col.collation,
    ) && defaults_match(&old_col.default_value, &new_col.default_value)
}

/// The place of the named column among those that are not hidden.
pub fn column_position(columns: &Vec<ColumnInfo>, name: &str) -> (r: Option<usize>)
    ensures
        match r {
            Some(k) => column_place(columns.deep_view(), name@) == Some(k as int),
            None => column_place(columns.deep_view(), name@) is None,
        },
{
    let ghost all = columns.deep_view();
    let ghost names = column_names(visible(all));
    let mut i: usize = 0;
    let mut place: usize = 0;
    assert(all.take(0) =~= Seq::empty());
    while i < columns.len()
        invariant
            i <= columns.len(),
            place <= i,
            all == columns.deep_view(),
            names == column_names(visible(all)),
            visible(all.take(i as int)).len() == place,
            forall|j: int|
                0 <= j < place ==> !same_name(
                    (#[trigger] visible(all.take(i as int))[j]).name,
                    name@,
                ),
        decreases columns.len() - i,
    {
        let ghost seen = visible(all.take(i as int));
        proof {
            lemma_gather_step(all, i as int, if_visible());
        }
        assert(all[i as int] == columns@[i as int].deep_view());
        if !columns[i].is_hidden {
            let ghost now = visible(all.take(i + 1));
            assert(now =~= seen.push(all[i as int]));
            if names_equal(columns[i].name.as_str(), name) {
                proof {
                    lemma_visible_prefix(all, i + 1);
                    assert(names[place as int] == now[place as int].name);
                    assert forall|j: int| 0 <= j < place implies !same_name(
                        #[trigger] names[j],
                        name@,
                    ) by {
                        assert(names[j] == now[j].name);
                        assert(now[j] == seen[j]);
                    }
                    lemma_name_index_is(names, name@, place as int);
                }
                return Some(place);
            }
            place += 1;
        } else {
            assert(visible(all.take(i + 1)) =~= seen);
        }
        i += 1;
    }
    proof {
        assert(all.take(i as int) =~= all);
        assert forall|j: int| 0 <= j < names.len() implies !same_name(
            #[trigger] names[j],
            name@,
        ) by {
            assert(names[j] == visible(all)[j].name);
        }
        lemma_name_index(names, name@);
    }
    None
}

/// The visible columns of a front part are a front part of the visible columns.
pub proof fn lemma_visible_prefix(columns: Seq<ColumnModel>, k: int)
    requires
        0 <= k <= columns.len(),
    ensures
        visible(columns.take(k)).len() <= visible(columns).len(),
        forall|j: int|
            0 <= j < visible(columns.take(k)).len() ==> #[trigger] visible(columns.take(k))[j]
                == visible(columns)[j],
    decreases columns.len() - k,
{
    if k < columns.len() {
        lemma_visible_prefix(columns, k + 1);
        lemma_gather_step(columns, k, if_visible());
        assert forall|j: int| 0 <= j < visible(columns.take(k)).len() implies #[trigger] visible(
            columns.take(k),
        )[j] == visible(columns)[j] by {
            assert(visible(columns.take(k + 1))[j] == visible(columns.take(k))[j]);
        }
    } else {
        assert(columns.take(k) =~= columns);
    }
}

// ---------------------------------------------------------------------------
// Hints
// ---------------------------------------------------------------------------

/// A rename that a hint asks for: the positions in the two lists, and the names.
#[derive(Debug)]
pub struct HintedPair {
    pub drop_at: usize,
    pub add_at: usize,
    pub from: String,
    pub to: String,
}

#[verifier::ext_equal]
pub struct PairModel {
    pub drop_at: int,
    pub add_at: int,
    pub from: Text,
    pub to: Text,
}

impl DeepView for HintedPair {
    type V = PairModel;

    open spec fn deep_view(&self) -> PairModel {
        PairModel {
            drop_at: self.drop_at as int,
            add_at: self.add_at as int,
            from: self.from@,
            to: self.to@,
        }
    }
}

/// The rename that a hint asks for, where it fits.
pub open spec fn hinted(
    table: Text,
    desired: Seq<ColumnModel>,
    actual: Seq<ColumnModel>,
    add: Seq<ColumnModel>,
    drop: Seq<Text>,
) -> spec_fn(HintModel) -> Seq<PairModel> {
    |h: HintModel|
        {
            let d = name_index(drop, h.from);
            let a = name_index(column_names(add), h.to);
            if same_name(h.table, table) && d is Some && a is Some {
                let from = drop[d->0];
                let to = add[a->0].name;
                let i = name_index(column_names(actual), from);
                let j = name_index(column_names(desired), to);
                if i is Some && j is Some && renamable(actual[i->0], desired[j->0]) {
                    seq![PairModel { drop_at: d->0, add_at: a->0, from, to }]
                } else {
                    Seq::empty()
                }
            } else {
                Seq::empty()
            }
        }
}

/// The first position whose pair stands before `d` in the list of dropped columns.
pub open spec fn pair_slot(s: Seq<PairModel>, d: int, i: int) -> int
    decreases s.len() - i,
{
    if 0 <= i < s.len() && s[i].drop_at >= d {
        pair_slot(s, d, i + 1)
    } else {
        i
    }
}

/// The pairs from the back of the list of dropped columns to its front. Pairs for
/// the same column keep their order.
pub open spec fn from_the_back(s: Seq<PairModel>) -> Seq<PairModel>
    decreases s.len(),
{
    if s.len() == 0 {
        Seq::empty()
    } else {
        let t = from_the_back(s.drop_last());
        t.insert(pair_slot(t, s.last().drop_at, 0), s.last())
    }
}

/// The pairs that the hints ask for, in the order in which they are carried out.
pub open spec fn hinted_pairs(
    table: Text,
    desired: Seq<ColumnModel>,
    actual: Seq<ColumnModel>,
    add: Seq<ColumnModel>,
    drop: Seq<Text>,
    hints: Seq<HintModel>,
) -> Seq<PairModel> {
    from_the_back(gather(hints, hinted(table, desired, actual, add, drop)))
}

/// The list after the removal of one position after the other. Where two pairs are for
/// the same column, the second removal takes what has moved up to its place.
pub open spec fn after_removals(s: Seq<Text>, pairs: Seq<PairModel>) -> Seq<Text>
    decreases pairs.len(),
{
    if pairs.len() == 0 {
        s
    } else {
        after_removals(s, pairs.drop_last()).remove(pairs.last().drop_at)
    }
}

/// Whether each removal finds its position in what the ones before it have left of
/// a list of `n`. Hints for different columns always fit; two hints for the same
/// column may not.
pub open spec fn removals_fit(n: int, pairs: Seq<PairModel>) -> bool {
    forall|k: int| 0 <= k < pairs.len() ==> 0 <= (#[trigger] pairs[k]).drop_at < n - k
}

/// Whether the hints fit a table: each removal that they ask for finds its position.
pub open spec fn hints_fit(
    table: Text,
    desired: Seq<ColumnModel>,
    actual: Seq<ColumnModel>,
    add: Seq<ColumnModel>,
    drop: Seq<Text>,
    hints: Seq<HintModel>,
) -> bool {
    removals_fit(drop.len() as int, hinted_pairs(table, desired, actual, add, drop, hints))
}

/// The old and new names of the pairs.
pub open spec fn pair_names(pairs: Seq<PairModel>) -> Seq<(Text, Text)> {
    Seq::new(pairs.len(), |i: int| (pairs[i].from, pairs[i].to))
}

/// Whether the position is the new column of one of the pairs.
pub open spec fn taken(pairs: Seq<PairModel>, a: int) -> bool {
    exists|k: int| 0 <= k < pairs.len() && (#[trigger] pairs[k]).add_at == a
}

/// The new columns that no pair has taken.
pub open spec fn not_taken(add: Seq<ColumnModel>, pairs: Seq<PairModel>) -> Seq<ColumnModel>
    decreases add.len(),
{
    if add.len() == 0 {
        Seq::empty()
    } else {
        let rest = not_taken(add.drop_last(), pairs);
        if taken(pairs, add.len() - 1) {
            rest
        } else {
            rest.push(add.last())
        }
    }
}

/// The pair that a hint asks for, where it fits.
fn hinted_pair(
    hint: &ColumnRenameHint,
    table: &str,
    desired: &Vec<ColumnInfo>,
    actual: &Vec<ColumnInfo>,
    add: &Vec<ColumnInfo>,
    drop: &Vec<String>,
) -> (r: Option<HintedPair>)
    ensures
        hinted(
            table@,
            desired.deep_view(),
            actual.deep_view(),
            add.deep_view(),
            drop.deep_view(),
        )(hint.deep_view()) == match r {
            Some(p) => seq![p.deep_view()],
            None => Seq::empty(),
        },
        r matches Some(p) ==> p.drop_at < drop.len() && p.add_at < add.len(),
{
    if !names_equal(hint.table.as_str(), table) {
        return None;
    }
    match (find_name(drop, hint.from.as_str()), find_column(add, hint.to.as_str())) {
        (Some(d), Some(a)) => {
            assert(drop.deep_view()[d as int] == drop@[d as int]@);
            assert(add.deep_view()[a as int] == add@[a as int].deep_view());
            match (
                find_column(actual, drop[d].as_str()),
                find_column(desired, add[a].name.as_str()),
            ) {
                (Some(i), Some(j)) => {
                    assert(actual.deep_view()[i as int] == actual@[i as int].deep_view());
                    assert(desired.deep_view()[j as int] == desired@[j as int].deep_view());
                    if columns_compatible_for_rename(&actual[i], &desired[j]) {
                        Some(
                            HintedPair {
                                drop_at: d,
                                add_at: a,
                                from: drop[d].clone(),
                                to: add[a].name.clone(),
                            },
                        )
                    } else {
                        None
                    }
                },
                _ => None,
            }
        },
        _ => None,
    }
}

/// The pairs that the hints ask for, in the order in which they are carried out.
pub fn pairs_of_hints(
    table: &str,
    desired: &Vec<ColumnInfo>,
    actual: &Vec<ColumnInfo>,
    add: &Vec<ColumnInfo>,
    drop: &Vec<String>,
    hints: &Vec<ColumnRenameHint>,
) -> (r: Vec<HintedPair>)
    ensures
        r.deep_view() == hinted_pairs(
            table@,
            desired.deep_view(),
            actual.deep_view(),
            add.deep_view(),
            drop.deep_view(),
            hints.deep_view(),
        ),
{
    let ghost f = hinted(
        table@,
        desired.deep_view(),
        actual.deep_view(),
        add.deep_view(),
        drop.deep_view(),
    );
    let ghost all = hints.deep_view();
    let mut r: Vec<HintedPair> = Vec::new();
    let mut i: usize = 0;
    assert(all.take(0) =~= Seq::empty());
    assert(r.deep_view() =~= Seq::empty());
    while i < hints.len()
        invariant
            i <= hints.len(),
            all == hints.deep_view(),
            f == hinted(
                table@,
                desired.deep_view(),
                actual.deep_view(),
                add.deep_view(),
                drop.deep_view(),
            ),
            r.deep_view() == from_the_back(gather(all.take(i as int), f)),
        decreases hints.len() - i,
    {
        let ghost before = gather(all.take(i as int), f);
        proof {
            lemma_gather_step(all, i as int, f);
        }
        assert(all[i as int] == hints@[i as int].deep_view());
        match hinted_pair(&hints[i], table, desired, actual, add, drop) {
            Some(p) => {
                let ghost now = gather(all.take(i + 1), f);
                assert(now =~= before.push(p.deep_view()));
                assert(now.drop_last() =~= before);
                insert_pair(&mut r, p);
            },
            None => {
                assert(gather(all.take(i + 1), f) =~= before);
            },
        }
        i += 1;
    }
    assert(all.take(i as int) =~= all);
    r
}

/// Puts a pair behind those that stand at its place or further back.
fn insert_pair(list: &mut Vec<HintedPair>, p: HintedPair)
    ensures
        final(list).deep_view() == old(list).deep_view().insert(
            pair_slot(old(list).deep_view(), p.drop_at as int, 0),
            p.deep_view(),
        ),
{
    let ghost before = list.deep_view();
    let mut k: usize = 0;
    while k < list.len() && list[k].drop_at >= p.drop_at
        invariant
            k <= list.len(),
            before == list.deep_view(),
            pair_slot(before, p.drop_at as int, 0) == pair_slot(
                before,
                p.drop_at as int,
                k as int,
            ),
        decreases list.len() - k,
    {
        assert(before[k as int] == list@[k as int].deep_view());
        k += 1;
    }
    proof {
        if k < list.len() {
            assert(before[k as int] == list@[k as int].deep_view());
        }
    }
    let ghost q = p.deep_view();
    list.insert(k, p);
    assert(list.deep_view() =~= before.insert(k as int, q));
}

/// Whether each removal finds its position.
fn removals_in_range(n: usize, pairs: &Vec<HintedPair>) -> (r: bool)
    ensures
        r == removals_fit(n as int, pairs.deep_view()),
{
    let ghost all = pairs.deep_view();
    let mut k: usize = 0;
    while k < pairs.len()
        invariant
            k <= pairs.len(),
            all == pairs.deep_view(),
            forall|j: int| 0 <= j < k ==> 0 <= (#[trigger] all[j]).drop_at < n - j,
        decreases pairs.len() - k,
    {
        assert(all[k as int] == pairs@[k as int].deep_view());
        if k >= n || pairs[k].drop_at >= n - k {
            return false;
        }
        k += 1;
    }
    true
}

/// Whether the hints fit a table: each removal that they ask for finds its position.
pub fn do_hints_fit(
    table: &str,
    desired: &Vec<ColumnInfo>,
    actual: &Vec<ColumnInfo>,
    add: &Vec<ColumnInfo>,
    drop: &Vec<String>,
    hints: &Vec<ColumnRenameHint>,
) -> (r: bool)
    ensures
        r == hints_fit(
            table@,
            desired.deep_view(),
            actual.deep_view(),
            add.deep_view(),
            drop.deep_view(),
            hints.deep_view(),
        ),
{
    let pairs = pairs_of_hints(table, desired, actual, add, drop, hints);
    removals_in_range(drop.len(), &pairs)
}

/// Whether the position is the new column of one of the pairs.
fn is_taken(pairs: &Vec<HintedPair>, a: usize) -> (r: bool)
    ensures
        r == taken(pairs.deep_view(), a as int),
{
    let ghost all = pairs.deep_view();
    let mut k: usize = 0;
    while k < pairs.len()
        invariant
            k <= pairs.len(),
            all == pairs.deep_view(),
            forall|j: int| 0 <= j < k ==> (#[trigger] all[j]).add_at != a,
        decreases pairs.len() - k,
    {
        assert(all[k as int] == pairs@[k as int].deep_view());
        if pairs[k].add_at == a {
            return true;
        }
        k += 1;
    }
    false
}

/// The new columns that no pair has taken.
fn leave_taken(add: Vec<ColumnInfo>, pairs: &Vec<HintedPair>) -> (r: Vec<ColumnInfo>)
    ensures
        r.deep_view() == not_taken(add.deep_view(), pairs.deep_view()),
{
    let ghost all = add.deep_view();
    let ghost ps = pairs.deep_view();
    let mut r: Vec<ColumnInfo> = Vec::new();
    let mut i: usize = 0;
    assert(all.take(0) =~= Seq::empty());
    assert(r.deep_view() =~= Seq::empty());
    while i < add.len()
        invariant
            i <= add.len(),
            all == add.deep_view(),
            ps == pairs.deep_view(),
            r.deep_view() == not_taken(all.take(i as int), ps),
        decreases add.len() - i,
    {
        let ghost before = r.deep_view();
        assert(all.take(i + 1).drop_last() =~= all.take(i as int));
        assert(all[i as int] == add@[i as int].deep_view());
        if !is_taken(pairs, i) {
            r.push(add[i].clone());
            assert(r.deep_view() =~= before.push(all[i as int]));
        }
        i += 1;
    }
    assert(all.take(i as int) =~= all);
    r
}

// ---------------------------------------------------------------------------
// Same place
// ---------------------------------------------------------------------------

/// Whether the new column `a` could be the old column `j` under a new name: they are
/// alike and stand at the same place.
pub open spec fn candidate(
    desired: Seq<ColumnModel>,
    actual: Seq<ColumnModel>,
    add: Seq<ColumnModel>,
    drop: Seq<Text>,
    j: int,
    a: int,
) -> bool {
    &&& 0 <= j < drop.len()
    &&& 0 <= a < add.len()
    &&& match name_index(column_names(actual), drop[j]) {
        Some(i) => renamable(actual[i], add[a]) && column_place(desired, add[a].name)
            == column_place(actual, actual[i].name),
        None => false,
    }
}

/// Whether the new column `a` is the only candidate for the old column `j`.
pub open spec fn only_candidate(
    desired: Seq<ColumnModel>,
    actual: Seq<ColumnModel>,
    add: Seq<ColumnModel>,
    drop: Seq<Text>,
    j: int,
    a: int,
) -> bool {
    &&& candidate(desired, actual, add, drop, j, a)
    &&& forall|b: int| #[trigger] candidate(desired, actual, add, drop, j, b) ==> b == a
}

/// Whether `j` and `a` are each other's only choice.
pub open spec fn paired(
    desired: Seq<ColumnModel>,
    actual: Seq<ColumnModel>,
    add: Seq<ColumnModel>,
    drop: Seq<Text>,
    j: int,
    a: int,
) -> bool {
    &&& only_candidate(desired, actual, add, drop, j, a)
    &&& forall|k: int| #[trigger] only_candidate(desired, actual, add, drop, k, a) ==> k == j
}

pub open spec fn has_partner(
    desired: Seq<ColumnModel>,
    actual: Seq<ColumnModel>,
    add: Seq<ColumnModel>,
    drop: Seq<Text>,
    j: int,
) -> bool {
    exists|a: int| paired(desired, actual, add, drop, j, a)
}

/// The partner of an old column, where it has one.
pub open spec fn partner(
    desired: Seq<ColumnModel>,
    actual: Seq<ColumnModel>,
    add: Seq<ColumnModel>,
    drop: Seq<Text>,
    j: int,
) -> int {
    choose|a: int| paired(desired, actual, add, drop, j, a)
}

pub open spec fn is_partner(
    desired: Seq<ColumnModel>,
    actual: Seq<ColumnModel>,
    add: Seq<ColumnModel>,
    drop: Seq<Text>,
    a: int,
) -> bool {
    exists|j: int| paired(desired, actual, add, drop, j, a)
}

/// The renames among the first `n` old columns.
pub open spec fn place_renames(
    desired: Seq<ColumnModel>,
    actual: Seq<ColumnModel>,
    add: Seq<ColumnModel>,
    drop: Seq<Text>,
    n: int,
) -> Seq<(Text, Text)>
    decreases n,
{
    if n <= 0 {
        Seq::empty()
    } else {
        let before = place_renames(desired, actual, add, drop, n - 1);
        if has_partner(desired, actual, add, drop, n - 1) {
            before.push((drop[n - 1], add[partner(desired, actual, add, drop, n - 1)].name))
        } else {
            before
        }
    }
}

/// Those of the first `n` old columns that have no partner.
pub open spec fn single_drops(
    desired: Seq<ColumnModel>,
    actual: Seq<ColumnModel>,
    add: Seq<ColumnModel>,
    drop: Seq<Text>,
    n: int,
) -> Seq<Text>
    decreases n,
{
    if n <= 0 {
        Seq::empty()
    } else {
        let before = single_drops(desired, actual, add, drop, n - 1);
        if has_partner(desired, actual, add, drop, n - 1) {
            before
        } else {
            before.push(drop[n - 1])
        }
    }
}

/// Those of the first `n` new columns that are nobody's partner.
pub open spec fn single_adds(
    desired: Seq<ColumnModel>,
    actual: Seq<ColumnModel>,
    add: Seq<ColumnModel>,
    drop: Seq<Text>,
    n: int,
) -> Seq<ColumnModel>
    decreases n,
{
    if n <= 0 {
        Seq::empty()
    } else {
        let before = single_adds(desired, actual, add, drop, n - 1);
        if is_partner(desired, actual, add, drop, n - 1) {
            before
        } else {
            before.push(add[n - 1])
        }
    }
}

/// What is renamed, and what is left to add and to drop.
#[verifier::ext_equal]
pub struct RenameModel {
    pub renamed: Seq<(Text, Text)>,
    pub add: Seq<ColumnModel>,
    pub drop: Seq<Text>,
}

/// The renames by hint, then those by place among what the hints have left.
pub open spec fn renames(
    table: Text,
    desired: Seq<ColumnModel>,
    actual: Seq<ColumnModel>,
    add: Seq<ColumnModel>,
    drop: Seq<Text>,
    hints: Seq<HintModel>,
) -> RenameModel {
    let pairs = hinted_pairs(table, desired, actual, add, drop, hints);
    let add1 = not_taken(add, pairs);
    let drop1 = after_removals(drop, pairs);
    RenameModel {
        renamed: pair_names(pairs) + place_renames(
            desired,
            actual,
            add1,
            drop1,
            drop1.len() as int,
        ),
        add: single_adds(desired, actual, add1, drop1, add1.len() as int),
        drop: single_drops(desired, actual, add1, drop1, drop1.len() as int),
    }
}

/// The only candidate for an old column.
fn sole_candidate(
    desired: &Vec<ColumnInfo>,
    actual: &Vec<ColumnInfo>,
    add: &Vec<ColumnInfo>,
    drop: &Vec<String>,
    j: usize,
) -> (r: Option<usize>)
    requires
        j < drop.len(),
    ensures
        forall|a: int|
            #[trigger] only_candidate(
                desired.deep_view(),
                actual.deep_view(),
                add.deep_view(),
                drop.deep_view(),
                j as int,
                a,
            ) <==> r == Some(a as usize) && 0 <= a < add.len(),
        r matches Some(a) ==> a < add.len(),
{
    let ghost de = desired.deep_view();
    let ghost ac = actual.deep_view();
    let ghost ad = add.deep_view();
    let ghost dr = drop.deep_view();
    assert(dr[j as int] == drop@[j as int]@);
    let i = match find_column(actual, drop[j].as_str()) {
        Some(i) => i,
        None => {
            return None;
        },
    };
    assert(ac[i as int] == actual@[i as int].deep_view());
    let place = column_position(actual, actual[i].name.as_str());
    let mut found: Option<usize> = None;
    let mut several = false;
    let mut a: usize = 0;
    while a < add.len()
        invariant
            a <= add.len(),
            de == desired.deep_view(),
            ac == actual.deep_view(),
            ad == add.deep_view(),
            dr == drop.deep_view(),
            j < drop.len(),
            i < actual.len(),
            ac[i as int] == actual@[i as int].deep_view(),
            name_index(column_names(ac), dr[j as int]) == Some(i as int),
            match place {
                Some(k) => column_place(ac, ac[i as int].name) == Some(k as int),
                None => column_place(ac, ac[i as int].name) is None,
            },
            several ==> exists|b: int, c: int|
                0 <= b < c < a && #[trigger] candidate(de, ac, ad, dr, j as int, b)
                    && #[trigger] candidate(de, ac, ad, dr, j as int, c),
            !several ==> match found {
                Some(b) => b < a && candidate(de, ac, ad, dr, j as int, b as int) && forall|c: int|
                    0 <= c < a && #[trigger] candidate(de, ac, ad, dr, j as int, c) ==> c == b,
                None => forall|c: int| 0 <= c < a ==> !#[trigger] candidate(de, ac, ad, dr, j as int, c),
            },
            found matches Some(b) ==> b < add.len(),
            several ==> found is Some,
            found matches Some(b) ==> b < a && candidate(de, ac, ad, dr, j as int, b as int),
        decreases add.len() - a,
    {
        assert(ad[a as int] == add@[a as int].deep_view());
        if columns_compatible_for_rename(&actual[i], &add[a]) && column_position(
            desired,
            add[a].name.as_str(),
        ) == place {
            assert(candidate(de, ac, ad, dr, j as int, a as int));
            match found {
                Some(b) => {
                    assert(candidate(de, ac, ad, dr, j as int, b as int));
                    several = true;
                },
                None => {
                    found = Some(a);
                },
            }
        } else {
            assert(!candidate(de, ac, ad, dr, j as int, a as int));
        }
        a += 1;
    }
    if several {
        None
    } else {
        found
    }
}

/// Whether the list holds `Some(a)` at `j` and nowhere else.
spec fn only_at(soles: Seq<Option<usize>>, a: int, j: int) -> bool {
    &&& 0 <= j < soles.len()
    &&& soles[j] == Some(a as usize)
    &&& forall|k: int| 0 <= k < soles.len() && #[trigger] soles[k] == Some(a as usize) ==> k == j
}

/// The one position that holds `Some(a)`.
fn position_of_sole(soles: &Vec<Option<usize>>, a: usize) -> (r: Option<usize>)
    ensures
        match r {
            Some(j) => only_at(soles@, a as int, j as int),
            None => forall|j: int| !only_at(soles@, a as int, j),
        },
{
    let mut found: Option<usize> = None;
    let mut k: usize = 0;
    while k < soles.len()
        invariant
            k <= soles.len(),
            match found {
                Some(j) => j < k && soles@[j as int] == Some(a) && forall|m: int|
                    0 <= m < k && #[trigger] soles@[m] == Some(a) ==> m == j,
                None => forall|m: int| 0 <= m < k ==> #[trigger] soles@[m] != Some(a),
            },
        decreases soles.len() - k,
    {
        if let Some(b) = soles[k] {
            if b == a {
                if found.is_some() {
                    proof {
                        let j = found->0;
                        assert(soles@[k as int] == Some(a));
                        assert(soles@[j as int] == Some(a));
                    }
                    return None;
                }
                found = Some(k);
            }
        }
        k += 1;
    }
    found
}

/// The result of looking for renames.
pub struct Renames {
    pub renamed: Vec<(String, String)>,
    pub add: Vec<ColumnInfo>,
    pub drop: Vec<String>,
}

impl DeepView for Renames {
    type V = RenameModel;

    open spec fn deep_view(&self) -> RenameModel {
        RenameModel {
            renamed: self.renamed.deep_view(),
            add: self.add.deep_view(),
            drop: self.drop.deep_view(),
        }
    }
}

/// The renames of a table: first those that hints ask for, then those that the
/// places of the columns show.
pub fn detect_column_renames(
    table: &str,
    desired: &Vec<ColumnInfo>,
    actual: &Vec<ColumnInfo>,
    add: Vec<ColumnInfo>,
    drop: Vec<String>,
    hints: &Vec<ColumnRenameHint>,
) -> (r: Renames)
    requires
        hints_fit(
            table@,
            desired.deep_view(),
            actual.deep_view(),
            add.deep_view(),
            drop.deep_view(),
            hints.deep_view(),
        ),
    ensures
        r.deep_view() == renames(
            table@,
            desired.deep_view(),
            actual.deep_view(),
            add.deep_view(),
            drop.deep_view(),
            hints.deep_view(),
        ),
{
    let pairs = pairs_of_hints(table, desired, actual, &add, &drop, hints);
    let ghost ps = pairs.deep_view();
    let ghost whole = drop.deep_view();
    let mut drop1 = drop;
    let mut renamed: Vec<(String, String)> = Vec::new();
    let mut k: usize = 0;
    assert(ps.take(0) =~= Seq::empty());
    while k < pairs.len()
        invariant
            k <= pairs.len(),
            ps == pairs.deep_view(),
            removals_fit(whole.len() as int, ps),
            drop1.len() == whole.len() - k,
            drop1.deep_view() == after_removals(whole, ps.take(k as int)),
            renamed.len() == k,
            forall|i: int|
                0 <= i < k ==> (#[trigger] renamed@[i]).0@ == ps[i].from && renamed@[i].1@
                    == ps[i].to,
        decreases pairs.len() - k,
    {
        assert(ps[k as int] == pairs@[k as int].deep_view());
        assert(ps.take(k + 1).drop_last() =~= ps.take(k as int));
        let ghost before = drop1.deep_view();
        renamed.push((pairs[k].from.clone(), pairs[k].to.clone()));
        drop1.remove(pairs[k].drop_at);
        assert(drop1.deep_view() =~= before.remove(ps[k as int].drop_at));
        k += 1;
    }
    assert(ps.take(k as int) =~= ps);
    assert(renamed.deep_view() =~= pair_names(ps));
    let add1 = leave_taken(add, &pairs);
    let left = renames_by_place(desired, actual, &add1, &drop1);
    let mut more = left.renamed;
    let ghost first = renamed.deep_view();
    let ghost second = more.deep_view();
    renamed.append(&mut more);
    assert(renamed.deep_view() =~= first + second);
    Renames { renamed, add: left.add, drop: left.drop }
}

/// The renames that the places of the columns show, and what is left.
fn renames_by_place(
    desired: &Vec<ColumnInfo>,
    actual: &Vec<ColumnInfo>,
    add: &Vec<ColumnInfo>,
    drop: &Vec<String>,
) -> (r: Renames)
    ensures
        ({
            let de = desired.deep_view();
            let ac = actual.deep_view();
            let ad = add.deep_view();
            let dr = drop.deep_view();
            &&& r.renamed.deep_view() == place_renames(de, ac, ad, dr, dr.len() as int)
            &&& r.add.deep_view() == single_adds(de, ac, ad, dr, ad.len() as int)
            &&& r.drop.deep_view() == single_drops(de, ac, ad, dr, dr.len() as int)
        }),
{
    let ghost de = desired.deep_view();
    let ghost ac = actual.deep_view();
    let ghost ad = add.deep_view();
    let ghost dr = drop.deep_view();
    let mut soles: Vec<Option<usize>> = Vec::new();
    let mut j: usize = 0;
    while j < drop.len()
        invariant
            j <= drop.len(),
            soles.len() == j,
            de == desired.deep_view(),
            ac == actual.deep_view(),
            ad == add.deep_view(),
            dr == drop.deep_view(),
            forall|k: int, a: int|
                0 <= k < j ==> (#[trigger] only_candidate(de, ac, ad, dr, k, a) <==> soles@[k]
                    == Some(a as usize) && 0 <= a < add.len()),
            forall|k: int| 0 <= k < j ==> ((#[trigger] soles@[k]) matches Some(a) ==> a < add.len()),
        decreases drop.len() - j,
    {
        let sole = sole_candidate(desired, actual, add, drop, j);
        soles.push(sole);
        j += 1;
    }
    let mut renamed: Vec<(String, String)> = Vec::new();
    let mut drop2: Vec<String> = Vec::new();
    j = 0;
    assert(renamed.deep_view() =~= Seq::empty());
    assert(drop2.deep_view() =~= Seq::empty());
    while j < drop.len()
        invariant
            j <= drop.len(),
            soles.len() == drop.len(),
            de == desired.deep_view(),
            ac == actual.deep_view(),
            ad == add.deep_view(),
            dr == drop.deep_view(),
            forall|k: int, a: int|
                0 <= k < drop.len() ==> (#[trigger] only_candidate(de, ac, ad, dr, k, a)
                    <==> soles@[k] == Some(a as usize) && 0 <= a < add.len()),
            forall|k: int|
                0 <= k < drop.len() ==> ((#[trigger] soles@[k]) matches Some(a) ==> a < add.len()),
            renamed.deep_view() == place_renames(de, ac, ad, dr, j as int),
            drop2.deep_view() == single_drops(de, ac, ad, dr, j as int),
        decreases drop.len() - j,
    {
        let ghost seen = renamed.deep_view();
        let ghost kept = drop2.deep_view();
        assert(dr[j as int] == drop@[j as int]@);
        let chosen: Option<usize> = match soles[j] {
            Some(a) => {
                match position_of_sole(&soles, a) {
                    Some(k) => {
                        proof {
                            assert(soles@[j as int] == Some(a));
                            assert(k == j);
                            lemma_paired(de, ac, ad, dr, soles@, j as int, a as int);
                        }
                        Some(a)
                    },
                    None => {
                        proof {
                            lemma_not_paired(de, ac, ad, dr, soles@, j as int, a as int);
                        }
                        None
                    },
                }
            },
            None => None,
        };
        match chosen {
            Some(a) => {
                assert(ad[a as int] == add@[a as int].deep_view());
                renamed.push((drop[j].clone(), add[a].name.clone()));
                assert(renamed.deep_view() =~= seen.push((dr[j as int], ad[a as int].name)));
                proof {
                    assert(has_partner(de, ac, ad, dr, j as int));
                    let c = partner(de, ac, ad, dr, j as int);
                    assert(paired(de, ac, ad, dr, j as int, c));
                    assert(candidate(de, ac, ad, dr, j as int, c));
                    assert(c == a);
                }
            },
            None => {
                drop2.push(drop[j].clone());
                assert(drop2.deep_view() =~= kept.push(dr[j as int]));
                proof {
                    if has_partner(de, ac, ad, dr, j as int) {
                        let c = choose|c: int| paired(de, ac, ad, dr, j as int, c);
                        assert(only_candidate(de, ac, ad, dr, j as int, c));
                    }
                }
            },
        }
        j += 1;
    }
    let mut add2: Vec<ColumnInfo> = Vec::new();
    let mut a: usize = 0;
    assert(add2.deep_view() =~= Seq::empty());
    while a < add.len()
        invariant
            a <= add.len(),
            soles.len() == drop.len(),
            de == desired.deep_view(),
            ac == actual.deep_view(),
            ad == add.deep_view(),
            dr == drop.deep_view(),
            forall|k: int, b: int|
                0 <= k < drop.len() ==> (#[trigger] only_candidate(de, ac, ad, dr, k, b)
                    <==> soles@[k] == Some(b as usize) && 0 <= b < add.len()),
            add2.deep_view() == single_adds(de, ac, ad, dr, a as int),
        decreases add.len() - a,
    {
        let ghost seen = add2.deep_view();
        assert(ad[a as int] == add@[a as int].deep_view());
        match position_of_sole(&soles, a) {
            Some(k) => {
                proof {
                    lemma_paired(de, ac, ad, dr, soles@, k as int, a as int);
                    assert(is_partner(de, ac, ad, dr, a as int));
                }
            },
            None => {
                proof {
                    if is_partner(de, ac, ad, dr, a as int) {
                        let k = choose|k: int| paired(de, ac, ad, dr, k, a as int);
                        assert(only_candidate(de, ac, ad, dr, k, a as int));
                        assert(candidate(de, ac, ad, dr, k, a as int));
                        assert forall|m: int|
                            0 <= m < soles@.len() && #[trigger] soles@[m] == Some(a) implies m
                            == k by {
                            assert(only_candidate(de, ac, ad, dr, m, a as int));
                        }
                        assert(only_at(soles@, a as int, k));
                    }
                }
                add2.push(add[a].clone());
                assert(add2.deep_view() =~= seen.push(ad[a as int]));
            },
        }
        a += 1;
    }
    Renames { renamed, add: add2, drop: drop2 }
}

proof fn lemma_paired(
    de: Seq<ColumnModel>,
    ac: Seq<ColumnModel>,
    ad: Seq<ColumnModel>,
    dr: Seq<Text>,
    soles: Seq<Option<usize>>,
    j: int,
    a: int,
)
    requires
        soles.len() == dr.len(),
        0 <= a < ad.len(),
        ad.len() <= usize::MAX,
        forall|k: int, b: int|
            0 <= k < dr.len() ==> (#[trigger] only_candidate(de, ac, ad, dr, k, b) <==> soles[k]
                == Some(b as usize) && 0 <= b < ad.len()),
        only_at(soles, a, j),
    ensures
        paired(de, ac, ad, dr, j, a),
{
    assert(only_candidate(de, ac, ad, dr, j, a));
    assert forall|k: int| #[trigger] only_candidate(de, ac, ad, dr, k, a) implies k == j by {
        assert(candidate(de, ac, ad, dr, k, a));
        assert(soles[k] == Some(a as usize));
    }
}

proof fn lemma_not_paired(
    de: Seq<ColumnModel>,
    ac: Seq<ColumnModel>,
    ad: Seq<ColumnModel>,
    dr: Seq<Text>,
    soles: Seq<Option<usize>>,
    j: int,
    a: int,
)
    requires
        soles.len() == dr.len(),
        0 <= j < dr.len(),
        0 <= a < ad.len(),
        ad.len() <= usize::MAX,
        forall|k: int, b: int|
            0 <= k < dr.len() ==> (#[trigger] only_candidate(de, ac, ad, dr, k, b) <==> soles[k]
                == Some(b as usize) && 0 <= b < ad.len()),
        soles[j] == Some(a as usize),
        forall|k: int| !only_at(soles, a, k),
    ensures
        !has_partner(de, ac, ad, dr, j),
{
    if has_partner(de, ac, ad, dr, j) {
        let c = choose|c: int| paired(de, ac, ad, dr, j, c);
        assert(only_candidate(de, ac, ad, dr, j, c));
        assert(c == a);
        assert forall|k: int| 0 <= k < soles.len() && #[trigger] soles[k] == Some(
            a as usize,
        ) implies k == j by {
            assert(only_candidate(de, ac, ad, dr, k, a));
        }
        assert(only_at(soles, a, j));
    }
}

} // verus!
