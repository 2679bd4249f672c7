//! What becomes of every column: one that is wanted and not there comes, one that is there
//! and not wanted goes, and a rename joins two that are alike.

use vstd::prelude::*;

#[allow(unused_imports)]
use crate::change_laws::{
    cannot_be_added, cannot_be_dropped, defaults_differ, is_column, is_match, lemma_droppable,
    lemma_has_column, lemma_matched_table, lemma_rebuild_listed,
};
#[allow(unused_imports)]
use crate::diff::{
    addable, adds_of, difference, drops_of, entry_change, fresh_columns, hints_applicable,
    lost_columns, lost_from, renames_of, tagged, tagged_pairs,
};
#[allow(unused_imports)]
use crate::diff_laws::{lemma_dropped_columns_droppable, lemma_renames_justified};
#[allow(unused_imports)]
use crate::lists::{gather, lemma_gather_contains, lemma_name_index, name_index};
#[allow(unused_imports)]
use crate::options::HintModel;
#[allow(unused_imports)]
use crate::rename::{
    after_removals, candidate, from_the_back, has_partner, hinted, hinted_pairs, is_partner,
    not_taken, pair_names, pair_slot, paired, partner, place_renames, renamable, renames,
    single_adds, single_drops, taken, PairModel,
};
#[allow(unused_imports)]
use crate::schema::{column_names, lookup, ColumnModel, SnapshotModel};
#[allow(unused_imports)]
use crate::text::{lower, same_name, Text};

verus! {

// ---------------------------------------------------------------------------
// The lists that renames leave
// ---------------------------------------------------------------------------

proof fn lemma_in_not_taken(add: Seq<ColumnModel>, pairs: Seq<PairModel>, a: int)
    requires
        0 <= a < add.len(),
        !taken(pairs, a),
    ensures
        not_taken(add, pairs).contains(add[a]),
    decreases add.len(),
{
    let rest = not_taken(add.drop_last(), pairs);
    let all = not_taken(add, pairs);
    if a == add.len() - 1 {
        assert(all[rest.len() as int] == add[a]);
    } else {
        lemma_in_not_taken(add.drop_last(), pairs, a);
        let k = choose|k: int| 0 <= k < rest.len() && rest[k] == add.drop_last()[a];
        assert(all[k] == add[a]);
    }
}

proof fn lemma_in_single_adds(
    desired: Seq<ColumnModel>,
    actual: Seq<ColumnModel>,
    add: Seq<ColumnModel>,
    drop: Seq<Text>,
    n: int,
    b: int,
)
    requires
        0 <= b < n <= add.len(),
        !is_partner(desired, actual, add, drop, b),
    ensures
        single_adds(desired, actual, add, drop, n).contains(add[b]),
    decreases n,
{
    let before = single_adds(desired, actual, add, drop, n - 1);
    let now = single_adds(desired, actual, add, drop, n);
    if b == n - 1 {
        assert(now[before.len() as int] == add[b]);
    } else {
        lemma_in_single_adds(desired, actual, add, drop, n - 1, b);
        let k = choose|k: int| 0 <= k < before.len() && before[k] == add[b];
        assert(now[k] == add[b]);
    }
}

proof fn lemma_in_single_drops(
    desired: Seq<ColumnModel>,
    actual: Seq<ColumnModel>,
    add: Seq<ColumnModel>,
    drop: Seq<Text>,
    n: int,
    j: int,
)
    requires
        0 <= j < n <= drop.len(),
        !has_partner(desired, actual, add, drop, j),
    ensures
        single_drops(desired, actual, add, drop, n).contains(drop[j]),
    decreases n,
{
    let before = single_drops(desired, actual, add, drop, n - 1);
    let now = single_drops(desired, actual, add, drop, n);
    if j == n - 1 {
        assert(now[before.len() as int] == drop[j]);
    } else {
        lemma_in_single_drops(desired, actual, add, drop, n - 1, j);
        let k = choose|k: int| 0 <= k < before.len() && before[k] == drop[j];
        assert(now[k] == drop[j]);
    }
}

/// Columns that are each other's only choice are renamed by place.
pub proof fn lemma_in_place_renames(
    desired: Seq<ColumnModel>,
    actual: Seq<ColumnModel>,
    add: Seq<ColumnModel>,
    drop: Seq<Text>,
    n: int,
    j: int,
    a: int,
)
    requires
        0 <= j < n <= drop.len(),
        paired(desired, actual, add, drop, j, a),
    ensures
        place_renames(desired, actual, add, drop, n).contains((drop[j], add[a].name)),
    decreases n,
{
    let before = place_renames(desired, actual, add, drop, n - 1);
    let now = place_renames(desired, actual, add, drop, n);
    let x = (drop[j], add[a].name);
    if j == n - 1 {
        let p = partner(desired, actual, add, drop, j);
        assert(paired(desired, actual, add, drop, j, p));
        assert(candidate(desired, actual, add, drop, j, p));
        assert(p == a);
        assert(now[before.len() as int] == x);
    } else {
        lemma_in_place_renames(desired, actual, add, drop, n - 1, j, a);
        let k = choose|k: int| 0 <= k < before.len() && before[k] == x;
        assert(now[k] == x);
    }
}

// ---------------------------------------------------------------------------
// Pairs of hints
// ---------------------------------------------------------------------------

proof fn lemma_slot(s: Seq<PairModel>, d: int, i: int)
    requires
        0 <= i <= s.len(),
    ensures
        i <= pair_slot(s, d, i) <= s.len(),
        forall|k: int| i <= k < pair_slot(s, d, i) ==> (#[trigger] s[k]).drop_at >= d,
        pair_slot(s, d, i) < s.len() ==> s[pair_slot(s, d, i)].drop_at < d,
    decreases s.len() - i,
{
    if i < s.len() && s[i].drop_at >= d {
        lemma_slot(s, d, i + 1);
    }
}

/// The pairs are the same ones, in another order.
pub proof fn lemma_same_pairs(s: Seq<PairModel>, p: PairModel)
    ensures
        from_the_back(s).contains(p) <==> s.contains(p),
        from_the_back(s).len() == s.len(),
    decreases s.len(),
{
    if s.len() > 0 {
        let d = s.drop_last();
        let t = from_the_back(d);
        let k = pair_slot(t, s.last().drop_at, 0);
        lemma_slot(t, s.last().drop_at, 0);
        lemma_same_pairs(d, p);
        let u = t.insert(k, s.last());
        assert(u[k] == s.last());
        if u.contains(p) {
            let m = choose|m: int| 0 <= m < u.len() && u[m] == p;
            if m == k {
                assert(s[s.len() - 1] == p);
            } else {
                assert(t[if m < k { m } else { m - 1 }] == p);
                let q = choose|q: int| 0 <= q < d.len() && d[q] == p;
                assert(s[q] == p);
            }
        }
        if s.contains(p) {
            let q = choose|q: int| 0 <= q < s.len() && s[q] == p;
            if q < d.len() {
                assert(d[q] == p);
                let m = choose|m: int| 0 <= m < t.len() && t[m] == p;
                assert(u[if m < k { m } else { m + 1 }] == p);
            }
        }
    }
}

spec fn apart(s: Seq<PairModel>) -> bool {
    forall|i: int, j: int|
        0 <= i < j < s.len() ==> (#[trigger] s[i]).drop_at != (#[trigger] s[j]).drop_at
}

spec fn falling(s: Seq<PairModel>) -> bool {
    forall|i: int, j: int|
        0 <= i < j < s.len() ==> (#[trigger] s[i]).drop_at > (#[trigger] s[j]).drop_at
}

proof fn lemma_apart_falls(s: Seq<PairModel>)
    requires
        apart(s),
    ensures
        falling(from_the_back(s)),
    decreases s.len(),
{
    if s.len() > 0 {
        let d = s.drop_last();
        let x = s.last();
        assert(apart(d)) by {
            assert(forall|i: int| 0 <= i < d.len() ==> #[trigger] d[i] == s[i]);
        }
        lemma_apart_falls(d);
        let t = from_the_back(d);
        let k = pair_slot(t, x.drop_at, 0);
        lemma_slot(t, x.drop_at, 0);
        assert forall|m: int| 0 <= m < t.len() implies (#[trigger] t[m]).drop_at != x.drop_at by {
            lemma_same_pairs(d, t[m]);
            assert(t.contains(t[m]));
            let q = choose|q: int| 0 <= q < d.len() && d[q] == t[m];
            assert(s[q].drop_at != s[s.len() - 1].drop_at);
        }
        let u = t.insert(k, x);
        assert forall|i: int, j: int| 0 <= i < j < u.len() implies (#[trigger] u[i]).drop_at > (
        #[trigger] u[j]).drop_at by {
            let a: int = if i < k {
                i
            } else {
                i - 1
            };
            let b: int = if j < k {
                j
            } else {
                j - 1
            };
            if i == k {
                assert(u[j] == t[b]);
                assert(b >= k);
                if b > k {
                    assert(t[k].drop_at > t[b].drop_at);
                }
            } else if j == k {
                assert(u[i] == t[a]);
            } else {
                assert(u[i] == t[a] && u[j] == t[b]);
            }
        }
    }
}

/// A position that no pair takes moves up by the number of the pairs before it.
spec fn moved(pairs: Seq<PairModel>, d: int) -> int
    decreases pairs.len(),
{
    if pairs.len() == 0 {
        d
    } else if pairs.last().drop_at < d {
        moved(pairs.drop_last(), d) - 1
    } else {
        moved(pairs.drop_last(), d)
    }
}

proof fn lemma_moved(drop: Seq<Text>, pairs: Seq<PairModel>, d: int)
    requires
        falling(pairs),
        forall|k: int| 0 <= k < pairs.len() ==> 0 <= (#[trigger] pairs[k]).drop_at < drop.len(),
        0 <= d < drop.len(),
        forall|k: int| 0 <= k < pairs.len() ==> (#[trigger] pairs[k]).drop_at != d,
    ensures
        0 <= moved(pairs, d) < after_removals(drop, pairs).len(),
        after_removals(drop, pairs)[moved(pairs, d)] == drop[d],
        after_removals(drop, pairs).len() == drop.len() - pairs.len(),
        pairs.len() > 0 && pairs.last().drop_at > d ==> moved(pairs, d) == d,
        pairs.len() > 0 ==> pairs.last().drop_at < drop.len() - pairs.len() + 1,
        pairs.len() > 0 && pairs.last().drop_at < d ==> moved(pairs, d) >= pairs.last().drop_at,
        pairs.len() == 0 ==> moved(pairs, d) == d,
    decreases pairs.len(),
{
    if pairs.len() > 0 {
        let fewer = pairs.drop_last();
        let at = pairs.last().drop_at;
        assert(pairs[pairs.len() - 1] == pairs.last());
        assert forall|i: int, j: int| 0 <= i < j < fewer.len() implies (#[trigger] fewer[i]).drop_at
            > (#[trigger] fewer[j]).drop_at by {
            assert(fewer[i] == pairs[i] && fewer[j] == pairs[j]);
        }
        assert forall|k: int| 0 <= k < fewer.len() implies 0 <= (#[trigger] fewer[k]).drop_at
            < drop.len() && fewer[k].drop_at != d by {
            assert(fewer[k] == pairs[k]);
        }
        lemma_moved(drop, fewer, d);
        if fewer.len() > 0 {
            assert(fewer.last() == pairs[pairs.len() - 2]);
            assert(fewer.last().drop_at > at);
        }
    }
}

/// Whether two hints speak of the same column of the same table.
pub open spec fn hints_clash(hints: Seq<HintModel>) -> bool {
    exists|i: int, j: int|
        0 <= i < j < hints.len() && lower((#[trigger] hints[i]).table) == lower(
            (#[trigger] hints[j]).table,
        ) && lower(hints[i].from) == lower(hints[j].from)
}

/// The hint that a pair comes from.
pub proof fn lemma_pair_of_hint(
    table: Text,
    desired: Seq<ColumnModel>,
    actual: Seq<ColumnModel>,
    add: Seq<ColumnModel>,
    drop: Seq<Text>,
    hints: Seq<HintModel>,
    p: PairModel,
) -> (k: int)
    requires
        gather(hints, hinted(table, desired, actual, add, drop)).contains(p),
    ensures
        0 <= k < hints.len(),
        lower(hints[k].table) == lower(table),
        0 <= p.drop_at < drop.len(),
        0 <= p.add_at < add.len(),
        lower(hints[k].from) == lower(drop[p.drop_at]),
        lower(hints[k].to) == lower(add[p.add_at].name),
        p.from == drop[p.drop_at],
        p.to == add[p.add_at].name,
{
    let f = hinted(table, desired, actual, add, drop);
    lemma_gather_contains(hints, f, p);
    let k = choose|k: int| 0 <= k < hints.len() && f(#[trigger] hints[k]).contains(p);
    lemma_name_index(drop, hints[k].from);
    lemma_name_index(column_names(add), hints[k].to);
    k
}

/// Pairs of hints that do not clash take different columns away.
proof fn lemma_pairs_apart(
    table: Text,
    desired: Seq<ColumnModel>,
    actual: Seq<ColumnModel>,
    add: Seq<ColumnModel>,
    drop: Seq<Text>,
    hints: Seq<HintModel>,
)
    requires
        !hints_clash(hints),
    ensures
        apart(gather(hints, hinted(table, desired, actual, add, drop))),
    decreases hints.len(),
{
    let f = hinted(table, desired, actual, add, drop);
    let s = gather(hints, f);
    if hints.len() > 0 {
        let d = hints.drop_last();
        let before = gather(d, f);
        let last = f(hints.last());
        assert(!hints_clash(d)) by {
            if hints_clash(d) {
                let (i, j) = choose|i: int, j: int|
                    0 <= i < j < d.len() && lower((#[trigger] d[i]).table) == lower(
                        (#[trigger] d[j]).table,
                    ) && lower(d[i].from) == lower(d[j].from);
                assert(hints[i] == d[i] && hints[j] == d[j]);
            }
        }
        lemma_pairs_apart(table, desired, actual, add, drop, d);
        assert(s == before + last);
        assert(last.len() <= 1);
        assert forall|i: int, j: int| 0 <= i < j < s.len() implies (#[trigger] s[i]).drop_at != (
        #[trigger] s[j]).drop_at by {
            assert(s[i] == before[i]);
            if j < before.len() {
                assert(s[j] == before[j]);
            } else {
                assert(s[j] == last[0]);
                assert(before.contains(before[i]));
                let k = lemma_pair_of_hint(table, desired, actual, add, drop, d, before[i]);
                lemma_name_index(drop, hints.last().from);
                assert(hints[k] == d[k]);
                assert(hints[hints.len() - 1] == hints.last());
                if s[i].drop_at == s[j].drop_at {
                    assert(lower(hints[k].from) == lower(hints[hints.len() - 1].from));
                }
            }
        }
    }
}

// ---------------------------------------------------------------------------
// Columns that come
// ---------------------------------------------------------------------------

/// The new name of a column of the table is among the renames.
pub open spec fn is_renamed_to(renames: Seq<(Text, Text, Text)>, table: Text, to: Text) -> bool {
    exists|r: int|
        0 <= r < renames.len() && (#[trigger] renames[r]).0 == table && renames[r].2 == to
}

/// The old name of a column of the table is among the renames.
pub open spec fn is_renamed_from(
    renames: Seq<(Text, Text, Text)>,
    table: Text,
    from: Text,
) -> bool {
    exists|r: int|
        0 <= r < renames.len() && (#[trigger] renames[r]).0 == table && renames[r].1 == from
}

/// A visible column that the other table lacks is among those that it lacks.
pub proof fn lemma_fresh(desired: Seq<ColumnModel>, actual: Seq<ColumnModel>, j: int)
    requires
        0 <= j < desired.len(),
        !desired[j].is_hidden,
        !is_column(actual, desired[j].name),
    ensures
        fresh_columns(desired, actual).contains(desired[j]),
{
    let f = lost_from(actual);
    lemma_has_column(actual, desired[j].name);
    assert(f(desired[j])[0] == desired[j]);
    lemma_gather_contains(desired, f, desired[j]);
}

/// A rename of a table is listed with its name.
pub proof fn lemma_rename_listed(
    desired: SnapshotModel,
    actual: SnapshotModel,
    hints: Seq<HintModel>,
    i: int,
    x: (Text, Text),
)
    requires
        0 <= i < desired.tables.len(),
        entry_change(desired.tables[i], actual, hints).renamed.contains(x),
    ensures
        difference(desired, actual, hints).columns_to_rename.contains(
            (desired.tables[i].0, x.0, x.1),
        ),
{
    let f = renames_of(actual, hints);
    let e = desired.tables[i];
    let renamed = entry_change(e, actual, hints).renamed;
    let y = (e.0, x.0, x.1);
    let k = choose|k: int| 0 <= k < renamed.len() && renamed[k] == x;
    assert(tagged_pairs(e.0, renamed)[k] == y);
    assert(f(e).contains(y));
    lemma_gather_contains(desired.tables, f, y);
}

/// A visible wanted column that the table lacks comes: the table is rebuilt, the column
/// is added, or another column gets its name.
pub proof fn lemma_missing_column_comes(
    desired: SnapshotModel,
    actual: SnapshotModel,
    hints: Seq<HintModel>,
    i: int,
    m: int,
    j: int,
)
    requires
        actual.sorted(),
        is_match(desired, actual, i, m),
        0 <= j < desired.tables[i].1.columns.len(),
        !desired.tables[i].1.columns[j].is_hidden,
        !is_column(actual.tables[m].1.columns, desired.tables[i].1.columns[j].name),
    ensures
        ({
            let d = difference(desired, actual, hints);
            let t = desired.tables[i].0;
            let c = desired.tables[i].1.columns[j];
            ||| d.tables_to_rebuild.contains(t)
            ||| d.columns_to_add.contains((t, c)) && !cannot_be_added(c)
            ||| is_renamed_to(d.columns_to_rename, t, c.name)
        }),
{
    let e = desired.tables[i];
    let t = e.0;
    let c = e.1.columns[j];
    let there = actual.tables[m].1;
    let d = difference(desired, actual, hints);
    lemma_matched_table(desired, actual, i, m);
    let change = entry_change(e, actual, hints);
    if change.rebuild {
        lemma_rebuild_listed(desired, actual, hints, i);
    } else {
        let de = e.1.columns;
        let ac = there.columns;
        let add = fresh_columns(de, ac);
        let drop = column_names(lost_columns(de, ac));
        let all = gather(hints, hinted(t, de, ac, add, drop));
        let pairs = hinted_pairs(t, de, ac, add, drop, hints);
        let add1 = not_taken(add, pairs);
        let drop1 = after_removals(drop, pairs);
        let second = place_renames(de, ac, add1, drop1, drop1.len() as int);
        lemma_fresh(de, ac, j);
        let a = choose|a: int| 0 <= a < add.len() && add[a] == c;
        if taken(pairs, a) {
            let k = choose|k: int| 0 <= k < pairs.len() && (#[trigger] pairs[k]).add_at == a;
            assert(pairs.contains(pairs[k]));
            lemma_same_pairs(all, pairs[k]);
            let h = lemma_pair_of_hint(t, de, ac, add, drop, hints, pairs[k]);
            let x = (pairs[k].from, pairs[k].to);
            assert(pair_names(pairs)[k] == x);
            assert(change.renamed[k] == x);
            lemma_rename_listed(desired, actual, hints, i, x);
            let r = choose|r: int|
                0 <= r < d.columns_to_rename.len() && d.columns_to_rename[r] == (t, x.0, x.1);
            assert(d.columns_to_rename[r].2 == c.name);
        } else {
            lemma_in_not_taken(add, pairs, a);
            let b = choose|b: int| 0 <= b < add1.len() && add1[b] == c;
            if is_partner(de, ac, add1, drop1, b) {
                let k = choose|k: int| paired(de, ac, add1, drop1, k, b);
                assert(candidate(de, ac, add1, drop1, k, b));
                lemma_in_place_renames(de, ac, add1, drop1, drop1.len() as int, k, b);
                let x = (drop1[k], add1[b].name);
                let q = choose|q: int| 0 <= q < second.len() && second[q] == x;
                assert(change.renamed[pairs.len() + q] == x);
                lemma_rename_listed(desired, actual, hints, i, x);
                let r = choose|r: int|
                    0 <= r < d.columns_to_rename.len() && d.columns_to_rename[r] == (t, x.0, x.1);
                assert(d.columns_to_rename[r].2 == c.name);
            } else {
                lemma_in_single_adds(de, ac, add1, drop1, add1.len() as int, b);
                let q = choose|q: int| 0 <= q < change.add.len() && change.add[q] == c;
                assert(addable(change.add[q]));
                assert(tagged(t, change.add)[q] == (t, c));
                let f = adds_of(actual, hints);
                assert(f(e).contains((t, c)));
                lemma_gather_contains(desired.tables, f, (t, c));
            }
        }
    }
}

// ---------------------------------------------------------------------------
// Columns that go
// ---------------------------------------------------------------------------

/// A visible column that is not wanted goes: the table is rebuilt, the column is dropped,
/// or it gets the name of another one. Hints that speak twice of one column are left out.
pub proof fn lemma_unwanted_column_goes(
    desired: SnapshotModel,
    actual: SnapshotModel,
    hints: Seq<HintModel>,
    i: int,
    m: int,
    k: int,
)
    requires
        actual.sorted(),
        !hints_clash(hints),
        is_match(desired, actual, i, m),
        0 <= k < actual.tables[m].1.columns.len(),
        !actual.tables[m].1.columns[k].is_hidden,
        !is_column(desired.tables[i].1.columns, actual.tables[m].1.columns[k].name),
    ensures
        ({
            let d = difference(desired, actual, hints);
            let t = desired.tables[i].0;
            let c = actual.tables[m].1.columns[k];
            ||| d.tables_to_rebuild.contains(t)
            ||| d.columns_to_drop.contains((t, c.name))
            ||| is_renamed_from(d.columns_to_rename, t, c.name)
        }),
{
    let e = desired.tables[i];
    let t = e.0;
    let there = actual.tables[m].1;
    let c = there.columns[k];
    let d = difference(desired, actual, hints);
    lemma_matched_table(desired, actual, i, m);
    let change = entry_change(e, actual, hints);
    if change.rebuild {
        lemma_rebuild_listed(desired, actual, hints, i);
    } else {
        let de = e.1.columns;
        let ac = there.columns;
        let add = fresh_columns(de, ac);
        let lost = lost_columns(de, ac);
        let drop = column_names(lost);
        let all = gather(hints, hinted(t, de, ac, add, drop));
        let pairs = hinted_pairs(t, de, ac, add, drop, hints);
        let add1 = not_taken(add, pairs);
        let drop1 = after_removals(drop, pairs);
        let second = place_renames(de, ac, add1, drop1, drop1.len() as int);
        lemma_fresh(ac, de, k);
        let a = choose|a: int| 0 <= a < lost.len() && lost[a] == c;
        assert(drop[a] == c.name);
        lemma_pairs_apart(t, de, ac, add, drop, hints);
        lemma_apart_falls(all);
        assert forall|q: int| 0 <= q < pairs.len() implies 0 <= (#[trigger] pairs[q]).drop_at
            < drop.len() by {
            assert(pairs.contains(pairs[q]));
            lemma_same_pairs(all, pairs[q]);
            let h = lemma_pair_of_hint(t, de, ac, add, drop, hints, pairs[q]);
        }
        if exists|q: int| 0 <= q < pairs.len() && (#[trigger] pairs[q]).drop_at == a {
            let q = choose|q: int| 0 <= q < pairs.len() && (#[trigger] pairs[q]).drop_at == a;
            assert(pairs.contains(pairs[q]));
            lemma_same_pairs(all, pairs[q]);
            let h = lemma_pair_of_hint(t, de, ac, add, drop, hints, pairs[q]);
            let x = (pairs[q].from, pairs[q].to);
            assert(pair_names(pairs)[q] == x);
            assert(change.renamed[q] == x);
            lemma_rename_listed(desired, actual, hints, i, x);
            let r = choose|r: int|
                0 <= r < d.columns_to_rename.len() && d.columns_to_rename[r] == (t, x.0, x.1);
            assert(d.columns_to_rename[r].1 == c.name);
        } else {
            lemma_moved(drop, pairs, a);
            let b = moved(pairs, a);
            if has_partner(de, ac, add1, drop1, b) {
                let p = partner(de, ac, add1, drop1, b);
                assert(paired(de, ac, add1, drop1, b, p));
                lemma_in_place_renames(de, ac, add1, drop1, drop1.len() as int, b, p);
                let x = (drop1[b], add1[p].name);
                let q = choose|q: int| 0 <= q < second.len() && second[q] == x;
                assert(change.renamed[pairs.len() + q] == x);
                lemma_rename_listed(desired, actual, hints, i, x);
                let r = choose|r: int|
                    0 <= r < d.columns_to_rename.len() && d.columns_to_rename[r] == (t, x.0, x.1);
                assert(d.columns_to_rename[r].1 == c.name);
            } else {
                lemma_in_single_drops(de, ac, add1, drop1, drop1.len() as int, b);
                let q = choose|q: int| 0 <= q < change.drop.len() && change.drop[q] == c.name;
                assert(tagged(t, change.drop)[q] == (t, c.name));
                let f = drops_of(actual, hints);
                assert(f(e).contains((t, c.name)));
                lemma_gather_contains(desired.tables, f, (t, c.name));
            }
        }
    }
}

/// Every column that is dropped is one of the actual table, is not wanted, and nothing
/// holds it there.
pub proof fn lemma_dropped_column_is_free(
    desired: SnapshotModel,
    actual: SnapshotModel,
    hints: Seq<HintModel>,
    x: (Text, Text),
) -> (r: (int, int))
    requires
        hints_applicable(desired, actual, hints),
        desired.sorted(),
        difference(desired, actual, hints).columns_to_drop.contains(x),
    ensures
        ({
            let (m, k) = r;
            let table = actual.tables[m].1;
            &&& 0 <= m < actual.tables.len()
            &&& lower(actual.tables[m].0) == lower(x.0)
            &&& 0 <= k < table.columns.len()
            &&& lower(table.columns[k].name) == lower(x.1)
            &&& !cannot_be_dropped(table.columns[k], table, actual)
            &&& forall|i: int|
                0 <= i < desired.tables.len() && (#[trigger] desired.tables[i]).0 == x.0
                    ==> !is_column(desired.tables[i].1.columns, x.1)
        }),
{
    let c = lemma_dropped_columns_droppable(desired, actual, hints, x);
    let names = crate::schema::keys(actual.tables);
    lemma_name_index(names, x.0);
    let m = name_index(names, x.0)->0;
    let table = actual.tables[m].1;
    assert(names[m] == actual.tables[m].0);
    let k = choose|k: int| 0 <= k < table.columns.len() && table.columns[k] == c;
    lemma_droppable(c, table, actual);
    assert forall|i: int|
        0 <= i < desired.tables.len() && (#[trigger] desired.tables[i]).0 == x.0 implies !is_column(
        desired.tables[i].1.columns,
        x.1,
    ) by {
        let columns = desired.tables[i].1.columns;
        lemma_has_column(columns, c.name);
        if is_column(columns, x.1) {
            let q = choose|q: int|
                0 <= q < columns.len() && lower((#[trigger] columns[q]).name) == lower(x.1);
            assert(lower(columns[q].name) == lower(c.name));
        }
    }
    (m, k)
}

// ---------------------------------------------------------------------------
// Columns that get another name
// ---------------------------------------------------------------------------

/// Every rename joins a column of the actual table and one of the wanted table that are
/// alike in everything but the name: the type up to case, nullability, the place in the
/// primary key, the collation and the default; and neither is generated or hidden.
pub proof fn lemma_rename_joins_like_columns(
    desired: SnapshotModel,
    actual: SnapshotModel,
    hints: Seq<HintModel>,
    x: (Text, Text, Text),
) -> (r: (int, int, int, int))
    requires
        difference(desired, actual, hints).columns_to_rename.contains(x),
    ensures
        ({
            let (i, m, k, j) = r;
            let old_col = actual.tables[m].1.columns[k];
            let new_col = desired.tables[i].1.columns[j];
            &&& is_match(desired, actual, i, m)
            &&& desired.tables[i].0 == x.0
            &&& 0 <= k < actual.tables[m].1.columns.len()
            &&& 0 <= j < desired.tables[i].1.columns.len()
            &&& lower(old_col.name) == lower(x.1)
            &&& lower(new_col.name) == lower(x.2)
            &&& lower(old_col.col_type) == lower(new_col.col_type)
            &&& old_col.notnull == new_col.notnull
            &&& old_col.pk == new_col.pk
            &&& old_col.collation == new_col.collation
            &&& !defaults_differ(old_col.default_value, new_col.default_value)
            &&& !old_col.is_generated && !old_col.is_hidden
            &&& !new_col.is_generated && !new_col.is_hidden
        }),
{
    let i = lemma_renames_justified(desired, actual, hints, x);
    let names = crate::schema::keys(actual.tables);
    lemma_name_index(names, x.0);
    let m = name_index(names, x.0)->0;
    assert(names[m] == actual.tables[m].0);
    let de = desired.tables[i].1.columns;
    let ac = actual.tables[m].1.columns;
    let (k, j) = choose|k: int, j: int|
        0 <= k < ac.len() && 0 <= j < de.len() && same_name((#[trigger] ac[k]).name, x.1)
            && same_name((#[trigger] de[j]).name, x.2) && renamable(ac[k], de[j]);
    (i, m, k, j)
}

// ---------------------------------------------------------------------------
// Hints that can be carried out
// ---------------------------------------------------------------------------

proof fn lemma_falling_fits(pairs: Seq<PairModel>, n: int, k: int)
    requires
        falling(pairs),
        forall|q: int| 0 <= q < pairs.len() ==> 0 <= (#[trigger] pairs[q]).drop_at < n,
        0 <= k < pairs.len(),
    ensures
        pairs[k].drop_at < n - k,
    decreases k,
{
    if k > 0 {
        lemma_falling_fits(pairs, n, k - 1);
        assert(pairs[k - 1].drop_at > pairs[k].drop_at);
    }
}

/// Hints of which no two speak of the same column can always be carried out.
pub proof fn lemma_hints_fit(desired: SnapshotModel, actual: SnapshotModel, hints: Seq<HintModel>)
    requires
        !hints_clash(hints),
    ensures
        hints_applicable(desired, actual, hints),
{
    assert forall|i: int| 0 <= i < desired.tables.len() implies crate::diff::entry_hints_fit(
        #[trigger] desired.tables[i],
        actual,
        hints,
    ) by {
        let e = desired.tables[i];
        if let Some(there) = lookup(actual.tables, e.0) {
            let de = e.1.columns;
            let ac = there.columns;
            let add = fresh_columns(de, ac);
            let drop = column_names(lost_columns(de, ac));
            let all = gather(hints, hinted(e.0, de, ac, add, drop));
            let pairs = hinted_pairs(e.0, de, ac, add, drop, hints);
            lemma_pairs_apart(e.0, de, ac, add, drop, hints);
            lemma_apart_falls(all);
            assert forall|q: int| 0 <= q < pairs.len() implies 0 <= (#[trigger] pairs[q]).drop_at
                < drop.len() by {
                assert(pairs.contains(pairs[q]));
                lemma_same_pairs(all, pairs[q]);
                let h = lemma_pair_of_hint(e.0, de, ac, add, drop, hints, pairs[q]);
            }
            assert forall|k: int| 0 <= k < pairs.len() implies 0 <= (#[trigger] pairs[k]).drop_at
                < drop.len() - k by {
                lemma_falling_fits(pairs, drop.len() as int, k);
            }
        }
    }
}

// ---------------------------------------------------------------------------
// No difference
// ---------------------------------------------------------------------------

/// Where nothing has to change, a table has just the columns that are wanted: each visible
/// one of the one is in the other.
pub proof fn lemma_no_difference_means_same_columns(
    desired: SnapshotModel,
    actual: SnapshotModel,
    hints: Seq<HintModel>,
    i: int,
    m: int,
)
    requires
        actual.sorted(),
        !hints_clash(hints),
        is_match(desired, actual, i, m),
        difference(desired, actual, hints).nothing(),
    ensures
        forall|j: int|
            0 <= j < desired.tables[i].1.columns.len() && !(
            #[trigger] desired.tables[i].1.columns[j]).is_hidden ==> is_column(
                actual.tables[m].1.columns,
                desired.tables[i].1.columns[j].name,
            ),
        forall|k: int|
            0 <= k < actual.tables[m].1.columns.len() && !(
            #[trigger] actual.tables[m].1.columns[k]).is_hidden ==> is_column(
                desired.tables[i].1.columns,
                actual.tables[m].1.columns[k].name,
            ),
{
    let d = difference(desired, actual, hints);
    let de = desired.tables[i].1.columns;
    let ac = actual.tables[m].1.columns;
    assert forall|j: int| 0 <= j < de.len() && !(#[trigger] de[j]).is_hidden implies is_column(
        ac,
        de[j].name,
    ) by {
        if !is_column(ac, de[j].name) {
            lemma_missing_column_comes(desired, actual, hints, i, m, j);
            assert(d.tables_to_rebuild.len() == 0);
            assert(d.columns_to_add.len() == 0);
            assert(d.columns_to_rename.len() == 0);
        }
    }
    assert forall|k: int| 0 <= k < ac.len() && !(#[trigger] ac[k]).is_hidden implies is_column(
        de,
        ac[k].name,
    ) by {
        if !is_column(de, ac[k].name) {
            lemma_unwanted_column_goes(desired, actual, hints, i, m, k);
            assert(d.tables_to_rebuild.len() == 0);
            assert(d.columns_to_drop.len() == 0);
            assert(d.columns_to_rename.len() == 0);
        }
    }
}

} // verus!
