//! Putting things in an order in which nothing comes before what it needs.

use vstd::prelude::*;

use crate::lists::holds_name;
#[allow(unused_imports)]
use crate::lists::has_name;
use crate::search::chars_have_word;
#[allow(unused_imports)]
use crate::search::has_word;
use crate::text::{lower_chars, str_equal, Text};
#[allow(unused_imports)]
use crate::text::lower;

verus! {

// ---------------------------------------------------------------------------
// By name
// ---------------------------------------------------------------------------

/// Something with a name, and the names of what it needs.
#[derive(Debug)]
pub struct Item {
    pub name: String,
    pub needs: Vec<String>,
}

#[verifier::ext_equal]
pub struct ItemModel {
    pub name: Text,
    pub needs: Seq<Text>,
}

impl DeepView for Item {
    type V = ItemModel;

    open spec fn deep_view(&self) -> ItemModel {
        ItemModel { name: self.name@, needs: self.needs.deep_view() }
    }
}

/// Whether `x` is one of what `item` needs.
pub open spec fn needs_item(item: ItemModel, x: ItemModel) -> bool {
    has_name(item.needs, x.name)
}

/// Whether something that `item` needs is among the rest.
pub open spec fn waits(item: ItemModel, rest: Seq<ItemModel>) -> bool {
    exists|k: int| 0 <= k < rest.len() && needs_item(item, #[trigger] rest[k])
}

/// One pass over the rest, from position `i` on: what waits for nothing in the rest
/// leaves it at once.
pub open spec fn pass(rest: Seq<ItemModel>, i: int, out: Seq<ItemModel>) -> (
    Seq<ItemModel>,
    Seq<ItemModel>,
)
    decreases rest.len() - i,
{
    if i < 0 || i >= rest.len() {
        (rest, out)
    } else if waits(rest[i], rest) {
        pass(rest, i + 1, out)
    } else {
        pass(rest.remove(i), i, out.push(rest[i]))
    }
}

/// Pass after pass. Where one moves nothing, the rest waits for itself and comes
/// last as it stands.
pub open spec fn arranged_from(rest: Seq<ItemModel>, out: Seq<ItemModel>) -> Seq<ItemModel>
    decreases rest.len(),
{
    if rest.len() == 0 {
        out
    } else {
        let p = pass(rest, 0, out);
        if p.0.len() >= rest.len() {
            out + rest
        } else {
            arranged_from(p.0, p.1)
        }
    }
}

/// The items in an order in which each comes behind what it needs.
pub open spec fn arranged(items: Seq<ItemModel>) -> Seq<ItemModel> {
    arranged_from(items, Seq::empty())
}

/// The names of the items.
pub open spec fn item_names(items: Seq<ItemModel>) -> Seq<Text> {
    Seq::new(items.len(), |i: int| items[i].name)
}

/// Whether something that `rest[i]` needs is among the rest.
fn is_waiting(rest: &Vec<Item>, i: usize) -> (r: bool)
    requires
        i < rest.len(),
    ensures
        r == waits(rest.deep_view()[i as int], rest.deep_view()),
{
    let ghost all = rest.deep_view();
    assert(all[i as int] == rest@[i as int].deep_view());
    let mut k: usize = 0;
    while k < rest.len()
        invariant
            k <= rest.len(),
            i < rest.len(),
            all == rest.deep_view(),
            all[i as int] == rest@[i as int].deep_view(),
            forall|j: int| 0 <= j < k ==> !needs_item(all[i as int], #[trigger] all[j]),
        decreases rest.len() - k,
    {
        assert(all[k as int] == rest@[k as int].deep_view());
        if holds_name(&rest[i].needs, rest[k].name.as_str()) {
            assert(needs_item(all[i as int], all[k as int]));
            return true;
        }
        k += 1;
    }
    false
}

/// The names in an order in which each comes behind what it needs. Where the needs
/// go round in a circle, what is left comes last as it stands.
pub fn arrange(items: Vec<Item>) -> (r: Vec<String>)
    ensures
        r.deep_view() == item_names(arranged(items.deep_view())),
{
    let ghost whole = arranged(items.deep_view());
    let ghost mut done: Seq<ItemModel> = Seq::empty();
    let mut rest = items;
    let mut names: Vec<String> = Vec::new();
    assert(names.deep_view() =~= item_names(done));
    while rest.len() > 0
        invariant
            arranged_from(rest.deep_view(), done) == whole,
            whole == arranged(items.deep_view()),
            names.deep_view() == item_names(done),
        decreases rest.len(),
    {
        let before = rest.len();
        let ghost rest0 = rest.deep_view();
        let ghost done0 = done;
        let mut i: usize = 0;
        while i < rest.len()
            invariant
                i <= rest.len() <= before,
                before == rest0.len(),
                pass(rest.deep_view(), i as int, done) == pass(rest0, 0, done0),
                names.deep_view() == item_names(done),
                rest.len() == before ==> rest.deep_view() == rest0 && done == done0,
            decreases rest.len() - i,
        {
            let ghost here = rest.deep_view();
            if is_waiting(&rest, i) {
                i += 1;
            } else {
                let ghost shown = names.deep_view();
                assert(here[i as int] == rest@[i as int].deep_view());
                let item = rest.remove(i);
                assert(rest.deep_view() =~= here.remove(i as int));
                names.push(item.name);
                assert(names.deep_view() =~= shown.push(here[i as int].name));
                proof {
                    done = done.push(here[i as int]);
                }
                assert(names.deep_view() =~= item_names(done));
            }
        }
        assert(pass(rest0, 0, done0) == (rest.deep_view(), done));
        if rest.len() == before {
            let ghost shown = names.deep_view();
            let mut k: usize = 0;
            assert(shown + item_names(rest0).take(0) =~= shown);
            while k < rest.len()
                invariant
                    k <= rest.len(),
                    rest.deep_view() == rest0,
                    names.deep_view() == shown + item_names(rest0).take(k as int),
                decreases rest.len() - k,
            {
                let ghost now = names.deep_view();
                assert(rest0[k as int] == rest@[k as int].deep_view());
                names.push(rest[k].name.clone());
                assert(names.deep_view() =~= now.push(rest0[k as int].name));
                assert(names.deep_view() =~= shown + item_names(rest0).take(k + 1));
                k += 1;
            }
            assert(item_names(rest0).take(k as int) =~= item_names(rest0));
            assert(names.deep_view() =~= item_names(done0 + rest0));
            return names;
        }
    }
    names
}

// ---------------------------------------------------------------------------
// Laws
// ---------------------------------------------------------------------------

/// A pass moves items and loses none.
proof fn lemma_pass(rest: Seq<ItemModel>, i: int, out: Seq<ItemModel>)
    requires
        0 <= i <= rest.len(),
    ensures
        ({
            let p = pass(rest, i, out);
            &&& p.0.len() <= rest.len()
            &&& out.len() <= p.1.len()
            &&& p.1.take(out.len() as int) == out
            &&& p.0.to_multiset().add(p.1.to_multiset()) =~= rest.to_multiset().add(
                out.to_multiset(),
            )
            &&& p.0.len() == rest.len() ==> p.0 == rest && p.1 == out
        }),
        forall|k: int|
            0 <= k < pass(rest, i, out).0.len() ==> rest.contains(
                #[trigger] pass(rest, i, out).0[k],
            ),
    decreases rest.len() - i,
{
    broadcast use vstd::seq_lib::group_to_multiset_ensures;

    if i < rest.len() {
        if waits(rest[i], rest) {
            lemma_pass(rest, i + 1, out);
        } else {
            let r = rest.remove(i);
            let o = out.push(rest[i]);
            lemma_pass(r, i, o);
            let p = pass(rest, i, out);
            assert(p.1.take(out.len() as int) =~= p.1.take(o.len() as int).take(out.len() as int));
            assert(o.take(out.len() as int) =~= out);
            assert(o.to_multiset() =~= out.to_multiset().insert(rest[i]));
            assert(r.to_multiset() =~= rest.to_multiset().remove(rest[i]));
            assert(rest.contains(rest[i]));
            assert(rest.to_multiset().contains(rest[i]));
            assert(r.to_multiset().add(o.to_multiset()) =~= rest.to_multiset().add(
                out.to_multiset(),
            ));
            assert forall|k: int| 0 <= k < p.0.len() implies rest.contains(#[trigger] p.0[k]) by {
                assert(r.contains(p.0[k]));
                let m = choose|m: int| 0 <= m < r.len() && r[m] == p.0[k];
                if m < i {
                    assert(rest[m] == p.0[k]);
                } else {
                    assert(rest[m + 1] == p.0[k]);
                }
            }
        }
    } else {
        assert(out.take(out.len() as int) =~= out);
        assert forall|k: int| 0 <= k < rest.len() implies rest.contains(#[trigger] rest[k]) by {}
    }
}

/// Arranging loses nothing and adds nothing.
pub proof fn lemma_arranged_permutes(items: Seq<ItemModel>)
    ensures
        arranged(items).to_multiset() == items.to_multiset(),
{
    lemma_arranged_from_permutes(items, Seq::empty());
    assert(items.to_multiset().add(Seq::<ItemModel>::empty().to_multiset())
        =~= items.to_multiset()) by {
        broadcast use vstd::seq_lib::group_to_multiset_ensures;

        assert(Seq::<ItemModel>::empty().to_multiset().len() == 0);
    }
}

proof fn lemma_arranged_from_permutes(rest: Seq<ItemModel>, out: Seq<ItemModel>)
    ensures
        arranged_from(rest, out).to_multiset() =~= rest.to_multiset().add(out.to_multiset()),
        out.len() <= arranged_from(rest, out).len(),
        arranged_from(rest, out).take(out.len() as int) == out,
    decreases rest.len(),
{
    broadcast use vstd::seq_lib::group_to_multiset_ensures;

    if rest.len() == 0 {
        assert(rest =~= Seq::empty());
        assert(rest.to_multiset().len() == 0);
        assert(out.take(out.len() as int) =~= out);
    } else {
        let p = pass(rest, 0, out);
        lemma_pass(rest, 0, out);
        if p.0.len() >= rest.len() {
            vstd::seq_lib::lemma_multiset_commutative(out, rest);
            assert((out + rest).take(out.len() as int) =~= out);
        } else {
            lemma_arranged_from_permutes(p.0, p.1);
            let w = arranged_from(p.0, p.1);
            assert(w.take(out.len() as int) =~= w.take(p.1.len() as int).take(out.len() as int));
        }
    }
}

/// Whether no item of the first `n` needs itself or one that comes behind it.
pub open spec fn behind_needs(s: Seq<ItemModel>, n: int) -> bool {
    forall|i: int, j: int|
        0 <= i < n && i <= j < s.len() ==> !needs_item(#[trigger] s[i], #[trigger] s[j])
}

/// Whether every item waits for another of the same list.
pub open spec fn all_wait(s: Seq<ItemModel>) -> bool {
    forall|i: int| 0 <= i < s.len() ==> waits(#[trigger] s[i], s)
}

/// In the arranged list nothing comes before what it needs, but for a last part each
/// of whose items needs another of that part, or itself.
pub proof fn lemma_arranged_behind_needs(items: Seq<ItemModel>) -> (n: int)
    ensures
        0 <= n <= arranged(items).len(),
        behind_needs(arranged(items), n),
        all_wait(arranged(items).skip(n)),
{
    lemma_arranged_from_behind_needs(items, Seq::empty())
}

/// Whether nothing in `out` needs itself, a later item of `out`, or one of the rest.
spec fn settled(rest: Seq<ItemModel>, out: Seq<ItemModel>) -> bool {
    &&& behind_needs(out, out.len() as int)
    &&& forall|i: int, k: int|
        0 <= i < out.len() && 0 <= k < rest.len() ==> !needs_item(
            #[trigger] out[i],
            #[trigger] rest[k],
        )
}

proof fn lemma_settled_pass(rest: Seq<ItemModel>, i: int, out: Seq<ItemModel>)
    requires
        0 <= i <= rest.len(),
        settled(rest, out),
    ensures
        settled(pass(rest, i, out).0, pass(rest, i, out).1),
        pass(rest, i, out).0.len() == rest.len() ==> forall|k: int|
            i <= k < rest.len() ==> waits(#[trigger] rest[k], rest),
    decreases rest.len() - i,
{
    if i < rest.len() {
        if waits(rest[i], rest) {
            lemma_settled_pass(rest, i + 1, out);
        } else {
            let r = rest.remove(i);
            let o = out.push(rest[i]);
            assert forall|a: int, k: int| 0 <= a < o.len() && 0 <= k < r.len() implies !needs_item(
                #[trigger] o[a],
                #[trigger] r[k],
            ) by {
                let m = if k < i {
                    k
                } else {
                    k + 1
                };
                assert(r[k] == rest[m]);
                if a < out.len() {
                    assert(!needs_item(out[a], rest[m]));
                } else {
                    assert(!needs_item(rest[i], rest[m]));
                }
            }
            assert forall|a: int, b: int| 0 <= a < o.len() && a <= b < o.len() implies !needs_item(
                #[trigger] o[a],
                #[trigger] o[b],
            ) by {
                if b < out.len() {
                    assert(!needs_item(out[a], out[b]));
                } else if a < out.len() {
                    assert(!needs_item(out[a], rest[i]));
                } else {
                    assert(!needs_item(rest[i], rest[i]));
                }
            }
            lemma_settled_pass(r, i, o);
            lemma_pass(r, i, o);
        }
    }
}

proof fn lemma_stuck(rest: Seq<ItemModel>, out: Seq<ItemModel>)
    requires
        settled(rest, out),
        all_wait(rest),
    ensures
        behind_needs(out + rest, out.len() as int),
        all_wait((out + rest).skip(out.len() as int)),
{
    let s = out + rest;
    assert forall|i: int, j: int| 0 <= i < out.len() && i <= j < s.len() implies !needs_item(
        #[trigger] s[i],
        #[trigger] s[j],
    ) by {
        if j < out.len() {
            assert(!needs_item(out[i], out[j]));
        } else {
            assert(!needs_item(out[i], rest[j - out.len()]));
        }
    }
    assert(s.skip(out.len() as int) =~= rest);
}

proof fn lemma_arranged_from_behind_needs(rest: Seq<ItemModel>, out: Seq<ItemModel>) -> (n: int)
    requires
        settled(rest, out),
    ensures
        0 <= n <= arranged_from(rest, out).len(),
        behind_needs(arranged_from(rest, out), n),
        all_wait(arranged_from(rest, out).skip(n)),
    decreases rest.len(),
{
    if rest.len() == 0 {
        out.len() as int
    } else {
        let p = pass(rest, 0, out);
        assert(settled(p.0, p.1) && (p.0.len() == rest.len() ==> all_wait(rest))) by {
            lemma_settled_pass(rest, 0, out);
        }
        assert(p.0.len() <= rest.len()) by {
            lemma_pass(rest, 0, out);
        }
        if p.0.len() >= rest.len() {
            lemma_stuck(rest, out);
            out.len() as int
        } else {
            lemma_arranged_from_behind_needs(p.0, p.1)
        }
    }
}

// ---------------------------------------------------------------------------
// By mention
// ---------------------------------------------------------------------------

/// Something with a name and, where it is known, the statement that makes it.
#[derive(Debug)]
pub struct Named {
    pub name: String,
    pub sql: Option<String>,
}

#[verifier::ext_equal]
pub struct NamedModel {
    pub name: Text,
    pub sql: Option<Text>,
}

impl DeepView for Named {
    type V = NamedModel;

    open spec fn deep_view(&self) -> NamedModel {
        NamedModel { name: self.name@, sql: self.sql.deep_view() }
    }
}

/// Whether a statement has a name as one of its words, whatever the case.
#[verifier::opaque]
pub open spec fn mentions(sql: Text, name: Text) -> bool {
    has_word(lower(sql), lower(name))
}

/// Whether a statement has a table's name as one of its words, whatever the case.
pub fn view_depends_on_table(view_sql: &str, table_name: &str) -> (r: bool)
    ensures
        r == mentions(view_sql@, table_name@),
{
    reveal(mentions);
    let v = lower_chars(view_sql);
    let w = lower_chars(table_name);
    chars_have_word(v.as_slice(), w.as_slice())
}

/// Whether the statement of `x` mentions the other one.
pub open spec fn depends(x: NamedModel, other: NamedModel) -> bool {
    other.name != x.name && x.sql is Some && mentions(x.sql->0, other.name)
}

/// Whether `x` depends on something in the rest.
pub open spec fn held_back(x: NamedModel, rest: Seq<NamedModel>) -> bool {
    exists|k: int| 0 <= k < rest.len() && depends(x, #[trigger] rest[k])
}

/// Those of the first `n` of the rest that are held back, or those that are not.
pub open spec fn split_off(rest: Seq<NamedModel>, n: int, held: bool) -> Seq<NamedModel>
    decreases n,
{
    if n <= 0 {
        Seq::empty()
    } else {
        let before = split_off(rest, n - 1, held);
        if held_back(rest[n - 1], rest) == held {
            before.push(rest[n - 1])
        } else {
            before
        }
    }
}

/// Round after round: what depends on nothing in the rest comes next. Where there is
/// no such thing, the rest comes last as it stands.
pub open spec fn staged_from(rest: Seq<NamedModel>, out: Seq<NamedModel>) -> Seq<NamedModel>
    decreases rest.len(),
{
    if rest.len() == 0 {
        out
    } else {
        let free = split_off(rest, rest.len() as int, false);
        let held = split_off(rest, rest.len() as int, true);
        if free.len() == 0 {
            out + rest
        } else {
            proof {
                lemma_split_len(rest, rest.len() as int);
            }
            staged_from(held, out + free)
        }
    }
}

/// The things in an order in which each comes behind what it mentions.
pub open spec fn staged(all: Seq<NamedModel>) -> Seq<NamedModel> {
    staged_from(all, Seq::empty())
}

/// The names of the things.
pub open spec fn names_in(all: Seq<NamedModel>) -> Seq<Text> {
    Seq::new(all.len(), |i: int| all[i].name)
}

pub proof fn lemma_split_len(rest: Seq<NamedModel>, n: int)
    requires
        0 <= n <= rest.len(),
    ensures
        split_off(rest, n, true).len() + split_off(rest, n, false).len() == n,
    decreases n,
{
    if n > 0 {
        lemma_split_len(rest, n - 1);
    }
}

/// Whether `rest[i]` depends on something in the rest.
fn is_held_back(rest: &Vec<Named>, i: usize) -> (r: bool)
    requires
        i < rest.len(),
    ensures
        r == held_back(rest.deep_view()[i as int], rest.deep_view()),
{
    let ghost all = rest.deep_view();
    assert(all[i as int] == rest@[i as int].deep_view());
    match &rest[i].sql {
        Some(sql) => {
            let mut k: usize = 0;
            while k < rest.len()
                invariant
                    k <= rest.len(),
                    i < rest.len(),
                    all == rest.deep_view(),
                    all[i as int] == rest@[i as int].deep_view(),
                    rest@[i as int].sql == Some(*sql),
                    forall|j: int| 0 <= j < k ==> !depends(all[i as int], #[trigger] all[j]),
                decreases rest.len() - k,
            {
                assert(all[k as int] == rest@[k as int].deep_view());
                if !str_equal(rest[k].name.as_str(), rest[i].name.as_str())
                    && view_depends_on_table(sql.as_str(), rest[k].name.as_str()) {
                    assert(depends(all[i as int], all[k as int]));
                    return true;
                }
                k += 1;
            }
            false
        },
        None => false,
    }
}

/// The names in an order in which each comes behind what its statement mentions.
/// Where the mentions go round in a circle, what is left comes last as it stands.
pub fn stage(all: Vec<Named>) -> (r: Vec<String>)
    ensures
        r.deep_view() == names_in(staged(all.deep_view())),
{
    let ghost whole = staged(all.deep_view());
    let ghost mut done: Seq<NamedModel> = Seq::empty();
    let mut rest = all;
    let mut names: Vec<String> = Vec::new();
    assert(names.deep_view() =~= names_in(done));
    while rest.len() > 0
        invariant
            staged_from(rest.deep_view(), done) == whole,
            whole == staged(all.deep_view()),
            names.deep_view() == names_in(done),
        decreases rest.len(),
    {
        let ghost here = rest.deep_view();
        let ghost n = here.len() as int;
        let mut free: Vec<Named> = Vec::new();
        let mut held: Vec<Named> = Vec::new();
        let mut i: usize = 0;
        assert(free.deep_view() =~= Seq::empty());
        assert(held.deep_view() =~= Seq::empty());
        while i < rest.len()
            invariant
                i <= rest.len(),
                here == rest.deep_view(),
                free.deep_view() == split_off(here, i as int, false),
                held.deep_view() == split_off(here, i as int, true),
            decreases rest.len() - i,
        {
            let ghost f0 = free.deep_view();
            let ghost h0 = held.deep_view();
            assert(here[i as int] == rest@[i as int].deep_view());
            let copy = Named {
                name: rest[i].name.clone(),
                sql: crate::lists::clone_optional(&rest[i].sql),
            };
            if is_held_back(&rest, i) {
                held.push(copy);
                assert(held.deep_view() =~= h0.push(here[i as int]));
            } else {
                free.push(copy);
                assert(free.deep_view() =~= f0.push(here[i as int]));
            }
            i += 1;
        }
        proof {
            lemma_split_len(here, n);
        }
        let ghost f = free.deep_view();
        let ghost h = held.deep_view();
        if free.len() == 0 {
            append_names(&mut names, &rest);
            assert(names.deep_view() =~= names_in(done + here));
            return names;
        }
        append_names(&mut names, &free);
        assert(names.deep_view() =~= names_in(done + f));
        proof {
            done = done + f;
        }
        rest = held;
    }
    names
}

/// Appends the names of the things.
fn append_names(names: &mut Vec<String>, list: &Vec<Named>)
    ensures
        final(names).deep_view() == old(names).deep_view() + names_in(list.deep_view()),
{
    let ghost shown = names.deep_view();
    let ghost all = names_in(list.deep_view());
    let mut k: usize = 0;
    assert(shown + all.take(0) =~= shown);
    while k < list.len()
        invariant
            k <= list.len(),
            all == names_in(list.deep_view()),
            names.deep_view() == shown + all.take(k as int),
        decreases list.len() - k,
    {
        let ghost now = names.deep_view();
        names.push(list[k].name.clone());
        assert(names.deep_view() =~= now.push(all[k as int]));
        assert(names.deep_view() =~= shown + all.take(k + 1));
        k += 1;
    }
    assert(all.take(k as int) =~= all);
}

/// Staging loses nothing and adds nothing.
pub proof fn lemma_staged_permutes(all: Seq<NamedModel>)
    ensures
        staged(all).to_multiset() == all.to_multiset(),
{
    lemma_staged_from_permutes(all, Seq::empty());
    assert(all.to_multiset().add(Seq::<NamedModel>::empty().to_multiset()) =~= all.to_multiset())
        by {
        broadcast use vstd::seq_lib::group_to_multiset_ensures;

        assert(Seq::<NamedModel>::empty().to_multiset().len() == 0);
    }
}

proof fn lemma_split_permutes(rest: Seq<NamedModel>, n: int)
    requires
        0 <= n <= rest.len(),
    ensures
        split_off(rest, n, true).to_multiset().add(split_off(rest, n, false).to_multiset())
            =~= rest.take(n).to_multiset(),
    decreases n,
{
    broadcast use vstd::seq_lib::group_to_multiset_ensures;

    if n > 0 {
        lemma_split_permutes(rest, n - 1);
        assert(rest.take(n) =~= rest.take(n - 1).push(rest[n - 1]));
        let a = split_off(rest, n - 1, true);
        let b = split_off(rest, n - 1, false);
        assert(a.push(rest[n - 1]).to_multiset() =~= a.to_multiset().insert(rest[n - 1]));
        assert(b.push(rest[n - 1]).to_multiset() =~= b.to_multiset().insert(rest[n - 1]));
    } else {
        assert(rest.take(0) =~= Seq::empty());
        assert(Seq::<NamedModel>::empty().to_multiset().len() == 0);
    }
}

proof fn lemma_staged_from_permutes(rest: Seq<NamedModel>, out: Seq<NamedModel>)
    ensures
        staged_from(rest, out).to_multiset() =~= rest.to_multiset().add(out.to_multiset()),
    decreases rest.len(),
{
    broadcast use vstd::seq_lib::group_to_multiset_ensures;

    if rest.len() == 0 {
        assert(rest =~= Seq::empty());
        assert(rest.to_multiset().len() == 0);
    } else {
        let n = rest.len() as int;
        let free = split_off(rest, n, false);
        let held = split_off(rest, n, true);
        if free.len() == 0 {
            vstd::seq_lib::lemma_multiset_commutative(out, rest);
        } else {
            lemma_split_len(rest, n);
            lemma_split_permutes(rest, n);
            assert(rest.take(n) =~= rest);
            vstd::seq_lib::lemma_multiset_commutative(out, free);
            lemma_staged_from_permutes(held, out + free);
        }
    }
}

/// Whether none of the first `n` depends on one that comes behind it.
pub open spec fn behind_mentions(s: Seq<NamedModel>, n: int) -> bool {
    forall|i: int, j: int|
        0 <= i < n && i <= j < s.len() ==> !depends(#[trigger] s[i], #[trigger] s[j])
}

/// Whether each depends on another of the same list.
pub open spec fn all_held(s: Seq<NamedModel>) -> bool {
    forall|i: int| 0 <= i < s.len() ==> held_back(#[trigger] s[i], s)
}

/// In the staged list nothing comes before what it mentions, but for a last part
/// each of whose members mentions another of that part.
pub proof fn lemma_staged_behind_mentions(all: Seq<NamedModel>) -> (n: int)
    ensures
        0 <= n <= staged(all).len(),
        behind_mentions(staged(all), n),
        all_held(staged(all).skip(n)),
{
    lemma_staged_from_behind_mentions(all, Seq::empty())
}

spec fn done_before(rest: Seq<NamedModel>, out: Seq<NamedModel>) -> bool {
    &&& behind_mentions(out, out.len() as int)
    &&& forall|i: int, k: int|
        0 <= i < out.len() && 0 <= k < rest.len() ==> !depends(
            #[trigger] out[i],
            #[trigger] rest[k],
        )
}

proof fn lemma_split_members(rest: Seq<NamedModel>, n: int, held: bool)
    requires
        0 <= n <= rest.len(),
    ensures
        forall|k: int|
            0 <= k < split_off(rest, n, held).len() ==> rest.contains(
                #[trigger] split_off(rest, n, held)[k],
            ) && held_back(split_off(rest, n, held)[k], rest) == held,
    decreases n,
{
    if n > 0 {
        lemma_split_members(rest, n - 1, held);
        let before = split_off(rest, n - 1, held);
        let now = split_off(rest, n, held);
        assert forall|k: int| 0 <= k < now.len() implies rest.contains(#[trigger] now[k])
            && held_back(now[k], rest) == held by {
            if k < before.len() {
                assert(now[k] == before[k]);
            } else {
                assert(now[k] == rest[n - 1]);
            }
        }
    }
}

proof fn lemma_nothing_free(rest: Seq<NamedModel>, n: int)
    requires
        0 <= n <= rest.len(),
        split_off(rest, n, false).len() == 0,
    ensures
        forall|k: int| 0 <= k < n ==> held_back(#[trigger] rest[k], rest),
    decreases n,
{
    if n > 0 {
        lemma_nothing_free(rest, n - 1);
    }
}

/// One round leaves nothing behind what it mentions.
proof fn lemma_round_done(rest: Seq<NamedModel>, out: Seq<NamedModel>)
    requires
        done_before(rest, out),
    ensures
        done_before(
            split_off(rest, rest.len() as int, true),
            out + split_off(rest, rest.len() as int, false),
        ),
{
    let m = rest.len() as int;
    let free = split_off(rest, m, false);
    let held = split_off(rest, m, true);
    lemma_split_members(rest, m, false);
    lemma_split_members(rest, m, true);
    let o = out + free;
    assert forall|i: int, k: int| 0 <= i < o.len() && 0 <= k < held.len() implies !depends(
        #[trigger] o[i],
        #[trigger] held[k],
    ) by {
        assert(rest.contains(held[k]));
        let q = choose|q: int| 0 <= q < rest.len() && rest[q] == held[k];
        if i < out.len() {
            assert(!depends(out[i], rest[q]));
        } else {
            assert(!held_back(free[i - out.len()], rest));
        }
    }
    assert forall|i: int, j: int| 0 <= i < o.len() && i <= j < o.len() implies !depends(
        #[trigger] o[i],
        #[trigger] o[j],
    ) by {
        if j < out.len() {
            assert(!depends(out[i], out[j]));
        } else {
            assert(rest.contains(free[j - out.len()]));
            let q = choose|q: int| 0 <= q < rest.len() && rest[q] == free[j - out.len()];
            if i < out.len() {
                assert(!depends(out[i], rest[q]));
            } else {
                assert(!held_back(free[i - out.len()], rest));
            }
        }
    }
}

proof fn lemma_staged_from_behind_mentions(rest: Seq<NamedModel>, out: Seq<NamedModel>) -> (n: int)
    requires
        done_before(rest, out),
    ensures
        0 <= n <= staged_from(rest, out).len(),
        behind_mentions(staged_from(rest, out), n),
        all_held(staged_from(rest, out).skip(n)),
    decreases rest.len(),
{
    if rest.len() == 0 {
        out.len() as int
    } else {
        let m = rest.len() as int;
        let free = split_off(rest, m, false);
        let held = split_off(rest, m, true);
        lemma_split_len(rest, m);
        if free.len() == 0 {
            lemma_nothing_free(rest, m);
            let s = out + rest;
            assert forall|i: int, j: int| 0 <= i < out.len() && i <= j < s.len() implies !depends(
                #[trigger] s[i],
                #[trigger] s[j],
            ) by {
                if j < out.len() {
                    assert(!depends(out[i], out[j]));
                } else {
                    assert(!depends(out[i], rest[j - out.len()]));
                }
            }
            assert(s.skip(out.len() as int) =~= rest);
            out.len() as int
        } else {
            lemma_round_done(rest, out);
            lemma_staged_from_behind_mentions(held, out + free)
        }
    }
}

} // verus!
