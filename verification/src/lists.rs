//! Sequences: gathering, first matches, the order of texts, sorted name sets.

use vstd::prelude::*;

use crate::text::{chars_of, lower_chars, names_equal, str_equal, Text};
#[allow(unused_imports)]
use crate::text::{lower, same_name};

verus! {

// ---------------------------------------------------------------------------
// Gathering
// ---------------------------------------------------------------------------

/// What `f` gives for each item, one after the other.
pub open spec fn gather<A, B>(s: Seq<A>, f: spec_fn(A) -> Seq<B>) -> Seq<B>
    decreases s.len(),
{
    if s.len() == 0 {
        Seq::empty()
    } else {
        gather(s.drop_last(), f) + f(s.last())
    }
}

/// One step of gathering from the front.
pub proof fn lemma_gather_step<A, B>(s: Seq<A>, i: int, f: spec_fn(A) -> Seq<B>)
    requires
        0 <= i < s.len(),
    ensures
        gather(s.take(i + 1), f) == gather(s.take(i), f) + f(s[i]),
{
    assert(s.take(i + 1).drop_last() =~= s.take(i));
}

/// Where an item of a gathered sequence comes from.
pub proof fn lemma_gather_contains<A, B>(s: Seq<A>, f: spec_fn(A) -> Seq<B>, b: B)
    ensures
        gather(s, f).contains(b) <==> exists|i: int|
            0 <= i < s.len() && f(#[trigger] s[i]).contains(b),
    decreases s.len(),
{
    if s.len() > 0 {
        let d = s.drop_last();
        lemma_gather_contains(d, f, b);
        let g = gather(d, f);
        let h = f(s.last());
        if gather(s, f).contains(b) {
            let k = choose|k: int| 0 <= k < (g + h).len() && (g + h)[k] == b;
            if k < g.len() {
                assert(g[k] == b);
                let i = choose|i: int| 0 <= i < d.len() && f(#[trigger] d[i]).contains(b);
                assert(s[i] == d[i]);
            } else {
                assert(h[k - g.len()] == b);
                assert(s[s.len() - 1] == s.last());
            }
        }
        if exists|i: int| 0 <= i < s.len() && f(#[trigger] s[i]).contains(b) {
            let i = choose|i: int| 0 <= i < s.len() && f(#[trigger] s[i]).contains(b);
            if i < d.len() {
                assert(d[i] == s[i]);
                let k = choose|k: int| 0 <= k < g.len() && g[k] == b;
                assert((g + h)[k] == b);
            } else {
                let k = choose|k: int| 0 <= k < h.len() && h[k] == b;
                assert((g + h)[g.len() + k] == b);
            }
        }
    }
}

/// Nothing is gathered where every item gives nothing.
pub proof fn lemma_gather_empty<A, B>(s: Seq<A>, f: spec_fn(A) -> Seq<B>)
    requires
        forall|i: int| 0 <= i < s.len() ==> f(#[trigger] s[i]).len() == 0,
    ensures
        gather(s, f) == Seq::<B>::empty(),
    decreases s.len(),
{
    if s.len() > 0 {
        let d = s.drop_last();
        assert forall|i: int| 0 <= i < d.len() implies f(#[trigger] d[i]).len() == 0 by {
            assert(d[i] == s[i]);
        }
        lemma_gather_empty(d, f);
        assert(s[s.len() - 1] == s.last());
        assert(gather(s, f) =~= Seq::<B>::empty());
    }
}

/// Two functions that agree on the items gather the same.
pub proof fn lemma_gather_congruent<A, B>(s: Seq<A>, f: spec_fn(A) -> Seq<B>, g: spec_fn(A) -> Seq<B>)
    requires
        forall|i: int| 0 <= i < s.len() ==> f(#[trigger] s[i]) == g(s[i]),
    ensures
        gather(s, f) == gather(s, g),
    decreases s.len(),
{
    if s.len() > 0 {
        let d = s.drop_last();
        assert forall|i: int| 0 <= i < d.len() implies f(#[trigger] d[i]) == g(d[i]) by {
            assert(d[i] == s[i]);
        }
        lemma_gather_congruent(d, f, g);
        assert(s[s.len() - 1] == s.last());
    }
}

// ---------------------------------------------------------------------------
// Names
// ---------------------------------------------------------------------------

/// The first position from `i` on that holds the name `n`, up to ASCII case.
pub open spec fn name_index_from(names: Seq<Text>, n: Text, i: int) -> Option<int>
    decreases names.len() - i,
{
    if i < 0 || i >= names.len() {
        None
    } else if same_name(names[i], n) {
        Some(i)
    } else {
        name_index_from(names, n, i + 1)
    }
}

/// The first position that holds the name `n`, up to ASCII case.
pub open spec fn name_index(names: Seq<Text>, n: Text) -> Option<int> {
    name_index_from(names, n, 0)
}

/// Whether `n` is one of the names, up to ASCII case.
pub open spec fn has_name(names: Seq<Text>, n: Text) -> bool {
    exists|i: int| 0 <= i < names.len() && same_name(#[trigger] names[i], n)
}

pub proof fn lemma_name_index_from(names: Seq<Text>, n: Text, i: int)
    requires
        0 <= i <= names.len(),
    ensures
        match name_index_from(names, n, i) {
            Some(k) => {
                &&& i <= k < names.len()
                &&& same_name(names[k], n)
                &&& forall|j: int| i <= j < k ==> !same_name(#[trigger] names[j], n)
            },
            None => forall|j: int| i <= j < names.len() ==> !same_name(#[trigger] names[j], n),
        },
    decreases names.len() - i,
{
    if i < names.len() && !same_name(names[i], n) {
        lemma_name_index_from(names, n, i + 1);
    }
}

/// `name_index` finds the first match, and finds one exactly where there is one.
pub proof fn lemma_name_index(names: Seq<Text>, n: Text)
    ensures
        match name_index(names, n) {
            Some(k) => {
                &&& 0 <= k < names.len()
                &&& same_name(names[k], n)
                &&& forall|j: int| 0 <= j < k ==> !same_name(#[trigger] names[j], n)
            },
            None => forall|j: int| 0 <= j < names.len() ==> !same_name(#[trigger] names[j], n),
        },
        name_index(names, n) is Some <==> has_name(names, n),
{
    lemma_name_index_from(names, n, 0);
}

/// A first match is what `name_index` finds.
pub proof fn lemma_name_index_is(names: Seq<Text>, n: Text, k: int)
    requires
        0 <= k < names.len(),
        same_name(names[k], n),
        forall|j: int| 0 <= j < k ==> !same_name(#[trigger] names[j], n),
    ensures
        name_index(names, n) == Some(k),
{
    lemma_name_index(names, n);
    let m = name_index(names, n)->0;
    if m < k {
        assert(same_name(names[m], n));
    }
}

/// Names that are equal up to ASCII case are found at the same place.
pub proof fn lemma_name_index_case(names: Seq<Text>, a: Text, b: Text)
    requires
        same_name(a, b),
    ensures
        name_index(names, a) == name_index(names, b),
        has_name(names, a) == has_name(names, b),
{
    lemma_name_index(names, a);
    lemma_name_index(names, b);
    match name_index(names, a) {
        Some(k) => {
            assert(same_name(names[k], b));
            lemma_name_index_is(names, b, k);
        },
        None => {},
    }
}

/// Whether `n` is one of the strings, up to ASCII case.
pub fn holds_name(list: &Vec<String>, n: &str) -> (r: bool)
    ensures
        r == has_name(list.deep_view(), n@),
{
    find_name(list, n).is_some()
}

/// The first position of `n` among the strings, up to ASCII case.
pub fn find_name(list: &Vec<String>, n: &str) -> (r: Option<usize>)
    ensures
        match r {
            Some(k) => name_index(list.deep_view(), n@) == Some(k as int) && k < list.len(),
            None => name_index(list.deep_view(), n@) is None,
        },
        r.is_some() == has_name(list.deep_view(), n@),
{
    let ghost names = list.deep_view();
    let mut i: usize = 0;
    while i < list.len()
        invariant
            i <= list.len(),
            names == list.deep_view(),
            forall|j: int| 0 <= j < i ==> !same_name(#[trigger] names[j], n@),
        decreases list.len() - i,
    {
        assert(names[i as int] == list@[i as int]@);
        if names_equal(list[i].as_str(), n) {
            proof {
                lemma_name_index_is(names, n@, i as int);
            }
            return Some(i);
        }
        i += 1;
    }
    proof {
        lemma_name_index(names, n@);
    }
    None
}

/// A copy of the strings.
pub fn clone_strings(list: &Vec<String>) -> (r: Vec<String>)
    ensures
        r.deep_view() == list.deep_view(),
{
    let mut r: Vec<String> = Vec::new();
    let mut i: usize = 0;
    while i < list.len()
        invariant
            i <= list.len(),
            r.len() == i,
            forall|j: int| 0 <= j < i ==> r@[j]@ == #[trigger] list@[j]@,
        decreases list.len() - i,
    {
        r.push(list[i].clone());
        i += 1;
    }
    assert(r.deep_view() =~= list.deep_view());
    r
}

/// A copy of the pairs.
pub fn clone_pairs(list: &Vec<(String, String)>) -> (r: Vec<(String, String)>)
    ensures
        r.deep_view() == list.deep_view(),
{
    let mut r: Vec<(String, String)> = Vec::new();
    let mut i: usize = 0;
    while i < list.len()
        invariant
            i <= list.len(),
            r.len() == i,
            forall|j: int|
                0 <= j < i ==> r@[j].0@ == (#[trigger] list@[j]).0@ && r@[j].1@ == list@[j].1@,
        decreases list.len() - i,
    {
        r.push((list[i].0.clone(), list[i].1.clone()));
        i += 1;
    }
    assert(r.deep_view() =~= list.deep_view());
    r
}

/// A copy of the string, if there is one.
pub fn clone_optional(s: &Option<String>) -> (r: Option<String>)
    ensures
        r.deep_view() == s.deep_view(),
{
    match s {
        Some(x) => Some(x.clone()),
        None => None,
    }
}

// ---------------------------------------------------------------------------
// The order of texts
// ---------------------------------------------------------------------------

/// Lexicographic order by character, from position `i` on.
pub open spec fn less_from(a: Text, b: Text, i: int) -> bool
    decreases a.len() - i,
{
    if i < 0 || i >= b.len() {
        false
    } else if i >= a.len() {
        true
    } else if a[i] == b[i] {
        less_from(a, b, i + 1)
    } else {
        a[i] < b[i]
    }
}

/// Lexicographic order by character, which is the order of strings.
pub open spec fn less(a: Text, b: Text) -> bool {
    less_from(a, b, 0)
}

/// The order by the position `k` of the first difference.
pub proof fn lemma_less_from(a: Text, b: Text, i: int, k: int)
    requires
        0 <= i <= k <= a.len(),
        k <= b.len(),
        forall|j: int| i <= j < k ==> a[j] == b[j],
        k < a.len() && k < b.len() ==> a[k] != b[k],
    ensures
        less_from(a, b, i) == (k < b.len() && (k == a.len() || a[k] < b[k])),
    decreases k - i,
{
    if i < k {
        lemma_less_from(a, b, i + 1, k);
    }
}

/// The position of the first difference.
pub open spec fn first_difference(a: Text, b: Text, i: int) -> int
    decreases a.len() - i,
{
    if i < a.len() && i < b.len() && a[i] == b[i] {
        first_difference(a, b, i + 1)
    } else {
        i
    }
}

proof fn lemma_first_difference(a: Text, b: Text, i: int)
    requires
        0 <= i <= a.len(),
        i <= b.len(),
    ensures
        ({
            let k = first_difference(a, b, i);
            &&& i <= k <= a.len()
            &&& k <= b.len()
            &&& forall|j: int| i <= j < k ==> a[j] == b[j]
            &&& k < a.len() && k < b.len() ==> a[k] != b[k]
        }),
    decreases a.len() - i,
{
    if i < a.len() && i < b.len() && a[i] == b[i] {
        lemma_first_difference(a, b, i + 1);
    }
}

/// Of two texts one is less, or they are equal.
pub proof fn lemma_less_total(a: Text, b: Text)
    ensures
        less(a, b) || less(b, a) || a == b,
        !(less(a, b) && less(b, a)),
        a == b ==> !less(a, b),
{
    let k = first_difference(a, b, 0);
    lemma_first_difference(a, b, 0);
    lemma_less_from(a, b, 0, k);
    lemma_less_from(b, a, 0, k);
    if k == a.len() && k == b.len() {
        assert(a =~= b);
    }
}

pub proof fn lemma_less_transitive(a: Text, b: Text, c: Text)
    requires
        less(a, b),
        less(b, c),
    ensures
        less(a, c),
{
    let k = first_difference(a, b, 0);
    let m = first_difference(b, c, 0);
    lemma_first_difference(a, b, 0);
    lemma_first_difference(b, c, 0);
    lemma_less_from(a, b, 0, k);
    lemma_less_from(b, c, 0, m);
    let n = if k < m {
        k
    } else {
        m
    };
    assert forall|j: int| 0 <= j < n implies a[j] == c[j] by {
        assert(a[j] == b[j]);
        assert(b[j] == c[j]);
    }
    if k < m {
        assert(b[k] == c[k]);
    } else if m < k {
        assert(a[m] == b[m]);
    }
    lemma_less_from(a, c, 0, n);
}

/// Whether the characters of `a` come before those of `b`.
pub fn chars_less(a: &[char], b: &[char]) -> (r: bool)
    ensures
        r == less(a@, b@),
{
    let mut i: usize = 0;
    while i < a.len() && i < b.len() && a[i] == b[i]
        invariant
            i <= a.len(),
            i <= b.len(),
            less(a@, b@) == less_from(a@, b@, i as int),
        decreases a.len() - i,
    {
        i += 1;
    }
    if i >= b.len() {
        false
    } else if i >= a.len() {
        true
    } else {
        a[i] < b[i]
    }
}

/// Whether `a` comes before `b`.
pub fn str_less(a: &str, b: &str) -> (r: bool)
    ensures
        r == less(a@, b@),
{
    let x = chars_of(a);
    let y = chars_of(b);
    chars_less(x.as_slice(), y.as_slice())
}

/// Whether `a` comes before `b`, up to ASCII case.
pub fn name_less(a: &str, b: &str) -> (r: bool)
    ensures
        r == less(lower(a@), lower(b@)),
{
    let x = lower_chars(a);
    let y = lower_chars(b);
    chars_less(x.as_slice(), y.as_slice())
}

// ---------------------------------------------------------------------------
// Sorted lists without repetition
// ---------------------------------------------------------------------------

/// Strictly increasing.
pub open spec fn increasing(s: Seq<Text>) -> bool {
    forall|i: int, j: int| 0 <= i < j < s.len() ==> less(#[trigger] s[i], #[trigger] s[j])
}

/// The first position from `i` on that is not less than `x`.
pub open spec fn slot_from(s: Seq<Text>, x: Text, i: int) -> int
    decreases s.len() - i,
{
    if 0 <= i < s.len() && less(s[i], x) {
        slot_from(s, x, i + 1)
    } else {
        i
    }
}

/// The list with `x` put at its place, or the list itself where `x` is in it.
pub open spec fn with_text(s: Seq<Text>, x: Text) -> Seq<Text> {
    let k = slot_from(s, x, 0);
    if k < s.len() && s[k] == x {
        s
    } else {
        s.insert(k, x)
    }
}

/// The sorted list of the texts, each of them once.
pub open spec fn sorted_set(s: Seq<Text>) -> Seq<Text>
    decreases s.len(),
{
    if s.len() == 0 {
        Seq::empty()
    } else {
        with_text(sorted_set(s.drop_last()), s.last())
    }
}

pub proof fn lemma_slot_from(s: Seq<Text>, x: Text, i: int)
    requires
        0 <= i <= s.len(),
    ensures
        i <= slot_from(s, x, i) <= s.len(),
        forall|j: int| i <= j < slot_from(s, x, i) ==> less(#[trigger] s[j], x),
        slot_from(s, x, i) < s.len() ==> !less(s[slot_from(s, x, i)], x),
    decreases s.len() - i,
{
    if i < s.len() && less(s[i], x) {
        lemma_slot_from(s, x, i + 1);
    }
}

/// Putting a text at its place keeps the list increasing and adds just that text.
pub proof fn lemma_with_text(s: Seq<Text>, x: Text)
    requires
        increasing(s),
    ensures
        increasing(with_text(s, x)),
        forall|y: Text| with_text(s, x).contains(y) <==> s.contains(y) || y == x,
{
    let k = slot_from(s, x, 0);
    lemma_slot_from(s, x, 0);
    let r = with_text(s, x);
    if k < s.len() && s[k] == x {
    } else {
        assert forall|i: int, j: int| 0 <= i < j < r.len() implies less(
            #[trigger] r[i],
            #[trigger] r[j],
        ) by {
            if j < k {
                assert(less(s[i], s[j]));
            } else if j == k {
                assert(less(s[i], x));
            } else if i < k {
                assert(less(s[i], s[j - 1]));
            } else if i == k {
                lemma_less_total(s[k], x);
                if j - 1 > k {
                    assert(less(s[k], s[j - 1]));
                    lemma_less_transitive(x, s[k], s[j - 1]);
                }
            } else {
                assert(less(s[i - 1], s[j - 1]));
            }
        }
        assert forall|y: Text| r.contains(y) <==> s.contains(y) || y == x by {
            if r.contains(y) {
                let m = choose|m: int| 0 <= m < r.len() && r[m] == y;
                if m < k {
                    assert(s[m] == y);
                } else if m > k {
                    assert(s[m - 1] == y);
                }
            }
            if s.contains(y) {
                let m = choose|m: int| 0 <= m < s.len() && s[m] == y;
                if m < k {
                    assert(r[m] == y);
                } else {
                    assert(r[m + 1] == y);
                }
            }
            assert(r[k] == x);
        }
    }
}

/// The sorted list holds just the given texts, in increasing order.
pub proof fn lemma_sorted_set(s: Seq<Text>)
    ensures
        increasing(sorted_set(s)),
        forall|y: Text| sorted_set(s).contains(y) <==> s.contains(y),
    decreases s.len(),
{
    if s.len() > 0 {
        let d = s.drop_last();
        lemma_sorted_set(d);
        lemma_with_text(sorted_set(d), s.last());
        assert forall|y: Text| sorted_set(s).contains(y) <==> s.contains(y) by {
            if s.contains(y) {
                let m = choose|m: int| 0 <= m < s.len() && s[m] == y;
                if m < d.len() {
                    assert(d[m] == y);
                }
            }
            if d.contains(y) {
                let m = choose|m: int| 0 <= m < d.len() && d[m] == y;
                assert(s[m] == y);
            }
            assert(s[s.len() - 1] == s.last());
        }
    }
}

/// Puts `x` at its place in the list, unless it is in it.
pub fn insert_text(list: &mut Vec<String>, x: String)
    ensures
        final(list).deep_view() == with_text(old(list).deep_view(), x@),
{
    let ghost texts = list.deep_view();
    let mut k: usize = 0;
    while k < list.len() && str_less(list[k].as_str(), x.as_str())
        invariant
            k <= list.len(),
            texts == list.deep_view(),
            slot_from(texts, x@, 0) == slot_from(texts, x@, k as int),
        decreases list.len() - k,
    {
        k += 1;
    }
    if k < list.len() && str_equal(list[k].as_str(), x.as_str()) {
        return ;
    }
    let ghost before = list@;
    list.insert(k, x);
    assert(list.deep_view() =~= texts.insert(k as int, x@));
}

/// The strings in order, each of them once.
pub fn sort_texts(list: &Vec<String>) -> (r: Vec<String>)
    ensures
        r.deep_view() == sorted_set(list.deep_view()),
{
    let ghost texts = list.deep_view();
    let mut r: Vec<String> = Vec::new();
    let mut i: usize = 0;
    assert(texts.take(0) =~= Seq::empty());
    assert(r.deep_view() =~= Seq::empty());
    while i < list.len()
        invariant
            i <= list.len(),
            texts == list.deep_view(),
            r.deep_view() == sorted_set(texts.take(i as int)),
        decreases list.len() - i,
    {
        assert(texts.take(i + 1).drop_last() =~= texts.take(i as int));
        assert(texts[i as int] == list@[i as int]@);
        insert_text(&mut r, list[i].clone());
        i += 1;
    }
    assert(texts.take(texts.len() as int) =~= texts);
    r
}

// ---------------------------------------------------------------------------
// Lists with equal multisets
// ---------------------------------------------------------------------------

/// What is in one of two lists with equal multisets is in the other.
pub proof fn lemma_member<A>(s: Seq<A>, t: Seq<A>, i: int)
    requires
        s.to_multiset() == t.to_multiset(),
        0 <= i < s.len(),
    ensures
        t.contains(s[i]),
{
    broadcast use vstd::seq_lib::group_to_multiset_ensures;

    assert(s.contains(s[i]));
    assert(s.to_multiset().contains(s[i]));
}

/// Equal multisets stay equal under a function.
pub proof fn lemma_mapped_multiset<A, B>(s: Seq<A>, t: Seq<A>, f: spec_fn(A) -> B)
    requires
        s.to_multiset() == t.to_multiset(),
    ensures
        s.map_values(f).to_multiset() == t.map_values(f).to_multiset(),
    decreases s.len(),
{
    broadcast use vstd::seq_lib::group_to_multiset_ensures;

    if s.len() == 0 {
        assert(t.len() == t.to_multiset().len());
        assert(s.len() == s.to_multiset().len());
        assert(s.map_values(f) =~= t.map_values(f));
    } else {
        let x = s.last();
        lemma_member(s, t, s.len() - 1);
        let k = choose|k: int| 0 <= k < t.len() && t[k] == x;
        let s1 = s.drop_last();
        let t1 = t.remove(k);
        assert(s =~= s1.push(x));
        assert(s.to_multiset() =~= s1.to_multiset().insert(x));
        assert(t1.to_multiset() =~= t.to_multiset().remove(x));
        assert(s1.to_multiset() =~= t1.to_multiset());
        lemma_mapped_multiset(s1, t1, f);
        assert(s.map_values(f) =~= s1.map_values(f).push(f(x)));
        assert(t1.map_values(f) =~= t.map_values(f).remove(k));
        let m = t.map_values(f);
        assert(m[k] == f(x));
        assert(m.contains(f(x)));
        assert(m.remove(k).to_multiset() =~= m.to_multiset().remove(f(x)));
        assert(m.to_multiset().contains(f(x)));
        assert(m.to_multiset() =~= m.to_multiset().remove(f(x)).insert(f(x)));
        assert(s.map_values(f).to_multiset() =~= s1.map_values(f).to_multiset().insert(f(x)));
    }
}

} // verus!
