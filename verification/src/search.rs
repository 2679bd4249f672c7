//! Searching text: patterns, words and separated parts.

use vstd::prelude::*;

use crate::text::{
    ascii_space, chars_equal, chars_of, lower_chars, space, string_of_range, word_char, Text,
};
#[allow(unused_imports)]
use crate::text::{is_ascii_space, is_space, is_word_char, lower, trim_start};

verus! {

// ---------------------------------------------------------------------------
// Patterns
// ---------------------------------------------------------------------------

/// Whether `pat` stands in `t` at position `i`.
pub open spec fn matches_at(t: Text, pat: Text, i: int) -> bool {
    &&& 0 <= i
    &&& i + pat.len() <= t.len()
    &&& t.subrange(i, i + pat.len()) == pat
}

/// The first position from `i` on at which `pat` stands in `t`.
pub open spec fn find_from(t: Text, pat: Text, i: int) -> Option<int>
    decreases t.len() + 1 - i,
{
    if i < 0 || i + pat.len() > t.len() {
        None
    } else if matches_at(t, pat, i) {
        Some(i)
    } else {
        find_from(t, pat, i + 1)
    }
}

/// The first position at which `pat` stands in `t`.
pub open spec fn find(t: Text, pat: Text) -> Option<int> {
    find_from(t, pat, 0)
}

pub open spec fn contains(t: Text, pat: Text) -> bool {
    exists|i: int| matches_at(t, pat, i)
}

pub open spec fn starts_with(t: Text, pat: Text) -> bool {
    matches_at(t, pat, 0)
}

pub open spec fn ends_with(t: Text, pat: Text) -> bool {
    matches_at(t, pat, t.len() - pat.len())
}

/// `find_from` returns the least position from `i` on at which the pattern stands.
pub proof fn lemma_find_from(t: Text, pat: Text, i: int)
    requires
        0 <= i,
    ensures
        match find_from(t, pat, i) {
            Some(k) => {
                &&& i <= k
                &&& matches_at(t, pat, k)
                &&& forall|j: int| i <= j < k ==> !matches_at(t, pat, j)
            },
            None => forall|j: int| i <= j ==> !matches_at(t, pat, j),
        },
    decreases t.len() + 1 - i,
{
    if i + pat.len() <= t.len() && !matches_at(t, pat, i) {
        lemma_find_from(t, pat, i + 1);
    }
}

/// A pattern is found exactly where the text contains it.
pub proof fn lemma_find_contains(t: Text, pat: Text)
    ensures
        find(t, pat) is Some <==> contains(t, pat),
{
    lemma_find_from(t, pat, 0);
}

/// Whether `pat` stands in `v` at position `i`.
pub fn chars_match_at(v: &[char], pat: &[char], i: usize) -> (r: bool)
    ensures
        r == matches_at(v@, pat@, i as int),
{
    if pat.len() > v.len() || i > v.len() - pat.len() {
        return false;
    }
    let part = vstd::slice::slice_subrange(v, i, i + pat.len());
    chars_equal(part, pat)
}

/// The first position from `from` on at which `pat` stands in `v`.
pub fn find_chars(v: &[char], pat: &[char], from: usize) -> (r: Option<usize>)
    ensures
        match r {
            Some(k) => find_from(v@, pat@, from as int) == Some(k as int) && matches_at(
                v@,
                pat@,
                k as int,
            ) && from <= k,
            None => find_from(v@, pat@, from as int) is None,
        },
{
    if pat.len() > v.len() {
        return None;
    }
    let last: usize = v.len() - pat.len();
    let mut i: usize = from;
    while i <= last
        invariant
            from <= i,
            last == v.len() - pat.len(),
            i <= last + 1 || i == from,
            find_from(v@, pat@, from as int) == find_from(v@, pat@, i as int),
        decreases v.len() + 1 - i,
    {
        if chars_match_at(v, pat, i) {
            return Some(i);
        }
        if i == last {
            assert(find_from(v@, pat@, i + 1) is None);
            return None;
        }
        i += 1;
    }
    None
}

/// Whether `pat` stands anywhere in `v`.
pub fn chars_contain(v: &[char], pat: &[char]) -> (r: bool)
    ensures
        r == contains(v@, pat@),
{
    proof {
        lemma_find_contains(v@, pat@);
    }
    match find_chars(v, pat, 0) {
        Some(_) => true,
        None => false,
    }
}

/// Whether the ASCII lower case of `s` contains `pat`.
pub fn lower_contains(s: &str, pat: &str) -> (r: bool)
    ensures
        r == contains(lower(s@), pat@),
{
    let v = lower_chars(s);
    let p = chars_of(pat);
    chars_contain(v.as_slice(), p.as_slice())
}

/// Whether the ASCII lower case of `s` starts with `pat`.
pub fn lower_starts_with(s: &str, pat: &str) -> (r: bool)
    ensures
        r == starts_with(lower(s@), pat@),
{
    let v = lower_chars(s);
    let p = chars_of(pat);
    chars_match_at(v.as_slice(), p.as_slice(), 0)
}

/// Whether the ASCII lower case of `s` is `pat`.
pub fn lower_is(s: &str, pat: &str) -> (r: bool)
    ensures
        r == (lower(s@) == pat@),
{
    let v = lower_chars(s);
    let p = chars_of(pat);
    chars_equal(v.as_slice(), p.as_slice())
}

/// Whether `v` ends with `pat`.
pub fn chars_end_with(v: &[char], pat: &[char]) -> (r: bool)
    ensures
        r == ends_with(v@, pat@),
{
    if pat.len() > v.len() {
        return false;
    }
    chars_match_at(v, pat, v.len() - pat.len())
}

// ---------------------------------------------------------------------------
// Words
// ---------------------------------------------------------------------------

/// The number of leading characters that are no white space.
pub open spec fn word_len(t: Text) -> nat
    decreases t.len(),
{
    if t.len() > 0 && !is_space(t[0]) {
        1 + word_len(t.skip(1))
    } else {
        0
    }
}

pub proof fn lemma_word_len(t: Text)
    ensures
        word_len(t) <= t.len(),
    decreases t.len(),
{
    if t.len() > 0 && !is_space(t[0]) {
        lemma_word_len(t.skip(1));
    }
}

pub proof fn lemma_trim_start_len(t: Text)
    ensures
        trim_start(t).len() <= t.len(),
        trim_start(t).len() > 0 ==> !is_space(trim_start(t)[0]),
    decreases t.len(),
{
    if t.len() > 0 && is_space(t[0]) {
        lemma_trim_start_len(t.skip(1));
    }
}

/// The parts of the text that white space separates.
pub open spec fn words(t: Text) -> Seq<Text>
    decreases t.len(),
{
    let s = trim_start(t);
    if s.len() == 0 {
        Seq::empty()
    } else {
        proof {
            lemma_trim_start_len(t);
            lemma_word_len(s);
            assert(word_len(s) >= 1);
        }
        seq![s.take(word_len(s) as int)] + words(s.skip(word_len(s) as int))
    }
}

/// The words of `v`.
pub fn words_of(v: &[char]) -> (r: Vec<String>)
    ensures
        r.deep_view() == words(v@),
{
    let mut r: Vec<String> = Vec::new();
    let mut i: usize = 0;
    let ghost whole = words(v@);
    assert(v@.skip(0) == v@);
    assert(r.deep_view() + words(v@) =~= whole);
    loop
        invariant
            i <= v.len(),
            whole == words(v@),
            whole == r.deep_view() + words(v@.skip(i as int)),
        decreases v.len() - i,
    {
        let ghost tail = v@.skip(i as int);
        let rest = vstd::slice::slice_subrange(v, i, v.len());
        assert(rest@ == tail);
        let a = crate::text::trim_start_at(rest);
        let start: usize = i + a;
        assert(v@.skip(start as int) == trim_start(tail));
        if start >= v.len() {
            assert(words(tail) =~= Seq::empty());
            return r;
        }
        let mut end: usize = start;
        assert(v@.skip(start as int) == v@.skip(end as int));
        while end < v.len() && !space(v[end])
            invariant
                start <= end <= v.len(),
                word_len(v@.skip(start as int)) == (end - start) + word_len(v@.skip(end as int)),
            decreases v.len() - end,
        {
            assert(v@.skip(end as int).skip(1) == v@.skip(end + 1));
            end += 1;
        }
        let ghost s = v@.skip(start as int);
        let ghost before = r.deep_view();
        let w = string_of_range(v, start, end);
        r.push(w);
        proof {
            assert(word_len(s) == end - start);
            assert(s.take(end - start) == v@.subrange(start as int, end as int));
            assert(s.skip(end - start) == v@.skip(end as int));
            assert(r.deep_view() =~= before.push(w@));
            assert(words(tail) == seq![w@] + words(v@.skip(end as int)));
            assert(whole =~= r.deep_view() + words(v@.skip(end as int)));
            lemma_word_len(s);
            assert(!is_space(s[0]));
        }
        i = end;
    }
}

/// A maximal run of identifier characters, which may be empty.
pub open spec fn is_word_span(t: Text, i: int, j: int) -> bool {
    &&& 0 <= i <= j <= t.len()
    &&& i == 0 || !is_word_char(t[i - 1])
    &&& j == t.len() || !is_word_char(t[j])
    &&& forall|k: int| i <= k < j ==> is_word_char(#[trigger] t[k])
}

/// Whether `w` is one of the maximal runs of identifier characters of `t`.
pub open spec fn has_word(t: Text, w: Text) -> bool {
    exists|i: int, j: int| #[trigger] is_word_span(t, i, j) && t.subrange(i, j) == w
}

/// Whether `w` is one of the maximal runs of identifier characters of `v`.
pub fn chars_have_word(v: &[char], w: &[char]) -> (r: bool)
    ensures
        r == has_word(v@, w@),
{
    let mut start: usize = 0;
    let mut j: usize = 0;
    loop
        invariant
            start <= j <= v.len(),
            start == 0 || !is_word_char(v@[start - 1]),
            forall|k: int| start <= k < j ==> is_word_char(#[trigger] v@[k]),
            forall|a: int, b: int| #[trigger] is_word_span(v@, a, b) && b < j ==> v@.subrange(a, b) != w@,
        decreases v.len() - j,
    {
        if j == v.len() || !word_char(v[j]) {
            let part = vstd::slice::slice_subrange(v, start, j);
            assert(is_word_span(v@, start as int, j as int));
            if chars_equal(part, w) {
                return true;
            }
            assert forall|a: int, b: int| #[trigger] is_word_span(v@, a, b) && b == j implies a
                == start by {
                if a < start {
                    assert(is_word_char(v@[start - 1]));
                }
                if a > start {
                    assert(is_word_char(v@[a - 1]));
                }
            }
            if j == v.len() {
                return false;
            }
            start = j + 1;
        } else {
            assert forall|a: int, b: int| #[trigger] is_word_span(v@, a, b) implies b != j by {
                if b == j {
                    assert(is_word_char(v@[j as int]));
                }
            }
        }
        j += 1;
    }
}

// ---------------------------------------------------------------------------
// Runs
// ---------------------------------------------------------------------------

/// The first position from `i` on without ASCII white space.
pub open spec fn past_space(t: Text, i: int) -> int
    decreases t.len() - i,
{
    if 0 <= i < t.len() && is_ascii_space(t[i]) {
        past_space(t, i + 1)
    } else {
        i
    }
}

/// The first position from `i` on without an identifier character.
pub open spec fn past_word(t: Text, i: int) -> int
    decreases t.len() - i,
{
    if 0 <= i < t.len() && is_word_char(t[i]) {
        past_word(t, i + 1)
    } else {
        i
    }
}

pub proof fn lemma_past_word(t: Text, i: int)
    requires
        0 <= i <= t.len(),
    ensures
        i <= past_word(t, i) <= t.len(),
    decreases t.len() - i,
{
    if i < t.len() && is_word_char(t[i]) {
        lemma_past_word(t, i + 1);
    }
}

pub proof fn lemma_past_space(t: Text, i: int)
    requires
        0 <= i <= t.len(),
    ensures
        i <= past_space(t, i) <= t.len(),
    decreases t.len() - i,
{
    if i < t.len() && is_ascii_space(t[i]) {
        lemma_past_space(t, i + 1);
    }
}

pub fn skip_space(v: &Vec<char>, from: usize) -> (k: usize)
    requires
        from <= v.len(),
    ensures
        from <= k <= v.len(),
        k == past_space(v@, from as int),
{
    let mut k: usize = from;
    while k < v.len() && ascii_space(v[k])
        invariant
            from <= k <= v.len(),
            past_space(v@, from as int) == past_space(v@, k as int),
        decreases v.len() - k,
    {
        k += 1;
    }
    k
}

pub fn skip_word(v: &Vec<char>, from: usize) -> (k: usize)
    requires
        from <= v.len(),
    ensures
        from <= k <= v.len(),
        k == past_word(v@, from as int),
{
    let mut k: usize = from;
    while k < v.len() && word_char(v[k])
        invariant
            from <= k <= v.len(),
            past_word(v@, from as int) == past_word(v@, k as int),
        decreases v.len() - k,
    {
        k += 1;
    }
    k
}

/// A search in a part of the text is a search in the part as a text of its own.
pub proof fn lemma_find_in_tail(t: Text, pat: Text, from: int, i: int)
    requires
        0 <= from <= i <= t.len(),
    ensures
        match find_from(t, pat, i) {
            Some(k) => find_from(t.skip(from), pat, i - from) == Some(k - from),
            None => find_from(t.skip(from), pat, i - from) is None,
        },
    decreases t.len() + 1 - i,
{
    let u = t.skip(from);
    if i + pat.len() <= t.len() {
        assert(u.subrange(i - from, i - from + pat.len()) =~= t.subrange(i, i + pat.len()));
        if !matches_at(t, pat, i) {
            if i < t.len() {
                lemma_find_in_tail(t, pat, from, i + 1);
            }
        }
    }
}

pub proof fn lemma_past_space_in_tail(t: Text, from: int, i: int)
    requires
        0 <= from <= i <= t.len(),
    ensures
        past_space(t.skip(from), i - from) == past_space(t, i) - from,
    decreases t.len() - i,
{
    if i < t.len() {
        lemma_past_space_in_tail(t, from, i + 1);
    }
}

pub proof fn lemma_past_word_in_tail(t: Text, from: int, i: int)
    requires
        0 <= from <= i <= t.len(),
    ensures
        past_word(t.skip(from), i - from) == past_word(t, i) - from,
    decreases t.len() - i,
{
    if i < t.len() {
        lemma_past_word_in_tail(t, from, i + 1);
    }
}

// ---------------------------------------------------------------------------
// Separated parts
// ---------------------------------------------------------------------------

/// The number of leading characters other than `sep`.
pub open spec fn part_len(t: Text, sep: char) -> nat
    decreases t.len(),
{
    if t.len() > 0 && t[0] != sep {
        1 + part_len(t.skip(1), sep)
    } else {
        0
    }
}

pub proof fn lemma_part_len(t: Text, sep: char)
    ensures
        part_len(t, sep) <= t.len(),
    decreases t.len(),
{
    if t.len() > 0 && t[0] != sep {
        lemma_part_len(t.skip(1), sep);
    }
}

/// What stands before the first `sep`, or the whole text.
pub open spec fn before_char(t: Text, sep: char) -> Text {
    t.take(part_len(t, sep) as int)
}

/// The parts of the text that `sep` separates.
pub open spec fn parts(t: Text, sep: char) -> Seq<Text>
    decreases t.len(),
{
    let n = part_len(t, sep) as int;
    if n >= t.len() {
        seq![t]
    } else {
        seq![t.take(n)] + parts(t.skip(n + 1), sep)
    }
}

/// The position of the first `sep` from `from` on, or the end.
pub fn part_end(v: &[char], sep: char, from: usize) -> (end: usize)
    requires
        from <= v.len(),
    ensures
        from <= end <= v.len(),
        end == from + part_len(v@.skip(from as int), sep),
        forall|k: int| from <= k < end ==> v@[k] != sep,
        end < v.len() ==> v@[end as int] == sep,
{
    let mut end: usize = from;
    while end < v.len() && v[end] != sep
        invariant
            from <= end <= v.len(),
            part_len(v@.skip(from as int), sep) == (end - from) + part_len(v@.skip(end as int), sep),
            forall|k: int| from <= k < end ==> v@[k] != sep,
        decreases v.len() - end,
    {
        assert(v@.skip(end as int).skip(1) == v@.skip(end + 1));
        end += 1;
    }
    end
}

/// The parts of `v` that `sep` separates.
pub fn parts_of(v: &[char], sep: char) -> (r: Vec<String>)
    ensures
        r.deep_view() == parts(v@, sep),
{
    let mut r: Vec<String> = Vec::new();
    let mut i: usize = 0;
    assert(v@.skip(0) == v@);
    assert(r.deep_view() + parts(v@, sep) =~= parts(v@, sep));
    loop
        invariant
            i <= v.len(),
            parts(v@, sep) == r.deep_view() + parts(v@.skip(i as int), sep),
        decreases v.len() - i,
    {
        let end = part_end(v, sep, i);
        let w = string_of_range(v, i, end);
        let ghost before = r.deep_view();
        let ghost tail = v@.skip(i as int);
        r.push(w);
        assert(r.deep_view() =~= before.push(w@));
        assert(tail.take(end - i) == v@.subrange(i as int, end as int));
        if end == v.len() {
            assert(tail.take(end - i) == tail);
            assert(before + seq![w@] =~= r.deep_view());
            return r;
        }
        assert(tail.skip(end - i + 1) == v@.skip(end + 1));
        assert(before + (seq![w@] + parts(v@.skip(end + 1), sep)) =~= r.deep_view() + parts(
            v@.skip(end + 1),
            sep,
        ));
        i = end + 1;
    }
}

} // verus!
