//! The normal form of SQL text, in which two statements are compared.
//!
//! Comments and white space count as gaps: a run of gaps becomes one space, and
//! none at either end. String literals and quoted identifiers stay as they are.
//! All other characters are put in ASCII lower case.

use vstd::prelude::*;

use crate::text::{
    ascii_space, chars_of, lowered, push_chars, space, string_of, string_of_range, trim_chars, Text,
};
#[allow(unused_imports)]
use crate::text::{is_ascii_space, is_space, lower, lower_char, trim, trim_end, trim_start};

verus! {

// ---------------------------------------------------------------------------
// The model
// ---------------------------------------------------------------------------

pub open spec fn is_quote(c: char) -> bool {
    c == '\'' || c == '"'
}

/// How far a literal goes on behind its opening quote `q`: up to the first `q`
/// that is not written twice, or to the end.
pub open spec fn literal_tail(t: Text, q: char) -> nat
    decreases t.len(),
{
    if t.len() == 0 {
        0
    } else if t[0] == q {
        if t.len() > 1 && t[1] == q {
            2 + literal_tail(t.skip(2), q)
        } else {
            1
        }
    } else {
        1 + literal_tail(t.skip(1), q)
    }
}

/// The length of the literal that starts the text with its opening quote.
pub open spec fn literal_len(t: Text) -> nat {
    1 + literal_tail(t.skip(1), t[0])
}

/// The length of the first line with its line feed.
pub open spec fn line_len(t: Text) -> nat
    decreases t.len(),
{
    if t.len() == 0 {
        0
    } else if t[0] == '\n' {
        1
    } else {
        1 + line_len(t.skip(1))
    }
}

/// How far `depth` nested block comments, all of them open, go on.
pub open spec fn block_tail(t: Text, depth: nat) -> nat
    decreases t.len(),
{
    if depth == 0 || t.len() == 0 {
        0
    } else if t.len() > 1 && t[0] == '*' && t[1] == '/' {
        2 + block_tail(t.skip(2), (depth - 1) as nat)
    } else if t.len() > 1 && t[0] == '/' && t[1] == '*' {
        2 + block_tail(t.skip(2), depth + 1)
    } else {
        1 + block_tail(t.skip(1), depth)
    }
}

/// The length of the comment or white space character that starts the text, or
/// 0 where it starts with something else.
pub open spec fn gap_len(t: Text) -> nat {
    if t.len() > 1 && t[0] == '-' && t[1] == '-' {
        2 + line_len(t.skip(2))
    } else if t.len() > 1 && t[0] == '/' && t[1] == '*' {
        2 + block_tail(t.skip(2), 1)
    } else if t.len() > 0 && is_ascii_space(t[0]) {
        1
    } else {
        0
    }
}

/// The text with its gaps squeezed. `fresh` says that no space is owed for a gap
/// at the front: nothing, or a gap, stands before it.
pub open spec fn squeezed(t: Text, fresh: bool) -> Text
    decreases t.len(),
{
    if t.len() == 0 {
        Seq::empty()
    } else if is_quote(t[0]) {
        proof {
            lemma_literal_tail(t.skip(1), t[0]);
        }
        t.take(literal_len(t) as int) + squeezed(t.skip(literal_len(t) as int), false)
    } else if gap_len(t) > 0 {
        proof {
            lemma_gap_len(t);
        }
        if fresh {
            squeezed(t.skip(gap_len(t) as int), true)
        } else {
            seq![' '] + squeezed(t.skip(gap_len(t) as int), true)
        }
    } else {
        seq![lower_char(t[0])] + squeezed(t.skip(1), false)
    }
}

/// The normal form.
pub open spec fn normal(t: Text) -> Text {
    trim(squeezed(t, true))
}

/// The characters that count for nothing at the end of a schema text.
pub open spec fn is_ending(c: char) -> bool {
    c == ';' || is_space(c)
}

/// The text without the semicolons and the white space at its end.
pub open spec fn without_ending(t: Text) -> Text
    decreases t.len(),
{
    if t.len() > 0 && is_ending(t.last()) {
        without_ending(t.drop_last())
    } else {
        t
    }
}

/// The normal form of a whole schema text, for its fingerprint.
pub open spec fn hash_form(t: Text) -> Text {
    without_ending(normal(t))
}

// ---------------------------------------------------------------------------
// Executable functions
// ---------------------------------------------------------------------------

pub proof fn lemma_literal_tail(t: Text, q: char)
    ensures
        literal_tail(t, q) <= t.len(),
    decreases t.len(),
{
    if t.len() > 0 {
        if t[0] == q {
            if t.len() > 1 && t[1] == q {
                lemma_literal_tail(t.skip(2), q);
            }
        } else {
            lemma_literal_tail(t.skip(1), q);
        }
    }
}

pub proof fn lemma_line_len(t: Text)
    ensures
        line_len(t) <= t.len(),
    decreases t.len(),
{
    if t.len() > 0 && t[0] != '\n' {
        lemma_line_len(t.skip(1));
    }
}

pub proof fn lemma_block_tail(t: Text, depth: nat)
    ensures
        block_tail(t, depth) <= t.len(),
    decreases t.len(),
{
    if depth == 0 || t.len() == 0 {
    } else if t.len() > 1 && t[0] == '*' && t[1] == '/' {
        lemma_block_tail(t.skip(2), (depth - 1) as nat);
    } else if t.len() > 1 && t[0] == '/' && t[1] == '*' {
        lemma_block_tail(t.skip(2), depth + 1);
    } else {
        lemma_block_tail(t.skip(1), depth);
    }
}

pub proof fn lemma_gap_len(t: Text)
    ensures
        gap_len(t) <= t.len(),
{
    if t.len() > 1 {
        lemma_line_len(t.skip(2));
        lemma_block_tail(t.skip(2), 1);
    }
}

/// The position behind the literal that starts at `from`.
pub fn literal_end(v: &[char], from: usize) -> (end: usize)
    requires
        from < v.len(),
    ensures
        from < end <= v.len(),
        end == from + literal_len(v@.skip(from as int)),
{
    let q = v[from];
    let mut i: usize = from + 1;
    let ghost tail = v@.skip(from + 1);
    assert(v@.skip(from as int).skip(1) == tail);
    assert(tail == v@.skip(i as int));
    while i < v.len()
        invariant_except_break
            literal_tail(tail, q) == (i - (from + 1)) + literal_tail(v@.skip(i as int), q),
        invariant
            from < i <= v.len(),
            tail == v@.skip(from + 1),
        ensures
            literal_tail(tail, q) == i - (from + 1),
        decreases v.len() - i,
    {
        let ghost here = v@.skip(i as int);
        assert(here.skip(1) == v@.skip(i + 1));
        if v[i] == q {
            if v.len() - i > 1 && v[i + 1] == q {
                assert(here.skip(2) == v@.skip(i + 2));
                i += 2;
            } else {
                i += 1;
                break;
            }
        } else {
            i += 1;
        }
    }
    i
}

/// The position behind the line that starts at `from`.
fn line_end(v: &[char], from: usize) -> (end: usize)
    requires
        from <= v.len(),
    ensures
        from <= end <= v.len(),
        end == from + line_len(v@.skip(from as int)),
{
    let mut i: usize = from;
    while i < v.len()
        invariant_except_break
            line_len(v@.skip(from as int)) == (i - from) + line_len(v@.skip(i as int)),
        invariant
            from <= i <= v.len(),
        ensures
            line_len(v@.skip(from as int)) == i - from,
        decreases v.len() - i,
    {
        assert(v@.skip(i as int).skip(1) == v@.skip(i + 1));
        i += 1;
        if v[i - 1] == '\n' {
            break;
        }
    }
    i
}

/// The position behind the block comment whose text starts at `from`.
fn block_end(v: &[char], from: usize) -> (end: usize)
    requires
        from <= v.len(),
    ensures
        from <= end <= v.len(),
        end == from + block_tail(v@.skip(from as int), 1),
{
    let mut i: usize = from;
    let mut depth: usize = 1;
    while depth > 0 && i < v.len()
        invariant
            from <= i <= v.len(),
            depth <= i - from + 1,
            block_tail(v@.skip(from as int), 1) == (i - from) + block_tail(
                v@.skip(i as int),
                depth as nat,
            ),
        decreases v.len() - i,
    {
        let ghost here = v@.skip(i as int);
        assert(here.skip(1) == v@.skip(i + 1));
        if v.len() - i > 1 && v[i] == '*' && v[i + 1] == '/' {
            assert(here.skip(2) == v@.skip(i + 2));
            i += 2;
            depth -= 1;
        } else if v.len() - i > 1 && v[i] == '/' && v[i + 1] == '*' {
            assert(here.skip(2) == v@.skip(i + 2));
            i += 2;
            depth += 1;
        } else {
            i += 1;
        }
    }
    i
}

/// The position behind the comment or white space character at `from`, or `from`
/// where something else stands there.
pub fn gap_end(v: &[char], from: usize) -> (end: usize)
    requires
        from < v.len(),
    ensures
        from <= end <= v.len(),
        end == from + gap_len(v@.skip(from as int)),
{
    let ghost here = v@.skip(from as int);
    if v.len() - from > 1 {
        assert(here.skip(2) == v@.skip(from + 2));
        if v[from] == '-' && v[from + 1] == '-' {
            return line_end(v, from + 2);
        }
        if v[from] == '/' && v[from + 1] == '*' {
            return block_end(v, from + 2);
        }
    }
    if ascii_space(v[from]) {
        from + 1
    } else {
        from
    }
}

/// The characters with their gaps squeezed, as from the start of a text.
fn squeeze(v: &[char]) -> (out: Vec<char>)
    ensures
        out@ == squeezed(v@, true),
{
    let mut out: Vec<char> = Vec::new();
    let mut fresh = true;
    let mut i: usize = 0;
    assert(v@.skip(0) == v@);
    assert(out@ + squeezed(v@, true) == squeezed(v@, true));
    while i < v.len()
        invariant
            i <= v.len(),
            squeezed(v@, true) == out@ + squeezed(v@.skip(i as int), fresh),
        decreases v.len() - i,
    {
        let ghost here = v@.skip(i as int);
        let ghost before = out@;
        let ghost was = fresh;
        let c = v[i];
        let end: usize;
        if c == '\'' || c == '"' {
            end = literal_end(v, i);
            push_chars(&mut out, vstd::slice::slice_subrange(v, i, end));
            assert(here.take(end - i) == v@.subrange(i as int, end as int));
            fresh = false;
        } else {
            let gap = gap_end(v, i);
            if gap > i {
                if !fresh {
                    out.push(' ');
                }
                fresh = true;
                end = gap;
            } else {
                out.push(lowered(c));
                fresh = false;
                end = i + 1;
            }
        }
        assert(here.skip(end - i) == v@.skip(end as int));
        assert(out@ + squeezed(v@.skip(end as int), fresh) =~= before + squeezed(here, was));
        i = end;
    }
    assert(squeezed(v@.skip(i as int), fresh) == Seq::<char>::empty());
    assert(out@ + Seq::<char>::empty() == out@);
    out
}

/// The normal form of SQL for comparison: comments and white space collapsed,
/// ASCII lower case outside literals.
pub fn normalize_sql(sql: &str) -> (r: String)
    ensures
        r@ == normal(sql@),
{
    let v = chars_of(sql);
    let out = squeeze(v.as_slice());
    let kept = trim_chars(out.as_slice());
    string_of(kept.as_slice())
}

/// The normal form of a schema text for its fingerprint: the normal form without
/// the semicolons and the white space at its end.
pub fn normalize_for_hash(sql: &str) -> (r: String)
    ensures
        r@ == hash_form(sql@),
        r@.len() > 0 ==> r@.last() != ';',
        trim(r@) == r@,
{
    let form = normalize_sql(sql);
    let v = chars_of(form.as_str());
    let mut k: usize = v.len();
    assert(v@.take(k as int) == v@);
    while k > 0 && (v[k - 1] == ';' || space(v[k - 1]))
        invariant
            k <= v.len(),
            without_ending(v@) == without_ending(v@.take(k as int)),
        decreases k,
    {
        assert(v@.take(k as int).drop_last() == v@.take(k - 1));
        k -= 1;
    }
    proof {
        lemma_hash_form_edges(sql@);
    }
    string_of_range(v.as_slice(), 0, k)
}

/// Whether two texts have the same normal form.
pub fn same_sql(a: &str, b: &str) -> (r: bool)
    ensures
        r == (normal(a@) == normal(b@)),
{
    let x = normalize_sql(a);
    let y = normalize_sql(b);
    crate::text::str_equal(x.as_str(), y.as_str())
}

// ---------------------------------------------------------------------------
// Laws
// ---------------------------------------------------------------------------

/// What a squeezed text with no space owed starts with.
proof fn lemma_squeezed_first(t: Text)
    requires
        t.len() > 0,
    ensures
        squeezed(t, false).len() > 0,
        ({
            let c = squeezed(t, false)[0];
            c == t[0] || c == ' ' || c == lower_char(t[0])
        }),
{
    if is_quote(t[0]) {
        lemma_literal_tail(t.skip(1), t[0]);
    }
}

/// Whether what follows an opening quote `q` holds the closing one.
pub open spec fn literal_closed(t: Text, q: char) -> bool
    decreases t.len(),
{
    if t.len() == 0 {
        false
    } else if t[0] == q {
        if t.len() > 1 && t[1] == q {
            literal_closed(t.skip(2), q)
        } else {
            true
        }
    } else {
        literal_closed(t.skip(1), q)
    }
}

/// A literal stays one whatever follows it, but for its own quote.
pub proof fn lemma_literal_tail_append(t: Text, q: char, r: Text)
    requires
        literal_closed(t, q) || r.len() == 0,
        r.len() > 0 ==> r[0] != q,
    ensures
        literal_tail(t.take(literal_tail(t, q) as int) + r, q) == literal_tail(t, q),
        literal_closed(t, q) ==> literal_closed(t.take(literal_tail(t, q) as int) + r, q),
    decreases t.len(),
{
    let n = literal_tail(t, q) as int;
    lemma_literal_tail(t, q);
    let u = t.take(n) + r;
    if t.len() == 0 {
        assert(u =~= Seq::empty());
    } else if t[0] == q {
        if t.len() > 1 && t[1] == q {
            lemma_literal_tail(t.skip(2), q);
            lemma_literal_tail_append(t.skip(2), q, r);
            assert(u.skip(2) =~= t.skip(2).take(n - 2) + r);
        }
    } else {
        lemma_literal_tail(t.skip(1), q);
        lemma_literal_tail_append(t.skip(1), q, r);
        assert(u.skip(1) =~= t.skip(1).take(n - 1) + r);
    }
}

/// Behind a closed literal something other than its quote stands; an open one
/// goes to the end.
pub proof fn lemma_literal_next(t: Text, q: char)
    ensures
        literal_closed(t, q) ==> {
            let n = literal_tail(t, q) as int;
            &&& 0 < n <= t.len()
            &&& t[n - 1] == q
            &&& n < t.len() ==> t[n] != q
        },
        !literal_closed(t, q) ==> literal_tail(t, q) == t.len(),
    decreases t.len(),
{
    if t.len() > 0 {
        if t[0] == q {
            if t.len() > 1 && t[1] == q {
                lemma_literal_next(t.skip(2), q);
            }
        } else {
            lemma_literal_next(t.skip(1), q);
        }
    }
}

/// Squeezing a squeezed text changes nothing.
pub proof fn lemma_squeezed_idempotent(t: Text, fresh: bool)
    ensures
        squeezed(squeezed(t, fresh), fresh) == squeezed(t, fresh),
    decreases t.len(),
{
    let out = squeezed(t, fresh);
    if t.len() == 0 {
    } else if is_quote(t[0]) {
        let q = t[0];
        let n = literal_len(t) as int;
        lemma_literal_tail(t.skip(1), q);
        let rest = t.skip(n);
        let r = squeezed(rest, false);
        lemma_squeezed_idempotent(rest, false);
        lemma_literal_next(t.skip(1), q);
        if rest.len() > 0 {
            lemma_squeezed_first(rest);
            assert(rest[0] == t.skip(1)[n - 1]);
        }
        lemma_literal_tail_append(t.skip(1), q, r);
        assert(out.skip(1) =~= t.skip(1).take(n - 1) + r);
        assert(literal_len(out) == n);
        assert(out.take(n) =~= t.take(n));
        assert(out.skip(n) =~= r);
    } else if gap_len(t) > 0 {
        lemma_gap_len(t);
        let rest = t.skip(gap_len(t) as int);
        let r = squeezed(rest, true);
        lemma_squeezed_idempotent(rest, true);
        if !fresh {
            assert(out.skip(1) =~= r);
            assert(gap_len(out) == 1);
        }
    } else {
        let rest = t.skip(1);
        let r = squeezed(rest, false);
        lemma_squeezed_idempotent(rest, false);
        if rest.len() > 0 {
            lemma_squeezed_first(rest);
            assert(rest[0] == t[1]);
        }
        assert(out.skip(1) =~= r);
        assert(gap_len(out) == 0);
    }
}

/// Squeezing makes no text longer.
proof fn lemma_squeezed_len(t: Text, fresh: bool)
    ensures
        squeezed(t, fresh).len() <= t.len(),
    decreases t.len(),
{
    if t.len() == 0 {
    } else if is_quote(t[0]) {
        lemma_literal_tail(t.skip(1), t[0]);
        lemma_squeezed_len(t.skip(literal_len(t) as int), false);
    } else if gap_len(t) > 0 {
        lemma_gap_len(t);
        lemma_squeezed_len(t.skip(gap_len(t) as int), true);
    } else {
        lemma_squeezed_len(t.skip(1), false);
    }
}

/// A squeezed text without its leading white space is squeezed.
proof fn lemma_settled_trim_start(u: Text, fresh: bool)
    requires
        squeezed(u, fresh) == u,
    ensures
        squeezed(trim_start(u), true) == trim_start(u),
    decreases u.len(),
{
    if u.len() > 0 {
        if is_quote(u[0]) {
            assert(!is_space(u[0]));
        } else if gap_len(u) > 0 {
            lemma_gap_len(u);
            let rest = u.skip(gap_len(u) as int);
            lemma_squeezed_len(rest, true);
            assert(!fresh);
            assert(u[0] == ' ');
            assert(gap_len(u) == 1);
            assert(u.skip(1) =~= squeezed(rest, true));
            lemma_settled_trim_start(rest, true);
        } else {
            assert(u.skip(1) =~= squeezed(u.skip(1), false));
            if is_space(u[0]) {
                lemma_settled_trim_start(u.skip(1), false);
            }
        }
    }
}

/// An open literal loses its last character and stays an open literal.
proof fn lemma_literal_tail_drop(t: Text, q: char)
    requires
        t.len() > 0,
        literal_tail(t, q) == t.len(),
        t.last() != q,
    ensures
        literal_tail(t.drop_last(), q) == t.len() - 1,
    decreases t.len(),
{
    let u = t.drop_last();
    if t[0] == q {
        assert(t.len() > 1 && t[1] == q);
        assert(t.len() > 2);
        lemma_literal_tail_drop(t.skip(2), q);
        assert(u.skip(2) =~= t.skip(2).drop_last());
    } else if t.len() > 1 {
        lemma_literal_tail_drop(t.skip(1), q);
        assert(u.skip(1) =~= t.skip(1).drop_last());
    }
}

/// A squeezed text without a white space character at its end is squeezed.
proof fn lemma_settled_drop(u: Text, fresh: bool)
    requires
        squeezed(u, fresh) == u,
        u.len() > 0,
        is_space(u.last()),
    ensures
        squeezed(u.drop_last(), fresh) == u.drop_last(),
    decreases u.len(),
{
    let w = u.drop_last();
    if is_quote(u[0]) {
        let q = u[0];
        let n = literal_len(u) as int;
        lemma_literal_tail(u.skip(1), q);
        lemma_literal_next(u.skip(1), q);
        let rest = u.skip(n);
        assert(u =~= u.take(n) + squeezed(rest, false));
        assert(rest =~= squeezed(rest, false));
        if rest.len() > 0 {
            lemma_settled_drop(rest, false);
            let r = rest.drop_last();
            assert(rest[0] == u.skip(1)[n - 1]);
            lemma_literal_tail_append(u.skip(1), q, r);
            assert(w.skip(1) =~= u.skip(1).take(n - 1) + r);
            assert(w.skip(n) =~= r);
            assert(w.take(n) =~= u.take(n));
            assert(w =~= u.take(n) + r);
        } else {
            assert(u.last() != q);
            assert(u.skip(1).last() == u.last());
            lemma_literal_tail_drop(u.skip(1), q);
            assert(w.skip(1) =~= u.skip(1).drop_last());
            assert(literal_len(w) == n - 1);
            assert(w.take(n - 1) =~= w);
            assert(w.skip(n - 1) =~= Seq::empty());
            assert(w + Seq::<char>::empty() =~= w);
        }
    } else if gap_len(u) > 0 {
        lemma_gap_len(u);
        let rest = u.skip(gap_len(u) as int);
        lemma_squeezed_len(rest, true);
        assert(!fresh);
        assert(u[0] == ' ');
        assert(u.skip(1) =~= squeezed(rest, true));
        if rest.len() > 0 {
            lemma_settled_drop(rest, true);
            assert(w.skip(1) =~= rest.drop_last());
            assert(w =~= seq![' '] + rest.drop_last());
        } else {
            assert(w =~= Seq::empty());
        }
    } else {
        let rest = u.skip(1);
        assert(rest =~= squeezed(rest, false));
        if rest.len() > 0 {
            lemma_settled_drop(rest, false);
            assert(w.skip(1) =~= rest.drop_last());
            if w.len() > 1 {
                assert(w[1] == u[1]);
            }
            assert(gap_len(w) == 0);
            assert(w =~= seq![u[0]] + rest.drop_last());
        } else {
            assert(w =~= Seq::empty());
        }
    }
}

/// A squeezed text without its trailing white space is squeezed.
proof fn lemma_settled_trim_end(u: Text, fresh: bool)
    requires
        squeezed(u, fresh) == u,
    ensures
        squeezed(trim_end(u), fresh) == trim_end(u),
    decreases u.len(),
{
    if u.len() > 0 && is_space(u.last()) {
        lemma_settled_drop(u, fresh);
        lemma_settled_trim_end(u.drop_last(), fresh);
    }
}

/// What is left at the front and at the end of a trimmed text.
proof fn lemma_trim_end_edges(t: Text)
    ensures
        trim_end(t).len() <= t.len(),
        trim_end(t) == t.take(trim_end(t).len() as int),
        trim_end(t).len() > 0 ==> !is_space(trim_end(t).last()),
    decreases t.len(),
{
    if t.len() > 0 && is_space(t.last()) {
        lemma_trim_end_edges(t.drop_last());
    }
}

/// Trimming a trimmed text changes nothing.
pub proof fn lemma_trim_idempotent(t: Text)
    ensures
        trim(trim(t)) == trim(t),
{
    let s = trim_start(t);
    let u = trim_end(s);
    crate::search::lemma_trim_start_len(t);
    lemma_trim_end_edges(s);
    if u.len() > 0 {
        assert(u[0] == s[0]);
    }
}

proof fn lemma_without_ending(t: Text)
    ensures
        without_ending(t).len() <= t.len(),
        without_ending(t) == t.take(without_ending(t).len() as int),
        without_ending(t).len() > 0 ==> !is_ending(without_ending(t).last()),
    decreases t.len(),
{
    if t.len() > 0 && is_ending(t.last()) {
        lemma_without_ending(t.drop_last());
    }
}

/// The form that is hashed ends in no semicolon, and has no white space at either end.
pub proof fn lemma_hash_form_edges(t: Text)
    ensures
        hash_form(t).len() > 0 ==> hash_form(t).last() != ';',
        trim(hash_form(t)) == hash_form(t),
{
    let n = normal(t);
    let h = hash_form(t);
    lemma_without_ending(n);
    if h.len() > 0 {
        assert(h[0] == n[0]);
        assert(!is_space(n[0])) by {
            let s = trim_start(squeezed(t, true));
            crate::search::lemma_trim_start_len(squeezed(t, true));
            lemma_trim_end_edges(s);
            assert(n[0] == s[0]);
        }
    }
}

/// The normal form of a normal form is itself.
pub proof fn lemma_normal_idempotent(t: Text)
    ensures
        normal(normal(t)) == normal(t),
{
    let s = squeezed(t, true);
    lemma_squeezed_idempotent(t, true);
    lemma_settled_trim_start(s, true);
    lemma_settled_trim_end(trim_start(s), true);
    lemma_trim_idempotent(s);
}

/// White space in front of a text does not change its normal form.
pub proof fn lemma_normal_leading_space(c: char, t: Text)
    requires
        is_ascii_space(c),
    ensures
        normal(seq![c] + t) == normal(t),
{
    let u = seq![c] + t;
    assert(gap_len(u) == 1);
    assert(u.skip(1) =~= t);
}

/// A line comment in front of a text does not change its normal form.
pub proof fn lemma_normal_leading_line_comment(body: Text, t: Text)
    requires
        !body.contains('\n'),
    ensures
        normal(seq!['-', '-'] + body + seq!['\n'] + t) == normal(t),
{
    let u = seq!['-', '-'] + body + seq!['\n'] + t;
    assert(u.skip(2) =~= body + seq!['\n'] + t);
    lemma_line_len_of(body, t);
    assert(u.skip(gap_len(u) as int) =~= t);
}

proof fn lemma_line_len_of(body: Text, t: Text)
    requires
        !body.contains('\n'),
    ensures
        line_len(body + seq!['\n'] + t) == body.len() + 1,
    decreases body.len(),
{
    let u = body + seq!['\n'] + t;
    if body.len() > 0 {
        assert(body.contains(body[0]));
        assert forall|c: char| body.skip(1).contains(c) implies body.contains(c) by {
            let i = choose|i: int| 0 <= i < body.skip(1).len() && body.skip(1)[i] == c;
            assert(body[i + 1] == c);
        }
        lemma_line_len_of(body.skip(1), t);
        assert(u.skip(1) =~= body.skip(1) + seq!['\n'] + t);
    } else {
        assert(u[0] == '\n');
    }
}

/// A closed block comment in front of a text does not change its normal form.
/// `body` is what stands behind the opening mark, up to and with the last closing
/// one.
pub proof fn lemma_normal_leading_block_comment(body: Text, t: Text)
    requires
        block_closed(body, 1),
    ensures
        normal(seq!['/', '*'] + body + t) == normal(t),
{
    let u = seq!['/', '*'] + body + t;
    assert(u.skip(2) =~= body + t);
    lemma_block_tail_append(body, 1, t);
    assert(u.skip(gap_len(u) as int) =~= t);
}

/// Whether `depth` nested block comments, all of them open, are closed exactly at
/// the end of the text.
pub open spec fn block_closed(t: Text, depth: nat) -> bool
    decreases t.len(),
{
    if depth == 0 {
        t.len() == 0
    } else if t.len() == 0 {
        false
    } else if t.len() > 1 && t[0] == '*' && t[1] == '/' {
        block_closed(t.skip(2), (depth - 1) as nat)
    } else if t.len() > 1 && t[0] == '/' && t[1] == '*' {
        block_closed(t.skip(2), depth + 1)
    } else {
        block_closed(t.skip(1), depth)
    }
}

proof fn lemma_block_tail_append(body: Text, depth: nat, t: Text)
    requires
        block_closed(body, depth),
    ensures
        block_tail(body + t, depth) == body.len(),
    decreases body.len(),
{
    let u = body + t;
    if depth == 0 {
    } else if body.len() > 1 && body[0] == '*' && body[1] == '/' {
        lemma_block_tail_append(body.skip(2), (depth - 1) as nat, t);
        assert(u.skip(2) =~= body.skip(2) + t);
    } else if body.len() > 1 && body[0] == '/' && body[1] == '*' {
        lemma_block_tail_append(body.skip(2), depth + 1, t);
        assert(u.skip(2) =~= body.skip(2) + t);
    } else {
        lemma_block_tail_append(body.skip(1), depth, t);
        assert(body.len() > 1) by {
            if body.len() == 1 {
                assert(body.skip(1).len() == 0);
            }
        }
        assert(u.skip(1) =~= body.skip(1) + t);
    }
}

/// A closed literal in front of a text stays as it is, in its own case.
pub proof fn lemma_normal_keeps_literal(body: Text, q: char, t: Text)
    requires
        is_quote(q),
        literal_closed(body, q),
        literal_tail(body, q) == body.len(),
        t.len() > 0 ==> t[0] != q,
    ensures
        squeezed(seq![q] + body + t, true) == seq![q] + body + squeezed(t, false),
{
    let u = seq![q] + body + t;
    assert(body.take(body.len() as int) =~= body);
    lemma_literal_tail_append(body, q, t);
    assert(u.skip(1) =~= body + t);
    assert(u.take(literal_len(u) as int) =~= seq![q] + body);
    assert(u.skip(literal_len(u) as int) =~= t);
}

/// Outside literals the case of letters does not matter.
pub proof fn lemma_normal_ignores_case(t: Text)
    requires
        forall|i: int| 0 <= i < t.len() ==> !is_quote(#[trigger] t[i]),
    ensures
        normal(lower(t)) == normal(t),
{
    lemma_squeezed_ignores_case(t, true);
}

proof fn lemma_squeezed_ignores_case(t: Text, fresh: bool)
    requires
        forall|i: int| 0 <= i < t.len() ==> !is_quote(#[trigger] t[i]),
    ensures
        squeezed(lower(t), fresh) == squeezed(t, fresh),
    decreases t.len(),
{
    let u = lower(t);
    if t.len() > 0 {
        assert(u[0] == lower_char(t[0]));
        assert(!is_quote(t[0]));
        lemma_gap_len_case(t);
        let n: int = if gap_len(t) > 0 {
            gap_len(t) as int
        } else {
            1
        };
        lemma_gap_len(t);
        assert(u.skip(n) =~= lower(t.skip(n)));
        lemma_squeezed_ignores_case(t.skip(n), gap_len(t) > 0);
    }
}

proof fn lemma_gap_len_case(t: Text)
    ensures
        gap_len(lower(t)) == gap_len(t),
{
    let u = lower(t);
    if t.len() > 1 {
        assert(u[0] == lower_char(t[0]));
        assert(u[1] == lower_char(t[1]));
        assert(u.skip(2) =~= lower(t.skip(2)));
        lemma_line_len_case(t.skip(2));
        lemma_block_tail_case(t.skip(2), 1);
    } else if t.len() > 0 {
        assert(u[0] == lower_char(t[0]));
    }
}

proof fn lemma_line_len_case(t: Text)
    ensures
        line_len(lower(t)) == line_len(t),
    decreases t.len(),
{
    if t.len() > 0 {
        assert(lower(t)[0] == lower_char(t[0]));
        assert(lower(t).skip(1) =~= lower(t.skip(1)));
        lemma_line_len_case(t.skip(1));
    }
}

proof fn lemma_block_tail_case(t: Text, depth: nat)
    ensures
        block_tail(lower(t), depth) == block_tail(t, depth),
    decreases t.len(),
{
    let u = lower(t);
    if depth > 0 && t.len() > 0 {
        assert(u[0] == lower_char(t[0]));
        assert(u.skip(1) =~= lower(t.skip(1)));
        lemma_block_tail_case(t.skip(1), depth);
        if t.len() > 1 {
            assert(u[1] == lower_char(t[1]));
            assert(u.skip(2) =~= lower(t.skip(2)));
            lemma_block_tail_case(t.skip(2), (depth - 1) as nat);
            lemma_block_tail_case(t.skip(2), depth + 1);
        }
    }
}

} // verus!
