//! Text as a sequence of characters: the character classes, the searches and
//! the small formats that SQL handling needs, each as a mathematical function
//! and as the executable function that computes it.

use vstd::prelude::*;

verus! {

/// The mathematical model of a string: its characters.
pub type Text = Seq<char>;

/// `String::push` of std appends one character at the end.
pub assume_specification[ String::push ](s: &mut String, ch: char)
    ensures
        final(s)@ == old(s)@.push(ch),
;

// ---------------------------------------------------------------------------
// Characters
// ---------------------------------------------------------------------------

pub open spec fn is_upper_char(c: char) -> bool {
    'A' <= c && c <= 'Z'
}

pub open spec fn is_lower_char(c: char) -> bool {
    'a' <= c && c <= 'z'
}

pub open spec fn is_digit_char(c: char) -> bool {
    '0' <= c && c <= '9'
}

/// The characters of a bare SQL identifier: ASCII letters, digits, underscore.
pub open spec fn is_word_char(c: char) -> bool {
    is_upper_char(c) || is_lower_char(c) || is_digit_char(c) || c == '_'
}

/// ASCII white space: space, tab, line feed, form feed, carriage return.
pub open spec fn is_ascii_space(c: char) -> bool {
    c == ' ' || c == '\t' || c == '\n' || c == '\u{c}' || c == '\r'
}

/// The Unicode `White_Space` property.
pub open spec fn is_space(c: char) -> bool {
    ||| '\t' <= c && c <= '\r'
    ||| c == ' '
    ||| c == '\u{85}'
    ||| c == '\u{a0}'
    ||| c == '\u{1680}'
    ||| '\u{2000}' <= c && c <= '\u{200a}'
    ||| c == '\u{2028}'
    ||| c == '\u{2029}'
    ||| c == '\u{202f}'
    ||| c == '\u{205f}'
    ||| c == '\u{3000}'
}

pub open spec fn lower_char(c: char) -> char {
    if is_upper_char(c) {
        (c as u8 + 32) as char
    } else {
        c
    }
}

pub open spec fn upper_char(c: char) -> char {
    if is_lower_char(c) {
        (c as u8 - 32) as char
    } else {
        c
    }
}

pub fn word_char(c: char) -> (r: bool)
    ensures
        r == is_word_char(c),
{
    ('A' <= c && c <= 'Z') || ('a' <= c && c <= 'z') || ('0' <= c && c <= '9') || c == '_'
}

pub fn digit_char(c: char) -> (r: bool)
    ensures
        r == is_digit_char(c),
{
    '0' <= c && c <= '9'
}

pub fn ascii_space(c: char) -> (r: bool)
    ensures
        r == is_ascii_space(c),
{
    c == ' ' || c == '\t' || c == '\n' || c == '\u{c}' || c == '\r'
}

pub fn space(c: char) -> (r: bool)
    ensures
        r == is_space(c),
{
    ('\t' <= c && c <= '\r') || c == ' ' || c == '\u{85}' || c == '\u{a0}' || c == '\u{1680}' || (
    '\u{2000}' <= c && c <= '\u{200a}') || c == '\u{2028}' || c == '\u{2029}' || c == '\u{202f}'
        || c == '\u{205f}' || c == '\u{3000}'
}

pub fn lowered(c: char) -> (r: char)
    ensures
        r == lower_char(c),
{
    if 'A' <= c && c <= 'Z' {
        (c as u8 + 32) as char
    } else {
        c
    }
}

pub fn uppered(c: char) -> (r: char)
    ensures
        r == upper_char(c),
{
    if 'a' <= c && c <= 'z' {
        (c as u8 - 32) as char
    } else {
        c
    }
}

// ---------------------------------------------------------------------------
// Strings and character vectors
// ---------------------------------------------------------------------------

/// The characters of a string slice.
pub fn chars_of(s: &str) -> (v: Vec<char>)
    ensures
        v@ == s@,
{
    let mut v: Vec<char> = Vec::new();
    for c in it: s.chars()
        invariant
            v@ == it.seq().take(it.index() as int),
            it.seq() == s@,
    {
        v.push(c);
    }
    assert(v@ == s@);
    v
}

/// The string made of the given characters.
pub fn string_of(v: &[char]) -> (s: String)
    ensures
        s@ == v@,
{
    string_of_range(v, 0, v.len())
}

/// The string made of the characters `from .. to`.
pub fn string_of_range(v: &[char], from: usize, to: usize) -> (s: String)
    requires
        from <= to <= v.len(),
    ensures
        s@ == v@.subrange(from as int, to as int),
{
    let mut s = String::new();
    let mut i: usize = from;
    while i < to
        invariant
            from <= i <= to <= v.len(),
            s@ == v@.subrange(from as int, i as int),
        decreases to - i,
    {
        s.push(v[i]);
        i += 1;
        assert(s@ == v@.subrange(from as int, i as int));
    }
    s
}

/// Appends the characters of `more`.
pub fn push_chars(out: &mut Vec<char>, more: &[char])
    ensures
        final(out)@ == old(out)@ + more@,
{
    let ghost before = out@;
    let mut i: usize = 0;
    while i < more.len()
        invariant
            i <= more.len(),
            out@ == before + more@.take(i as int),
        decreases more.len() - i,
    {
        out.push(more[i]);
        i += 1;
        assert(out@ == before + more@.take(i as int));
    }
    assert(more@.take(more.len() as int) == more@);
}

/// Whether two character slices are equal.
pub fn chars_equal(a: &[char], b: &[char]) -> (r: bool)
    ensures
        r == (a@ == b@),
{
    if a.len() != b.len() {
        return false;
    }
    let mut i: usize = 0;
    while i < a.len()
        invariant
            i <= a.len(),
            a.len() == b.len(),
            forall|k: int| 0 <= k < i ==> a@[k] == b@[k],
        decreases a.len() - i,
    {
        if a[i] != b[i] {
            assert(a@[i as int] != b@[i as int]);
            return false;
        }
        i += 1;
    }
    assert(a@ == b@);
    true
}

/// Whether two string slices are equal.
pub fn str_equal(a: &str, b: &str) -> (r: bool)
    ensures
        r == (a@ == b@),
{
    let x = chars_of(a);
    let y = chars_of(b);
    chars_equal(x.as_slice(), y.as_slice())
}

// ---------------------------------------------------------------------------
// Case
// ---------------------------------------------------------------------------

/// ASCII lower case, character by character.
pub open spec fn lower(t: Text) -> Text {
    Seq::new(t.len(), |i: int| lower_char(t[i]))
}

/// ASCII upper case, character by character.
pub open spec fn upper(t: Text) -> Text {
    Seq::new(t.len(), |i: int| upper_char(t[i]))
}

/// Equality up to ASCII case.
pub open spec fn same_name(a: Text, b: Text) -> bool {
    lower(a) == lower(b)
}

pub fn lower_chars(s: &str) -> (v: Vec<char>)
    ensures
        v@ == lower(s@),
{
    let src = chars_of(s);
    let mut v: Vec<char> = Vec::new();
    let mut i: usize = 0;
    while i < src.len()
        invariant
            i <= src.len(),
            src@ == s@,
            v@ == lower(s@).take(i as int),
        decreases src.len() - i,
    {
        v.push(lowered(src[i]));
        i += 1;
        assert(v@ == lower(s@).take(i as int));
    }
    assert(v@ == lower(s@));
    v
}

pub fn to_lower(s: &str) -> (r: String)
    ensures
        r@ == lower(s@),
{
    let v = lower_chars(s);
    string_of(v.as_slice())
}

/// Whether two names are equal up to ASCII case.
pub fn names_equal(a: &str, b: &str) -> (r: bool)
    ensures
        r == same_name(a@, b@),
{
    let x = lower_chars(a);
    let y = lower_chars(b);
    chars_equal(x.as_slice(), y.as_slice())
}

/// Lower case is reached in one step.
pub proof fn lemma_lower_idempotent(t: Text)
    ensures
        lower(lower(t)) == lower(t),
{
    assert(lower(lower(t)) =~= lower(t));
}

// ---------------------------------------------------------------------------
// Trimming
// ---------------------------------------------------------------------------

/// The text without its leading white space.
pub open spec fn trim_start(t: Text) -> Text
    decreases t.len(),
{
    if t.len() > 0 && is_space(t[0]) {
        trim_start(t.skip(1))
    } else {
        t
    }
}

/// The text without its trailing white space.
pub open spec fn trim_end(t: Text) -> Text
    decreases t.len(),
{
    if t.len() > 0 && is_space(t.last()) {
        trim_end(t.drop_last())
    } else {
        t
    }
}

pub open spec fn trim(t: Text) -> Text {
    trim_end(trim_start(t))
}

/// The position at which the text without its leading white space starts.
pub fn trim_start_at(v: &[char]) -> (k: usize)
    ensures
        k <= v.len(),
        v@.skip(k as int) == trim_start(v@),
        k < v.len() ==> !is_space(v@[k as int]),
{
    let mut k: usize = 0;
    assert(v@.skip(0) == v@);
    while k < v.len() && space(v[k])
        invariant
            k <= v.len(),
            trim_start(v@) == trim_start(v@.skip(k as int)),
        decreases v.len() - k,
    {
        assert(v@.skip(k as int).skip(1) == v@.skip(k + 1));
        k += 1;
    }
    k
}

/// The position at which the text without its trailing white space ends.
pub fn trim_end_at(v: &[char]) -> (k: usize)
    ensures
        k <= v.len(),
        v@.take(k as int) == trim_end(v@),
{
    let mut k: usize = v.len();
    assert(v@.take(k as int) == v@);
    while k > 0 && space(v[k - 1])
        invariant
            k <= v.len(),
            trim_end(v@) == trim_end(v@.take(k as int)),
        decreases k,
    {
        assert(v@.take(k as int).drop_last() == v@.take(k - 1));
        k -= 1;
    }
    k
}

/// The trimmed characters.
pub fn trim_chars(v: &[char]) -> (r: Vec<char>)
    ensures
        r@ == trim(v@),
{
    let a = trim_start_at(v);
    let head = vstd::slice::slice_subrange(v, a, v.len());
    assert(head@ == v@.skip(a as int));
    let b = trim_end_at(head);
    let mut r: Vec<char> = Vec::new();
    push_chars(&mut r, vstd::slice::slice_subrange(head, 0, b));
    assert(r@ == head@.take(b as int));
    r
}

/// Whether nothing but white space is in the text.
pub fn is_blank(s: &str) -> (r: bool)
    ensures
        r == (trim(s@).len() == 0),
{
    let v = chars_of(s);
    let t = trim_chars(v.as_slice());
    t.len() == 0
}

} // verus!
