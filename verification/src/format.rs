//! Small formats: quoting, joining, decimal numbers.

use vstd::prelude::*;

use crate::text::{chars_of, digit_char, string_of, Text};
#[allow(unused_imports)]
use crate::text::is_digit_char;

verus! {

// ---------------------------------------------------------------------------
// Quoting
// ---------------------------------------------------------------------------

/// The text with every `q` written twice.
pub open spec fn doubled(t: Text, q: char) -> Text
    decreases t.len(),
{
    if t.len() == 0 {
        Seq::empty()
    } else if t.last() == q {
        doubled(t.drop_last(), q).push(q).push(q)
    } else {
        doubled(t.drop_last(), q).push(t.last())
    }
}

/// A double-quoted SQL identifier.
pub open spec fn quoted_ident(name: Text) -> Text {
    seq!['"'] + doubled(name, '"') + seq!['"']
}

/// The characters of `s` with every `q` written twice.
pub fn double_char(s: &str, q: char) -> (r: String)
    ensures
        r@ == doubled(s@, q),
{
    let v = chars_of(s);
    let mut out: Vec<char> = Vec::new();
    let mut i: usize = 0;
    assert(v@.take(0) =~= Seq::empty());
    while i < v.len()
        invariant
            i <= v.len(),
            out@ == doubled(v@.take(i as int), q),
        decreases v.len() - i,
    {
        assert(v@.take(i + 1).drop_last() == v@.take(i as int));
        if v[i] == q {
            out.push(q);
            out.push(q);
        } else {
            out.push(v[i]);
        }
        i += 1;
    }
    assert(v@.take(v.len() as int) == v@);
    string_of(out.as_slice())
}

/// The name as a double-quoted SQL identifier.
pub fn quote_ident(name: &str) -> (r: String)
    ensures
        r@ == quoted_ident(name@),
{
    let inner = double_char(name, '"');
    let mut out = String::new();
    out.push('"');
    out.append(inner.as_str());
    out.push('"');
    assert(out@ =~= quoted_ident(name@));
    out
}

/// Quoting loses nothing: two names with the same quoted form are the same.
pub proof fn lemma_quoted_ident_injective(a: Text, b: Text)
    requires
        quoted_ident(a) == quoted_ident(b),
    ensures
        a == b,
{
    let x = doubled(a, '"');
    let y = doubled(b, '"');
    assert(quoted_ident(a).subrange(1, x.len() as int + 1) =~= x);
    assert(quoted_ident(b).subrange(1, y.len() as int + 1) =~= y);
    assert(quoted_ident(a).len() == x.len() + 2);
    assert(quoted_ident(b).len() == y.len() + 2);
    lemma_doubled_injective(a, b, '"');
}

proof fn lemma_doubled_injective(a: Text, b: Text, q: char)
    requires
        doubled(a, q) == doubled(b, q),
    ensures
        a == b,
    decreases a.len(),
{
    let x = doubled(a, q);
    let y = doubled(b, q);
    if a.len() == 0 {
        if b.len() > 0 {
            assert(y.len() > 0);
        }
        assert(a =~= b);
    } else {
        assert(x.len() > 0);
        assert(b.len() > 0);
        let a1 = a.drop_last();
        let b1 = b.drop_last();
        assert(a.last() == x.last());
        assert(b.last() == y.last());
        if a.last() == q {
            assert(x.drop_last().drop_last() =~= doubled(a1, q));
            assert(y.drop_last().drop_last() =~= doubled(b1, q));
        } else {
            assert(x.drop_last() =~= doubled(a1, q));
            assert(y.drop_last() =~= doubled(b1, q));
        }
        lemma_doubled_injective(a1, b1, q);
        assert(a =~= a1.push(a.last()));
        assert(b =~= b1.push(b.last()));
    }
}

// ---------------------------------------------------------------------------
// Joining
// ---------------------------------------------------------------------------

/// The texts one after the other with `sep` between them.
pub open spec fn joined(list: Seq<Text>, sep: Text) -> Text
    decreases list.len(),
{
    if list.len() == 0 {
        Seq::empty()
    } else if list.len() == 1 {
        list[0]
    } else {
        joined(list.drop_last(), sep) + sep + list.last()
    }
}

/// The strings one after the other with `sep` between them.
pub fn join(list: &Vec<String>, sep: &str) -> (r: String)
    ensures
        r@ == joined(list.deep_view(), sep@),
{
    let mut out = String::new();
    let mut i: usize = 0;
    let ghost texts = list.deep_view();
    assert(texts.take(0) =~= Seq::empty());
    while i < list.len()
        invariant
            i <= list.len(),
            texts == list.deep_view(),
            out@ == joined(texts.take(i as int), sep@),
        decreases list.len() - i,
    {
        assert(texts.take(i + 1).drop_last() =~= texts.take(i as int));
        assert(texts.take(i + 1).last() == list@[i as int]@);
        if i > 0 {
            out.append(sep);
        } else {
            assert(out@ + list@[0]@ =~= list@[0]@);
        }
        out.append(list[i].as_str());
        i += 1;
    }
    assert(texts.take(texts.len() as int) =~= texts);
    out
}

/// `a` followed by `b`.
pub fn glue2(a: &str, b: &str) -> (r: String)
    ensures
        r@ == a@ + b@,
{
    let mut out = String::new();
    out.append(a);
    out.append(b);
    assert(out@ =~= a@ + b@);
    out
}

/// `a`, `b` and `c`, one after the other.
pub fn glue3(a: &str, b: &str, c: &str) -> (r: String)
    ensures
        r@ == a@ + b@ + c@,
{
    let mut out = glue2(a, b);
    out.append(c);
    out
}

/// `a`, `b`, `c` and `d`, one after the other.
pub fn glue4(a: &str, b: &str, c: &str, d: &str) -> (r: String)
    ensures
        r@ == a@ + b@ + c@ + d@,
{
    let mut out = glue3(a, b, c);
    out.append(d);
    out
}

/// `a`, `b`, `c`, `d` and `e`, one after the other.
pub fn glue5(a: &str, b: &str, c: &str, d: &str, e: &str) -> (r: String)
    ensures
        r@ == a@ + b@ + c@ + d@ + e@,
{
    let mut out = glue4(a, b, c, d);
    out.append(e);
    out
}

// ---------------------------------------------------------------------------
// Decimal numbers
// ---------------------------------------------------------------------------

/// The decimal digit `d`.
pub open spec fn digit(d: int) -> char {
    ('0' as u8 + d) as char
}

/// The number in decimal, without leading zeros.
pub open spec fn decimal(n: nat) -> Text
    decreases n,
{
    if n < 10 {
        seq![digit(n as int)]
    } else {
        decimal(n / 10).push(digit((n % 10) as int))
    }
}

/// A signed number in decimal.
pub open spec fn signed_decimal(n: int) -> Text {
    if n < 0 {
        seq!['-'] + decimal((-n) as nat)
    } else {
        decimal(n as nat)
    }
}

/// The number in decimal.
pub fn decimal_of_wide(n: u128) -> (r: String)
    ensures
        r@ == decimal(n as nat),
    decreases n,
{
    let d: u8 = (n % 10) as u8;
    let c: char = ('0' as u8 + d) as char;
    assert(c == digit((n % 10) as int));
    if n < 10 {
        let mut out = String::new();
        out.push(c);
        assert(out@ =~= seq![digit(n as int)]);
        out
    } else {
        let mut out = decimal_of_wide(n / 10);
        out.push(c);
        out
    }
}

/// The number in decimal.
pub fn decimal_of(n: u64) -> (r: String)
    ensures
        r@ == decimal(n as nat),
{
    decimal_of_wide(n as u128)
}

/// The signed number in decimal.
pub fn signed_decimal_of(n: i64) -> (r: String)
    ensures
        r@ == signed_decimal(n as int),
{
    if n < 0 {
        let m: i128 = -(n as i128);
        let digits = decimal_of(m as u64);
        let mut out = String::new();
        out.push('-');
        out.append(digits.as_str());
        assert(out@ =~= signed_decimal(n as int));
        out
    } else {
        decimal_of(n as u64)
    }
}

/// All characters are decimal digits.
pub open spec fn all_digits(t: Text) -> bool {
    forall|i: int| 0 <= i < t.len() ==> is_digit_char(#[trigger] t[i])
}

/// The number that a run of decimal digits stands for.
pub open spec fn number(t: Text) -> nat
    decreases t.len(),
{
    if t.len() == 0 {
        0
    } else {
        number(t.drop_last()) * 10 + (t.last() as u32 - '0' as u32) as nat
    }
}

/// The text without one leading plus sign.
pub open spec fn without_plus(t: Text) -> Text {
    if t.len() > 0 && t[0] == '+' {
        t.skip(1)
    } else {
        t
    }
}

/// The unsigned number up to `max` that the text is the decimal form of: an
/// optional plus sign and at least one digit.
pub open spec fn parsed(t: Text, max: nat) -> Option<nat> {
    let d = without_plus(t);
    if d.len() > 0 && all_digits(d) && number(d) <= max {
        Some(number(d))
    } else {
        None
    }
}

/// Longer runs of digits stand for numbers at least as great.
proof fn lemma_number_prefix(t: Text, k: int)
    requires
        0 <= k <= t.len(),
    ensures
        number(t.take(k)) <= number(t),
    decreases t.len(),
{
    if k < t.len() {
        lemma_number_prefix(t.drop_last(), k);
        assert(t.drop_last().take(k) == t.take(k));
    } else {
        assert(t.take(k) == t);
    }
}

/// The unsigned number up to `max` that `s` is the decimal form of.
pub fn parse_number(s: &str, max: u64) -> (r: Option<u64>)
    ensures
        match r {
            Some(n) => parsed(s@, max as nat) == Some(n as nat),
            None => parsed(s@, max as nat) is None,
        },
{
    let v = chars_of(s);
    let from: usize = if v.len() > 0 && v[0] == '+' {
        1
    } else {
        0
    };
    let ghost d = without_plus(s@);
    assert(d == v@.skip(from as int));
    if from == v.len() {
        return None;
    }
    let mut n: u64 = 0;
    let mut i: usize = from;
    assert(d.take(0) =~= Seq::empty());
    while i < v.len()
        invariant
            from <= i <= v.len(),
            d == v@.skip(from as int),
            n == number(d.take(i - from)),
            n <= max,
            forall|k: int| 0 <= k < i - from ==> is_digit_char(#[trigger] d[k]),
            d == without_plus(s@),
        decreases v.len() - i,
    {
        let ghost k = i - from;
        let c = v[i];
        assert(d[k] == c);
        if !digit_char(c) {
            assert(!all_digits(d));
            return None;
        }
        let x: u64 = (c as u32 - '0' as u32) as u64;
        proof {
            assert(d.take(k + 1).drop_last() == d.take(k));
            lemma_number_prefix(d, k + 1);
        }
        if n > max / 10 {
            assert(number(d.take(k + 1)) > max) by (nonlinear_arith)
                requires
                    number(d.take(k + 1)) == n * 10 + x,
                    n > max / 10,
            ;
            return None;
        }
        let m: u128 = n as u128 * 10 + x as u128;
        if m > max as u128 {
            return None;
        }
        n = m as u64;
        i += 1;
    }
    assert(d.take(d.len() as int) == d);
    Some(n)
}

/// The signed 64-bit number that the text is the decimal form of: an optional
/// sign and at least one digit.
pub open spec fn parsed_signed(t: Text) -> Option<int> {
    if t.len() > 0 && t[0] == '-' {
        if t.len() > 1 && t[1] != '+' {
            match parsed(t.skip(1), 0x8000_0000_0000_0000) {
                Some(n) => Some(-(n as int)),
                None => None,
            }
        } else {
            None
        }
    } else {
        match parsed(t, 0x7fff_ffff_ffff_ffff) {
            Some(n) => Some(n as int),
            None => None,
        }
    }
}

/// The signed 64-bit number that `s` is the decimal form of.
pub fn parse_signed(s: &str) -> (r: Option<i64>)
    ensures
        match r {
            Some(n) => parsed_signed(s@) == Some(n as int),
            None => parsed_signed(s@) is None,
        },
{
    let v = chars_of(s);
    if v.len() > 0 && v[0] == '-' {
        if v.len() > 1 && v[1] != '+' {
            let rest = crate::text::string_of_range(v.as_slice(), 1, v.len());
            assert(rest@ == s@.skip(1));
            match parse_number(rest.as_str(), 0x8000_0000_0000_0000) {
                Some(n) => {
                    let m: i128 = -(n as i128);
                    Some(m as i64)
                },
                None => None,
            }
        } else {
            None
        }
    } else {
        match parse_number(s, 0x7fff_ffff_ffff_ffff) {
            Some(n) => Some(n as i64),
            None => None,
        }
    }
}

/// What is written in decimal reads back as the same number.
pub proof fn lemma_decimal_round_trip(n: nat, max: nat)
    requires
        n <= max,
    ensures
        parsed(decimal(n), max) == Some(n),
{
    lemma_decimal_digits(n);
}

pub proof fn lemma_decimal_digits(n: nat)
    ensures
        decimal(n).len() > 0,
        all_digits(decimal(n)),
        number(decimal(n)) == n,
        decimal(n)[0] != '+',
    decreases n,
{
    if n < 10 {
        assert(decimal(n).drop_last() =~= Seq::empty());
        assert(number(decimal(n).drop_last()) == 0);
    } else {
        lemma_decimal_digits(n / 10);
        let p = decimal(n / 10);
        let d = digit((n % 10) as int);
        assert(decimal(n) == p.push(d));
        assert(decimal(n).drop_last() =~= p);
        assert forall|i: int| 0 <= i < decimal(n).len() implies is_digit_char(
            #[trigger] decimal(n)[i],
        ) by {
            if i < p.len() {
                assert(decimal(n)[i] == p[i]);
            }
        }
    }
}

} // verus!
