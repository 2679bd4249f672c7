//! What is read from the text of a statement: what it makes, the CHECK constraints and the
//! tables that it refers to.

use vstd::prelude::*;

#[allow(unused_imports)]
use crate::ddl::{
    check_start, checks_in, collated, collation_in, column_section, group_len,
    makes_materialized_view, name_at, references_in, sorted_list, starts_reference,
};
#[allow(unused_imports)]
use crate::execute::{created_kind, without_leading_comments, CreateKind};
#[allow(unused_imports)]
use crate::lists::{lemma_less_total, lemma_less_transitive, less, slot_from};
#[allow(unused_imports)]
use crate::normalize::{is_quote, lemma_literal_tail, literal_len};
#[allow(unused_imports)]
use crate::format::quoted_ident;
#[allow(unused_imports)]
use crate::plan::{name_end, past_if_not_exists, past_keyword, with_table_name};
#[allow(unused_imports)]
use crate::policy_laws::{lemma_contains_around, lemma_literal_ends, stands_in};
#[allow(unused_imports)]
use crate::schema::ColumnModel;
#[allow(unused_imports)]
use crate::search::{
    contains, find, lemma_find_from, lemma_part_len, matches_at, part_len, past_space, past_word,
    word_len, words,
};
#[allow(unused_imports)]
use crate::text::{is_space, is_word_char, lower, trim, trim_start, upper, Text};
#[allow(unused_imports)]
use crate::text_laws::lemma_part_without;

verus! {

// ---------------------------------------------------------------------------
// Words
// ---------------------------------------------------------------------------

/// A word: at least one character, and no white space.
pub open spec fn is_word(w: Text) -> bool {
    w.len() > 0 && forall|i: int| 0 <= i < w.len() ==> !is_space(#[trigger] w[i])
}

proof fn lemma_word_len_of(w: Text, rest: Text)
    requires
        forall|i: int| 0 <= i < w.len() ==> !is_space(#[trigger] w[i]),
        rest.len() > 0 ==> is_space(rest[0]),
    ensures
        word_len(w + rest) == w.len(),
    decreases w.len(),
{
    let t = w + rest;
    if w.len() > 0 {
        assert(t[0] == w[0]);
        assert(t.skip(1) =~= w.skip(1) + rest);
        assert forall|i: int| 0 <= i < w.skip(1).len() implies !is_space(#[trigger] w.skip(1)[i]) by {
            assert(w.skip(1)[i] == w[i + 1]);
        }
        lemma_word_len_of(w.skip(1), rest);
    } else {
        assert(t =~= rest);
    }
}

/// A text that starts with a word and a space has that word first, and then the words of
/// the rest.
pub proof fn lemma_first_word(w: Text, rest: Text)
    requires
        is_word(w),
    ensures
        words(w + " "@ + rest) == seq![w] + words(rest),
{
    reveal_strlit(" ");
    let tail = " "@ + rest;
    let t = w + " "@ + rest;
    assert(t =~= w + tail);
    assert(t[0] == w[0]);
    assert(!is_space(w[0]));
    assert(trim_start(t) == t);
    assert(is_space(' '));
    lemma_word_len_of(w, tail);
    assert(t.take(w.len() as int) =~= w);
    assert(t.skip(w.len() as int) =~= tail);
    assert(tail[0] == ' ');
    assert(tail.skip(1) =~= rest);
    assert(trim_start(tail) == trim_start(rest));
    assert(words(tail) == words(rest));
}

proof fn lemma_lower_join(a: Text, b: Text)
    ensures
        lower(a + b) == lower(a) + lower(b),
{
    assert(lower(a + b) =~= lower(a) + lower(b));
}

proof fn lemma_lower_word(w: Text)
    requires
        is_word(w),
    ensures
        is_word(lower(w)),
{
    assert forall|i: int| 0 <= i < lower(w).len() implies !is_space(#[trigger] lower(w)[i]) by {
        assert(!is_space(w[i]));
    }
}

// ---------------------------------------------------------------------------
// What a statement makes
// ---------------------------------------------------------------------------

proof fn lemma_words_of_statement(a: Text, b: Text, rest: Text)
    requires
        is_word(a),
        is_word(b),
        a[0] != '-',
        a[0] != '/',
    ensures
        words(lower(without_leading_comments(a + " "@ + b + " "@ + rest))) == seq![
            lower(a),
            lower(b),
        ] + words(lower(rest)),
{
    reveal_strlit(" ");
    let tail = b + " "@ + rest;
    let t = a + " "@ + b + " "@ + rest;
    assert(t =~= a + " "@ + tail);
    assert(t[0] == a[0]);
    assert(!is_space(a[0]));
    assert(trim_start(t) == t);
    assert(without_leading_comments(t) == t);
    assert(lower(" "@) =~= " "@);
    lemma_lower_join(a + " "@, tail);
    lemma_lower_join(a, " "@);
    lemma_lower_join(b + " "@, rest);
    lemma_lower_join(b, " "@);
    lemma_lower_word(a);
    lemma_lower_word(b);
    assert(lower(t) == lower(a) + " "@ + lower(tail));
    assert(lower(tail) == lower(b) + " "@ + lower(rest));
    lemma_first_word(lower(a), lower(tail));
    lemma_first_word(lower(b), lower(rest));
    assert(seq![lower(a)] + (seq![lower(b)] + words(lower(rest))) =~= seq![lower(a), lower(b)]
        + words(lower(rest)));
}

/// A statement makes a view where its first words are CREATE and VIEW, and a trigger where
/// they are CREATE and TRIGGER, whatever the case and whatever follows. Where the first one
/// is not CREATE, or the second one is another word than these, TEMP, TEMPORARY and
/// MATERIALIZED, it makes neither.
pub proof fn lemma_made_by_two_words(a: Text, b: Text, rest: Text)
    requires
        is_word(a),
        is_word(b),
        a[0] != '-',
        a[0] != '/',
    ensures
        ({
            let k = created_kind(a + " "@ + b + " "@ + rest);
            let x = lower(a);
            let y = lower(b);
            &&& x == "create"@ && y == "view"@ ==> k == Some(CreateKind::View)
            &&& x == "create"@ && y == "trigger"@ ==> k == Some(CreateKind::Trigger)
            &&& x != "create"@ ==> k is None
            &&& y != "view"@ && y != "trigger"@ && y != "temp"@ && y != "temporary"@ && y
                != "materialized"@ ==> k is None
        }),
{
    lemma_words_of_statement(a, b, rest);
    lemma_kinds_differ();
    let w = words(lower(without_leading_comments(a + " "@ + b + " "@ + rest)));
    assert(w[0] == lower(a));
    assert(w[1] == lower(b));
}

proof fn lemma_kinds_differ()
    ensures
        "view"@ != "temp"@,
        "view"@ != "temporary"@,
        "view"@ != "trigger"@,
        "view"@ != "materialized"@,
        "trigger"@ != "temp"@,
        "trigger"@ != "temporary"@,
        "trigger"@ != "materialized"@,
        "materialized"@ != "temp"@,
        "materialized"@ != "temporary"@,
{
    reveal_strlit("view");
    reveal_strlit("temp");
    reveal_strlit("temporary");
    reveal_strlit("trigger");
    reveal_strlit("materialized");
    assert("view"@[0] != "temp"@[0]);
    assert("view"@[0] != "temporary"@[0]);
    assert("view"@[0] != "trigger"@[0]);
    assert("view"@[0] != "materialized"@[0]);
    assert("trigger"@[1] != "temp"@[1]);
    assert("trigger"@[1] != "temporary"@[1]);
    assert("trigger"@[0] != "materialized"@[0]);
    assert("materialized"@[0] != "temp"@[0]);
    assert("materialized"@[0] != "temporary"@[0]);
}

/// Behind CREATE and TEMP or TEMPORARY, and behind CREATE and MATERIALIZED, the third word
/// says what is made: a view, or a trigger where it is not materialized.
pub proof fn lemma_made_by_three_words(a: Text, b: Text, c: Text, rest: Text)
    requires
        is_word(a),
        is_word(b),
        is_word(c),
        lower(a) == "create"@,
    ensures
        ({
            let k = created_kind(a + " "@ + b + " "@ + (c + " "@ + rest));
            let temp = lower(b) == "temp"@ || lower(b) == "temporary"@;
            let materialized = lower(b) == "materialized"@;
            &&& (temp || materialized) && lower(c) == "view"@ ==> k == Some(CreateKind::View)
            &&& temp && lower(c) == "trigger"@ ==> k == Some(CreateKind::Trigger)
            &&& materialized && lower(c) != "view"@ ==> k is None
            &&& temp && lower(c) != "view"@ && lower(c) != "trigger"@ && lower(c)
                != "materialized"@ ==> k is None
        }),
{
    reveal_strlit("create");
    assert(lower(a)[0] == 'c');
    assert(a[0] != '-' && a[0] != '/');
    reveal_strlit(" ");
    assert(lower(" "@) =~= " "@);
    let more = c + " "@ + rest;
    lemma_words_of_statement(a, b, more);
    lemma_lower_join(c + " "@, rest);
    lemma_lower_join(c, " "@);
    lemma_lower_word(c);
    lemma_first_word(lower(c), lower(rest));
    lemma_kinds_differ();
    let w = words(lower(without_leading_comments(a + " "@ + b + " "@ + more)));
    assert(w[0] == lower(a));
    assert(w[1] == lower(b));
    assert(w[2] == lower(c));
}

/// A line comment and white space in front of a statement say nothing of what it makes.
pub proof fn lemma_comment_makes_nothing(body: Text, t: Text)
    requires
        !body.contains('\n'),
    ensures
        created_kind("--"@ + body + "\n"@ + t) == created_kind(t),
        created_kind(" "@ + t) == created_kind(t),
        created_kind("\n"@ + t) == created_kind(t),
{
    reveal_strlit("--");
    reveal_strlit("\n");
    reveal_strlit(" ");
    let u = "--"@ + body + "\n"@ + t;
    assert(u[0] == '-' && u[1] == '-');
    assert(!is_space('-'));
    assert(trim_start(u) == u);
    assert(u.skip(2) =~= body + ("\n"@ + t));
    assert forall|i: int| 0 <= i < body.len() implies #[trigger] body[i] != '\n' by {
        assert(body.contains(body[i]));
    }
    lemma_part_without(body, "\n"@ + t, '\n');
    let n = part_len(u.skip(2), '\n') as int;
    assert(u.skip(2 + n + 1) =~= t);
    assert(without_leading_comments(u) == without_leading_comments(t));
    lemma_space_in_front(' ', t);
    lemma_space_in_front('\n', t);
    assert(" "@ + t =~= seq![' '] + t);
    assert("\n"@ + t =~= seq!['\n'] + t);
}

proof fn lemma_space_in_front(c: char, t: Text)
    requires
        is_space(c),
    ensures
        without_leading_comments(seq![c] + t) == without_leading_comments(t),
{
    let u = seq![c] + t;
    assert(u[0] == c);
    assert(u.skip(1) =~= t);
    assert(trim_start(u) == trim_start(t));
}

/// A statement makes a materialized view exactly where its first three words are CREATE,
/// MATERIALIZED and VIEW, whatever the case and whatever follows.
pub proof fn lemma_materialized_view(a: Text, b: Text, c: Text, rest: Text)
    requires
        is_word(a),
        is_word(b),
        is_word(c),
    ensures
        makes_materialized_view(a + " "@ + (b + " "@ + (c + " "@ + rest))) <==> lower(a) == lower(
            "create"@,
        ) && lower(b) == lower("materialized"@) && lower(c) == lower("view"@),
{
    lemma_first_word(a, b + " "@ + (c + " "@ + rest));
    lemma_first_word(b, c + " "@ + rest);
    lemma_first_word(c, rest);
    let w = words(a + " "@ + (b + " "@ + (c + " "@ + rest)));
    assert(w[0] == a);
    assert(w[1] == b);
    assert(w[2] == c);
}

// ---------------------------------------------------------------------------
// CHECK constraints
// ---------------------------------------------------------------------------

/// A text without quotes and parentheses.
pub open spec fn is_flat(t: Text) -> bool {
    forall|i: int|
        0 <= i < t.len() ==> {
            &&& #[trigger] t[i] != '\''
            &&& t[i] != '"'
            &&& t[i] != '('
            &&& t[i] != ')'
        }
}

proof fn lemma_flat_group(e: Text, rest: Text)
    requires
        is_flat(e),
    ensures
        group_len(e + ")"@ + rest, 1) == e.len(),
    decreases e.len(),
{
    reveal_strlit(")");
    let t = e + ")"@ + rest;
    if e.len() > 0 {
        assert(t[0] == e[0]);
        assert(t.skip(1) =~= e.skip(1) + ")"@ + rest);
        let d = e.skip(1);
        assert forall|i: int| 0 <= i < d.len() implies {
            &&& #[trigger] d[i] != '\''
            &&& d[i] != '"'
            &&& d[i] != '('
            &&& d[i] != ')'
        } by {
            assert(d[i] == e[i + 1]);
        }
        lemma_flat_group(d, rest);
    } else {
        assert(t[0] == ')');
    }
}

/// CHECK with an expression in parentheses behind it gives the expression, with or without
/// a space between them.
pub proof fn lemma_check_is_read(e: Text, rest: Text)
    requires
        is_flat(e),
    ensures
        checks_in("check("@ + e + ")"@ + rest, true) == seq![trim(e)] + checks_in(")"@ + rest, true),
        checks_in("check ("@ + e + ")"@ + rest, true) == seq![trim(e)] + checks_in(
            ")"@ + rest,
            true,
        ),
{
    reveal_strlit("check(");
    reveal_strlit("check (");
    reveal_strlit("check");
    reveal_strlit(")");
    lemma_flat_group(e, rest);
    let t = "check("@ + e + ")"@ + rest;
    assert(t.subrange(0, 5) =~= "check"@);
    assert(t[5] == '(');
    assert(check_start(t) == Some(6int));
    assert(t.skip(6) =~= e + ")"@ + rest);
    assert(t.subrange(6, 6 + e.len() as int) =~= e);
    assert(t.skip(6 + e.len() as int) =~= ")"@ + rest);
    assert(t[0] == 'c');
    let u = "check ("@ + e + ")"@ + rest;
    assert(u.subrange(0, 5) =~= "check"@);
    assert(u[5] == ' ' && u[6] == '(');
    assert(check_start(u) == Some(7int));
    assert(u.skip(7) =~= e + ")"@ + rest);
    assert(u.subrange(7, 7 + e.len() as int) =~= e);
    assert(u.skip(7 + e.len() as int) =~= ")"@ + rest);
    assert(u[0] == 'c');
}

proof fn lemma_found_behind(t: Text, n: int, p: Text)
    requires
        0 <= n <= t.len(),
        contains(t.skip(n), p),
    ensures
        contains(t, p),
{
    let k = choose|k: int| #[trigger] matches_at(t.skip(n), p, k);
    assert(t.subrange(n + k, n + k + p.len()) =~= t.skip(n).subrange(k, k + p.len()));
    assert(matches_at(t, p, n + k));
}

/// A text in which the word CHECK does not stand has no CHECK constraints.
pub proof fn lemma_no_check(t: Text, edge: bool)
    requires
        !stands_in("check"@, t),
    ensures
        checks_in(t, edge).len() == 0,
    decreases t.len(),
{
    lemma_contains_around(t, "check"@);
    if t.len() > 0 {
        if is_quote(t[0]) {
            lemma_literal_tail(t.skip(1), t[0]);
            let n = literal_len(t) as int;
            lemma_contains_around(t.skip(n), "check"@);
            if contains(t.skip(n), "check"@) {
                lemma_found_behind(t, n, "check"@);
            }
            lemma_no_check(t.skip(n), true);
        } else {
            assert(!matches_at(t, "check"@, 0));
            lemma_contains_around(t.skip(1), "check"@);
            if contains(t.skip(1), "check"@) {
                lemma_found_behind(t, 1, "check"@);
            }
            lemma_no_check(t.skip(1), !is_word_char(t[0]));
        }
    }
}

/// A sorted list holds what was given, as often as it was given, in order.
pub proof fn lemma_sorted_list(s: Seq<Text>)
    ensures
        sorted_list(s).to_multiset() == s.to_multiset(),
        forall|i: int, j: int|
            0 <= i < j < sorted_list(s).len() ==> !less(
                #[trigger] sorted_list(s)[j],
                #[trigger] sorted_list(s)[i],
            ),
    decreases s.len(),
{
    broadcast use vstd::seq_lib::group_to_multiset_ensures;

    if s.len() > 0 {
        let d = s.drop_last();
        let x = s.last();
        lemma_sorted_list(d);
        let t = sorted_list(d);
        let k = slot_from(t, x, 0);
        lemma_slot_bounds(t, x, 0);
        let r = t.insert(k, x);
        assert(s =~= d.push(x));
        assert(r.to_multiset() =~= t.to_multiset().insert(x));
        assert(s.to_multiset() =~= d.to_multiset().insert(x));
        assert forall|i: int, j: int| 0 <= i < j < r.len() implies !less(
            #[trigger] r[j],
            #[trigger] r[i],
        ) by {
            let a = if i < k {
                i
            } else {
                i - 1
            };
            let b = if j < k {
                j
            } else {
                j - 1
            };
            if i == k {
                assert(r[j] == t[b]);
                lemma_not_less_chain(t, x, k, b);
            } else if j == k {
                assert(r[i] == t[a]);
                lemma_less_total(t[a], x);
            } else {
                assert(r[i] == t[a]);
                assert(r[j] == t[b]);
            }
        }
    } else {
        assert(s =~= Seq::<Text>::empty());
    }
}

proof fn lemma_slot_bounds(s: Seq<Text>, x: Text, i: int)
    requires
        0 <= i <= s.len(),
        forall|j: int| 0 <= j < i ==> less(#[trigger] s[j], x),
    ensures
        ({
            let k = slot_from(s, x, i);
            &&& i <= k <= s.len()
            &&& forall|j: int| 0 <= j < k ==> less(#[trigger] s[j], x)
            &&& k < s.len() ==> !less(s[k], x)
        }),
    decreases s.len() - i,
{
    if i < s.len() && less(s[i], x) {
        lemma_slot_bounds(s, x, i + 1);
    }
}

/// What stands behind an item that is not less than `x` is not less than `x` either.
proof fn lemma_not_less_chain(t: Seq<Text>, x: Text, k: int, b: int)
    requires
        0 <= k <= b < t.len(),
        !less(t[k], x),
        forall|i: int, j: int| 0 <= i < j < t.len() ==> !less(#[trigger] t[j], #[trigger] t[i]),
    ensures
        !less(t[b], x),
{
    if k < b && less(t[b], x) {
        assert(!less(t[b], t[k]));
        lemma_less_total(t[k], x);
        lemma_less_total(t[b], t[k]);
        if t[k] == x {
        } else if t[b] == t[k] {
        } else {
            lemma_less_transitive(t[k], t[b], x);
        }
    }
}

// ---------------------------------------------------------------------------
// References
// ---------------------------------------------------------------------------

/// A text in which the word REFERENCES does not stand, in any case, refers to no table.
pub proof fn lemma_no_reference(t: Text, edge: bool)
    requires
        !stands_in("references"@, lower(t)),
    ensures
        references_in(t, edge).len() == 0,
    decreases t.len(),
{
    lemma_contains_around(lower(t), "references"@);
    if t.len() > 0 {
        if t[0] == '\'' || t[0] == '"' {
            lemma_part_len(t.skip(1), t[0]);
            let n = 1 + part_len(t.skip(1), t[0]) as int;
            let end = if n < t.len() {
                n + 1
            } else {
                n
            };
            lemma_no_reference_behind(t, end);
            lemma_no_reference(t.skip(end), true);
        } else if t.len() > 1 && t[0] == '-' && t[1] == '-' {
            lemma_part_len(t.skip(2), '\n');
            let n = 2 + part_len(t.skip(2), '\n') as int;
            lemma_no_reference_behind(t, n);
            lemma_no_reference(t.skip(n), true);
        } else if t.len() > 1 && t[0] == '/' && t[1] == '*' {
            if let Some(k) = find(t.skip(2), "*/"@) {
                lemma_find_from(t.skip(2), "*/"@, 0);
                reveal_strlit("*/");
                lemma_no_reference_behind(t, k + 4);
                lemma_no_reference(t.skip(k + 4), true);
            }
        } else {
            assert(!matches_at(lower(t), "references"@, 0));
            lemma_no_reference_behind(t, 1);
            lemma_no_reference(t.skip(1), !is_word_char(t[0]));
        }
    }
}

proof fn lemma_no_reference_behind(t: Text, n: int)
    requires
        0 <= n <= t.len(),
        !stands_in("references"@, lower(t)),
    ensures
        !stands_in("references"@, lower(t.skip(n))),
{
    lemma_contains_around(lower(t), "references"@);
    lemma_contains_around(lower(t.skip(n)), "references"@);
    assert(lower(t.skip(n)) =~= lower(t).skip(n));
    if contains(lower(t.skip(n)), "references"@) {
        lemma_found_behind(lower(t), n, "references"@);
    }
}

proof fn lemma_word_past(w: Text, rest: Text, i: int)
    requires
        0 <= i <= w.len(),
        forall|k: int| 0 <= k < w.len() ==> is_word_char(#[trigger] w[k]),
        rest.len() > 0 ==> !is_word_char(rest[0]),
    ensures
        past_word(w + rest, i) == w.len(),
    decreases w.len() - i,
{
    let t = w + rest;
    if i < w.len() {
        assert(t[i] == w[i]);
        lemma_word_past(w, rest, i + 1);
    } else if rest.len() > 0 {
        assert(t[i] == rest[0]);
    }
}

/// REFERENCES with a space and a bare name behind it, whatever the case of the word, refers
/// to the table of that name.
pub proof fn lemma_bare_reference(kw: Text, name: Text, rest: Text)
    requires
        lower(kw) == "references"@,
        name.len() > 0,
        forall|i: int| 0 <= i < name.len() ==> is_word_char(#[trigger] name[i]),
        rest.len() > 0 ==> !is_word_char(rest[0]),
    ensures
        references_in(kw + " "@ + name + rest, true) == seq![name] + references_in(rest, false),
{
    reveal_strlit(" ");
    let t = kw + " "@ + name + rest;
    let body = name + rest;
    lemma_reference_keyword(kw, body);
    assert(t =~= kw + " "@ + body);
    assert(is_word_char(name[0]));
    assert(body[0] == name[0]);
    assert(!is_space(name[0]));
    let s = past_space(t, 10);
    assert(t[11] == body[0]);
    assert(past_space(t, 11) == 11);
    assert(s == 11);
    assert(t.skip(11) =~= body);
    lemma_word_past(name, rest, 0);
    assert(body.take(name.len() as int) =~= name);
    assert(body.skip(name.len() as int) =~= rest);
    assert(name_at(body) == (name, name.len() as int));
}

/// REFERENCES with a space and a quoted name behind it, whatever the case of the word,
/// refers to the table of that name.
pub proof fn lemma_quoted_reference(kw: Text, name: Text, rest: Text)
    requires
        lower(kw) == "references"@,
        name.len() > 0,
        !name.contains('"'),
    ensures
        references_in(kw + " "@ + "\""@ + name + "\""@ + rest, true) == seq![name] + references_in(
            rest,
            true,
        ),
{
    reveal_strlit("\"");
    reveal_strlit(" ");
    let t = kw + " "@ + "\""@ + name + "\""@ + rest;
    let body = "\""@ + name + "\""@ + rest;
    lemma_reference_keyword(kw, body);
    assert(t =~= kw + " "@ + body);
    assert(body[0] == '"');
    let s = past_space(t, 10);
    assert(t[11] == body[0]);
    assert(past_space(t, 11) == 11);
    assert(s == 11);
    assert(t.skip(11) =~= body);
    assert(body.skip(1) =~= name + ("\""@ + rest));
    assert forall|i: int| 0 <= i < name.len() implies #[trigger] name[i] != '"' by {
        assert(name.contains(name[i]));
    }
    lemma_part_without(name, "\""@ + rest, '"');
    assert(body.subrange(1, 1 + name.len() as int) =~= name);
    assert(body.skip(name.len() as int + 2) =~= rest);
    assert(name_at(body) == (name, name.len() as int + 2));
}

proof fn lemma_reference_keyword(kw: Text, body: Text)
    requires
        lower(kw) == "references"@,
    ensures
        ({
            let t = kw + " "@ + body;
            &&& kw.len() == 10
            &&& starts_reference(t)
            &&& t[0] != '\'' && t[0] != '"' && t[0] != '-' && t[0] != '/'
            &&& t[10] == ' '
            &&& is_space(t[10])
            &&& t.len() > 10
            &&& past_space(t, 10) == past_space(t, 11)
        }),
{
    reveal_strlit("references");
    reveal_strlit(" ");
    let t = kw + " "@ + body;
    assert(kw.len() == lower(kw).len());
    assert(lower(t).subrange(0, 10) =~= lower(kw));
    assert(t[10] == ' ');
    assert(lower(kw)[0] == 'r');
    assert(t[0] == kw[0]);
    assert(!is_word_char(' '));
}

// ---------------------------------------------------------------------------
// The name of a table
// ---------------------------------------------------------------------------

/// A table with a quoted name gets the new name in its statement, and nothing else
/// changes.
pub proof fn lemma_quoted_name_replaced(w: Text, rest: Text, name: Text)
    requires
        !w.contains('"'),
    ensures
        with_table_name("CREATE TABLE "@ + "\""@ + w + "\""@ + rest, name) == "CREATE TABLE "@
            + quoted_ident(name) + rest,
{
    reveal_strlit("CREATE TABLE ");
    reveal_strlit("create table");
    reveal_strlit("if");
    reveal_strlit("\"");
    let head = "CREATE TABLE "@;
    let t = head + "\""@ + w + "\""@ + rest;
    let pat = "create table"@;
    assert(lower(t).subrange(0, 12) =~= pat);
    assert(matches_at(lower(t), pat, 0));
    assert(find(lower(t), pat) == Some(0int));
    assert(t[12] == ' ');
    assert(t[13] == '"');
    assert(past_space(t, 13) == 13);
    assert(past_space(t, 12) == 13);
    assert(past_keyword(t, 13, "if"@) is None) by {
        if matches_at(lower(t), "if"@, 13) {
            let m = lower(t).subrange(13, 15);
            assert(m[0] == 'i');
            assert(lower(t)[13] == '"');
        }
    }
    assert(past_if_not_exists(t, 13) == 13);
    assert(t.skip(14) =~= w + ("\""@ + rest));
    assert forall|i: int| 0 <= i < w.len() implies #[trigger] w[i] != '"' by {
        assert(w.contains(w[i]));
    }
    lemma_part_without(w, "\""@ + rest, '"');
    assert(name_end(t, 13) == 15 + w.len());
    assert(t.take(13) =~= head);
    assert(t.skip(15 + w.len() as int) =~= rest);
}

/// A text in which CREATE TABLE does not stand, in any case, stays as it is.
pub proof fn lemma_other_text_stays(sql: Text, name: Text)
    requires
        !stands_in("create table"@, lower(sql)),
    ensures
        with_table_name(sql, name) == sql,
{
    lemma_contains_around(lower(sql), "create table"@);
    lemma_find_from(lower(sql), "create table"@, 0);
    if let Some(p) = find(lower(sql), "create table"@) {
        assert(matches_at(lower(sql), "create table"@, p));
    }
}

// ---------------------------------------------------------------------------
// Collations
// ---------------------------------------------------------------------------

/// The part of a statement that speaks of a column goes from its name up to the next
/// comma.
pub proof fn lemma_section_up_to_comma(before: Text, pat: Text, mid: Text, rest: Text)
    requires
        !pat.contains(','),
        !mid.contains(','),
        forall|k: int|
            0 <= k < before.len() ==> !#[trigger] matches_at(
                before + pat + mid + ","@ + rest,
                pat,
                k,
            ),
    ensures
        column_section(before + pat + mid + ","@ + rest, pat) == Some(pat + mid),
{
    reveal_strlit(",");
    let low = before + pat + mid + ","@ + rest;
    let p = before.len() as int;
    lemma_found_at(low, pat, p, pat, mid + ","@ + rest);
    let after = low.skip(p);
    assert(after =~= (pat + mid) + (","@ + rest));
    let u = pat + mid;
    assert forall|i: int| 0 <= i < u.len() implies #[trigger] u[i] != ',' by {
        if i < pat.len() {
            assert(pat.contains(pat[i]));
        } else {
            assert(mid.contains(mid[i - pat.len()]));
        }
    }
    lemma_part_without(u, ","@ + rest, ',');
    assert(after.take(u.len() as int) =~= u);
}

/// Without a comma behind it, it goes up to the next closing parenthesis.
pub proof fn lemma_section_up_to_end(before: Text, pat: Text, mid: Text, rest: Text)
    requires
        !(pat + mid).contains(','),
        !rest.contains(','),
        !(pat + mid).contains(')'),
        forall|k: int|
            0 <= k < before.len() ==> !#[trigger] matches_at(
                before + pat + mid + ")"@ + rest,
                pat,
                k,
            ),
    ensures
        column_section(before + pat + mid + ")"@ + rest, pat) == Some(pat + mid),
{
    reveal_strlit(")");
    let low = before + pat + mid + ")"@ + rest;
    let p = before.len() as int;
    lemma_found_at(low, pat, p, pat, mid + ")"@ + rest);
    let after = low.skip(p);
    let u = pat + mid;
    assert(after =~= u + (")"@ + rest));
    assert forall|i: int| 0 <= i < u.len() implies #[trigger] u[i] != ')' by {
        assert(u.contains(u[i]));
    }
    lemma_part_without(u, ")"@ + rest, ')');
    assert(after + Seq::<char>::empty() =~= after);
    assert forall|i: int| 0 <= i < after.len() implies #[trigger] after[i] != ',' by {
        if i < u.len() {
            assert(u.contains(u[i]));
        } else if i > u.len() {
            assert(after[i] == rest[i - u.len() - 1]);
            assert(rest.contains(rest[i - u.len() - 1]));
        }
    }
    lemma_part_without(after, Seq::empty(), ',');
    assert(after.take(u.len() as int) =~= u);
}

proof fn lemma_found_at(low: Text, pat: Text, p: int, here: Text, behind: Text)
    requires
        0 <= p,
        p + pat.len() <= low.len(),
        here == pat,
        low.skip(p) =~= pat + behind,
        forall|k: int| 0 <= k < p ==> !#[trigger] matches_at(low, pat, k),
    ensures
        find(low, pat) == Some(p),
{
    assert(low.subrange(p, p + pat.len()) =~= low.skip(p).take(pat.len() as int));
    assert((pat + behind).take(pat.len() as int) =~= pat);
    assert(matches_at(low, pat, p));
    lemma_find_from(low, pat, 0);
}

/// The word behind the first COLLATE of such a part, in upper case, is the collation.
pub proof fn lemma_collation_is_read(before: Text, w: Text, rest: Text)
    requires
        w.len() > 0,
        forall|i: int| 0 <= i < w.len() ==> is_word_char(#[trigger] w[i]),
        rest.len() > 0 ==> !is_word_char(rest[0]),
        forall|k: int|
            0 <= k < before.len() ==> !#[trigger] matches_at(
                before + "collate"@ + " "@ + w + rest,
                "collate"@,
                k,
            ),
    ensures
        collation_in(before + "collate"@ + " "@ + w + rest) == Some(upper(w)),
{
    reveal_strlit(" ");
    let pat = "collate"@;
    let t = before + pat + " "@ + w + rest;
    let p = before.len() as int;
    lemma_found_at(t, pat, p, pat, " "@ + w + rest);
    let tail = t.skip(p + pat.len());
    let body = w + rest;
    assert(tail =~= " "@ + body);
    assert(tail[0] == ' ');
    assert(tail.skip(1) =~= body);
    assert(body[0] == w[0]);
    assert(is_word_char(w[0]));
    assert(!is_space(w[0]));
    assert(is_space(' '));
    assert(trim_start(tail) == trim_start(body));
    assert(trim_start(body) == body);
    lemma_word_past(w, rest, 0);
    assert(body.take(w.len() as int) =~= w);
}

/// A part in which COLLATE does not stand names no collation.
pub proof fn lemma_no_collation(section: Text)
    requires
        !stands_in("collate"@, section),
    ensures
        collation_in(section) is None,
{
    lemma_contains_around(section, "collate"@);
    lemma_find_from(section, "collate"@, 0);
    if let Some(p) = find(section, "collate"@) {
        assert(matches_at(section, "collate"@, p));
    }
}

/// A column gets the collation that the part of the statement that starts with its quoted
/// name gives it, or where there is no such part, that which starts with its bare name;
/// everything else of the column stays.
pub proof fn lemma_column_collated(sql: Text, c: ColumnModel)
    ensures
        ({
            let quoted = column_section(lower(sql), "\""@ + lower(c.name) + "\""@);
            let bare = column_section(lower(sql), lower(c.name));
            let r = collated(sql, c);
            let named = if quoted is Some {
                collation_in(quoted->0)
            } else if bare is Some {
                collation_in(bare->0)
            } else {
                None
            };
            &&& r.collation == if named is Some {
                named
            } else {
                c.collation
            }
            &&& r.name == c.name
            &&& r.col_type == c.col_type
            &&& r.notnull == c.notnull
            &&& r.default_value == c.default_value
            &&& r.pk == c.pk
            &&& r.is_generated == c.is_generated
            &&& r.is_hidden == c.is_hidden
        }),
{
}

// ---------------------------------------------------------------------------
// What does not count
// ---------------------------------------------------------------------------

/// What a literal holds is no reference.
pub proof fn lemma_literal_refers_to_nothing(q: char, body: Text, t: Text, edge: bool)
    requires
        q == '\'' || q == '"',
        !body.contains(q),
    ensures
        references_in(seq![q] + body + seq![q] + t, edge) == references_in(t, true),
{
    let u = seq![q] + body + seq![q] + t;
    assert(u[0] == q);
    assert(u.skip(1) =~= body + (seq![q] + t));
    assert forall|i: int| 0 <= i < body.len() implies #[trigger] body[i] != q by {
        assert(body.contains(body[i]));
    }
    lemma_part_without(body, seq![q] + t, q);
    assert(u.skip(body.len() as int + 2) =~= t);
}

/// What a comment holds is no reference.
pub proof fn lemma_comment_refers_to_nothing(body: Text, t: Text, edge: bool)
    ensures
        !body.contains('\n') ==> references_in("--"@ + body + "\n"@ + t, edge) == references_in(
            "\n"@ + t,
            true,
        ),
        (forall|k: int|
            0 <= k < body.len() ==> !#[trigger] matches_at(body + "*/"@ + t, "*/"@, k))
            ==> references_in("/*"@ + body + "*/"@ + t, edge) == references_in(t, true),
{
    reveal_strlit("--");
    reveal_strlit("\n");
    reveal_strlit("/*");
    reveal_strlit("*/");
    if !body.contains('\n') {
        let u = "--"@ + body + "\n"@ + t;
        assert(u[0] == '-' && u[1] == '-');
        assert(u.skip(2) =~= body + ("\n"@ + t));
        assert forall|i: int| 0 <= i < body.len() implies #[trigger] body[i] != '\n' by {
            assert(body.contains(body[i]));
        }
        lemma_part_without(body, "\n"@ + t, '\n');
        assert(u.skip(2 + body.len() as int) =~= "\n"@ + t);
    }
    if forall|k: int| 0 <= k < body.len() ==> !#[trigger] matches_at(body + "*/"@ + t, "*/"@, k) {
        let u = "/*"@ + body + "*/"@ + t;
        assert(u[0] == '/' && u[1] == '*');
        let inside = body + "*/"@ + t;
        assert(u.skip(2) =~= inside);
        let p = body.len() as int;
        assert(inside.skip(p) =~= "*/"@ + t);
        lemma_found_at(inside, "*/"@, p, "*/"@, t);
        assert(u.skip(p + 4) =~= t);
    }
}

/// A block comment in front of a statement says nothing of what it makes.
pub proof fn lemma_block_comment_makes_nothing(body: Text, t: Text)
    requires
        forall|k: int|
            0 <= k < body.len() ==> !#[trigger] matches_at(body + "*/"@ + t, "*/"@, k),
    ensures
        created_kind("/*"@ + body + "*/"@ + t) == created_kind(t),
{
    reveal_strlit("/*");
    reveal_strlit("*/");
    let u = "/*"@ + body + "*/"@ + t;
    assert(u[0] == '/' && u[1] == '*');
    assert(!is_space('/'));
    assert(trim_start(u) == u);
    let inside = body + "*/"@ + t;
    assert(u.skip(2) =~= inside);
    let p = body.len() as int;
    assert(inside.skip(p) =~= "*/"@ + t);
    lemma_found_at(inside, "*/"@, p, "*/"@, t);
    assert(u.skip(p + 4) =~= t);
    assert(without_leading_comments(u) == without_leading_comments(t));
}

/// What a literal holds is no CHECK constraint.
pub proof fn lemma_literal_checks_nothing(q: char, body: Text, t: Text, edge: bool)
    requires
        is_quote(q),
        forall|i: int| 0 <= i < body.len() ==> #[trigger] body[i] != q,
        t.len() > 0 ==> t[0] != q,
    ensures
        checks_in(seq![q] + body + seq![q] + t, edge) == checks_in(t, true),
{
    let u = seq![q] + body + seq![q] + t;
    assert(u[0] == q);
    assert(u.skip(1) =~= body + seq![q] + t);
    lemma_literal_ends(q, body, t);
    lemma_literal_tail(u.skip(1), u[0]);
    assert(u.skip(literal_len(u) as int) =~= t);
}

/// A longer word that ends in CHECK starts no constraint.
pub proof fn lemma_longer_word_checks_nothing(c: char, e: Text)
    requires
        is_word_char(c),
    ensures
        checks_in(seq![c] + "check("@ + e, true) == checks_in(e, true),
{
    reveal_strlit("check(");
    reveal_strlit("check");
    let t = seq![c] + "check("@ + e;
    assert(t[0] == c);
    assert(t[1] == 'c' && t[2] == 'h' && t[3] == 'e' && t[4] == 'c' && t[5] == 'k' && t[6] == '(');
    assert(!matches_at(t, "check"@, 0)) by {
        if matches_at(t, "check"@, 0) {
            assert(t.subrange(0, 5)[1] == 'h');
        }
    }
    lemma_passed_over(t, true);
    lemma_passed_over(t.skip(1), false);
    assert(t.skip(1).skip(1) =~= t.skip(2));
    lemma_passed_over(t.skip(2), false);
    assert(t.skip(2).skip(1) =~= t.skip(3));
    lemma_passed_over(t.skip(3), false);
    assert(t.skip(3).skip(1) =~= t.skip(4));
    lemma_passed_over(t.skip(4), false);
    assert(t.skip(4).skip(1) =~= t.skip(5));
    lemma_passed_over(t.skip(5), false);
    assert(t.skip(5).skip(1) =~= t.skip(6));
    lemma_passed_over(t.skip(6), false);
    assert(t.skip(6).skip(1) =~= e);
}

proof fn lemma_passed_over(t: Text, edge: bool)
    requires
        t.len() > 0,
        !is_quote(t[0]),
        !edge || !matches_at(t, "check"@, 0),
    ensures
        checks_in(t, edge) == checks_in(t.skip(1), !is_word_char(t[0])),
{
}

/// Parentheses inside of the expression of a CHECK constraint belong to it.
pub proof fn lemma_nested_check_is_read(a: Text, b: Text, c: Text, rest: Text)
    requires
        is_flat(a),
        is_flat(b),
        is_flat(c),
    ensures
        checks_in("check("@ + (a + "("@ + b + ")"@ + c) + ")"@ + rest, true) == seq![
            trim(a + "("@ + b + ")"@ + c),
        ] + checks_in(")"@ + rest, true),
{
    reveal_strlit("check(");
    reveal_strlit("check");
    reveal_strlit(")");
    reveal_strlit("(");
    let e = a + "("@ + b + ")"@ + c;
    let t = "check("@ + e + ")"@ + rest;
    let tail = c + ")"@ + rest;
    let mid = b + ")"@ + tail;
    let all = a + "("@ + mid;
    lemma_flat_prefix(c, ")"@ + rest, 1);
    lemma_flat_prefix(b, ")"@ + tail, 2);
    lemma_flat_prefix(a, "("@ + mid, 1);
    assert(tail =~= c + (")"@ + rest));
    assert(mid =~= b + (")"@ + tail));
    assert(all =~= a + ("("@ + mid));
    let x = ")"@ + tail;
    assert(x[0] == ')');
    assert(x.skip(1) =~= tail);
    let y = "("@ + mid;
    assert(y[0] == '(');
    assert(y.skip(1) =~= mid);
    let z = ")"@ + rest;
    assert(z[0] == ')');
    assert(group_len(z, 1) == 0);
    assert(group_len(all, 1) == e.len());
    assert(t.skip(6) =~= all);
    assert(t.subrange(0, 5) =~= "check"@);
    assert(t[5] == '(');
    assert(check_start(t) == Some(6int));
    assert(t.subrange(6, 6 + e.len() as int) =~= e);
    assert(t.skip(6 + e.len() as int) =~= ")"@ + rest);
    assert(t[0] == 'c');
}

proof fn lemma_flat_prefix(e: Text, rest: Text, depth: nat)
    requires
        is_flat(e),
    ensures
        group_len(e + rest, depth) == e.len() + group_len(rest, depth),
    decreases e.len(),
{
    let t = e + rest;
    if e.len() > 0 {
        assert(t[0] == e[0]);
        let d = e.skip(1);
        assert(t.skip(1) =~= d + rest);
        assert forall|i: int| 0 <= i < d.len() implies {
            &&& #[trigger] d[i] != '\''
            &&& d[i] != '"'
            &&& d[i] != '('
            &&& d[i] != ')'
        } by {
            assert(d[i] == e[i + 1]);
        }
        lemma_flat_prefix(d, rest, depth);
    } else {
        assert(t =~= rest);
    }
}

/// A longer word that begins with REFERENCES, or one that ends in it, refers to nothing: its
/// first letter is passed over as that of any other word.
pub proof fn lemma_longer_word_refers_to_nothing(kw: Text, c: char, rest: Text)
    requires
        lower(kw) == "references"@,
        is_word_char(c),
    ensures
        references_in(kw + seq![c] + rest, true) == references_in(
            kw.skip(1) + seq![c] + rest,
            false,
        ),
        references_in(kw + rest, false) == references_in(kw.skip(1) + rest, false),
{
    reveal_strlit("references");
    assert(kw.len() == lower(kw).len());
    assert(lower(kw)[0] == 'r');
    assert(kw[0] == 'r' || kw[0] == 'R');
    let t = kw + seq![c] + rest;
    assert(t[0] == kw[0]);
    assert(t[10] == c);
    assert(!starts_reference(t));
    assert(t.skip(1) =~= kw.skip(1) + seq![c] + rest);
    let u = kw + rest;
    assert(u[0] == kw[0]);
    assert(u.skip(1) =~= kw.skip(1) + rest);
}

} // verus!
