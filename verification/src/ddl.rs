//! Reading what the text of a statement says: the options of a table, its CHECK
//! constraints, the tables it refers to, the collations of its columns.

use vstd::prelude::*;

use crate::format::glue3;
use crate::lists::str_less;
#[allow(unused_imports)]
use crate::lists::slot_from;
use crate::normalize::{literal_end, normalize_sql};
#[allow(unused_imports)]
use crate::normalize::{is_quote, lemma_literal_tail, literal_len, normal};
use crate::schema::{ColumnInfo, ForeignKey};
#[allow(unused_imports)]
use crate::schema::{ColumnModel, ForeignKeyModel};
use crate::search::{
    chars_contain, chars_end_with, chars_match_at, find_chars, lower_contains, part_end,
    skip_space, skip_word, words_of,
};
#[allow(unused_imports)]
use crate::search::{
    contains, ends_with, find, lemma_find_from, lemma_find_in_tail, lemma_part_len,
    lemma_past_space, lemma_past_space_in_tail, lemma_past_word, lemma_past_word_in_tail,
    matches_at, part_len, past_space, past_word, words,
};
use crate::text::{
    chars_of, lower_chars, string_of, string_of_range, trim_chars, trim_start_at, uppered,
    word_char, Text,
};
#[allow(unused_imports)]
use crate::text::{is_word_char, lower, same_name, trim, trim_start, upper};

verus! {

// ---------------------------------------------------------------------------
// Options
// ---------------------------------------------------------------------------

/// Whether the statement makes a materialized view: its first three words say so.
pub open spec fn makes_materialized_view(sql: Text) -> bool {
    let w = words(sql);
    w.len() >= 3 && same_name(w[0], "create"@) && same_name(w[1], "materialized"@) && same_name(
        w[2],
        "view"@,
    )
}

/// Whether the statement makes a materialized view.
pub fn is_materialized_view_sql(sql: &str) -> (r: bool)
    ensures
        r == makes_materialized_view(sql@),
{
    let v = chars_of(sql);
    let w = words_of(v.as_slice());
    if w.len() < 3 {
        return false;
    }
    assert(w.deep_view()[0] == w@[0]@);
    assert(w.deep_view()[1] == w@[1]@);
    assert(w.deep_view()[2] == w@[2]@);
    crate::text::names_equal(w[0].as_str(), "create") && crate::text::names_equal(
        w[1].as_str(),
        "materialized",
    ) && crate::text::names_equal(w[2].as_str(), "view")
}

/// Whether a column of the table counts up by itself.
pub fn detect_autoincrement(create_sql: &str) -> (r: bool)
    ensures
        r == contains(lower(create_sql@), "autoincrement"@),
{
    lower_contains(create_sql, "autoincrement")
}

/// Whether the table has no row ids.
pub fn detect_without_rowid(create_sql: &str) -> (r: bool)
    ensures
        r == contains(lower(create_sql@), "without rowid"@),
{
    lower_contains(create_sql, "without rowid")
}

/// Whether the statement says behind its column list that the table is strict.
pub open spec fn is_strict_sql(sql: Text) -> bool {
    let t = lower(trim(sql));
    ||| ends_with(t, ") strict"@)
    ||| ends_with(t, ") strict;"@)
    ||| ends_with(t, ")strict"@)
    ||| ends_with(t, ")strict;"@)
    ||| contains(t, ") strict,"@)
}

/// Whether the statement says behind its column list that the table is strict.
pub fn detect_strict(create_sql: &str) -> (r: bool)
    ensures
        r == is_strict_sql(create_sql@),
{
    let v = chars_of(create_sql);
    let kept = trim_chars(v.as_slice());
    let s = string_of(kept.as_slice());
    let low = lower_chars(s.as_str());
    let a = chars_of(") strict");
    let b = chars_of(") strict;");
    let c = chars_of(")strict");
    let d = chars_of(")strict;");
    let e = chars_of(") strict,");
    chars_end_with(low.as_slice(), a.as_slice()) || chars_end_with(low.as_slice(), b.as_slice())
        || chars_end_with(low.as_slice(), c.as_slice()) || chars_end_with(
        low.as_slice(),
        d.as_slice(),
    ) || chars_contain(low.as_slice(), e.as_slice())
}

// ---------------------------------------------------------------------------
// CHECK constraints
// ---------------------------------------------------------------------------

/// How many characters stand before the parenthesis that closes the outermost of
/// `depth` open ones. Parentheses in literals do not count.
pub open spec fn group_len(t: Text, depth: nat) -> nat
    decreases t.len(),
{
    if t.len() == 0 {
        0
    } else if is_quote(t[0]) {
        proof {
            lemma_literal_tail(t.skip(1), t[0]);
        }
        literal_len(t) + group_len(t.skip(literal_len(t) as int), depth)
    } else if t[0] == ')' {
        if depth <= 1 {
            0
        } else {
            1 + group_len(t.skip(1), (depth - 1) as nat)
        }
    } else if t[0] == '(' {
        1 + group_len(t.skip(1), depth + 1)
    } else {
        1 + group_len(t.skip(1), depth)
    }
}

pub proof fn lemma_group_len(t: Text, depth: nat)
    ensures
        group_len(t, depth) <= t.len(),
    decreases t.len(),
{
    if t.len() == 0 {
    } else if is_quote(t[0]) {
        lemma_literal_tail(t.skip(1), t[0]);
        lemma_group_len(t.skip(literal_len(t) as int), depth);
    } else if t[0] == ')' {
        if depth > 1 {
            lemma_group_len(t.skip(1), (depth - 1) as nat);
        }
    } else if t[0] == '(' {
        lemma_group_len(t.skip(1), depth + 1);
    } else {
        lemma_group_len(t.skip(1), depth);
    }
}

/// Where the expression starts, if the text starts with CHECK and a parenthesis.
pub open spec fn check_start(t: Text) -> Option<int> {
    if !matches_at(t, "check"@, 0) {
        None
    } else if t.len() > 5 && t[5] == '(' {
        Some(6)
    } else if t.len() > 6 && t[5] == ' ' && t[6] == '(' {
        Some(7)
    } else {
        None
    }
}

/// The expressions of the CHECK constraints in a text in normal form, in order.
/// `edge` says that no word reaches into the text from before it.
pub open spec fn checks_in(t: Text, edge: bool) -> Seq<Text>
    decreases t.len(),
{
    if t.len() == 0 {
        Seq::empty()
    } else if is_quote(t[0]) {
        proof {
            lemma_literal_tail(t.skip(1), t[0]);
        }
        checks_in(t.skip(literal_len(t) as int), true)
    } else if edge && check_start(t) is Some {
        let k = check_start(t)->0;
        let n = group_len(t.skip(k), 1) as int;
        proof {
            lemma_group_len(t.skip(k), 1);
        }
        seq![trim(t.subrange(k, k + n))] + checks_in(t.skip(k + n), true)
    } else {
        checks_in(t.skip(1), !is_word_char(t[0]))
    }
}

/// The list in order, each text as often as it is there.
pub open spec fn sorted_list(s: Seq<Text>) -> Seq<Text>
    decreases s.len(),
{
    if s.len() == 0 {
        Seq::empty()
    } else {
        let t = sorted_list(s.drop_last());
        t.insert(slot_from(t, s.last(), 0), s.last())
    }
}

/// The CHECK constraints of a table: their expressions in normal form, sorted.
pub open spec fn check_constraints(sql: Text) -> Seq<Text> {
    sorted_list(checks_in(normal(sql), true))
}

/// The position of the parenthesis that closes the group whose text starts at `from`,
/// or the end.
fn group_end(v: &[char], from: usize) -> (end: usize)
    requires
        0 < from <= v.len(),
    ensures
        from <= end <= v.len(),
        end == from + group_len(v@.skip(from as int), 1),
{
    let mut i: usize = from;
    let mut depth: usize = 1;
    while i < v.len()
        invariant_except_break
            group_len(v@.skip(from as int), 1) == (i - from) + group_len(
                v@.skip(i as int),
                depth as nat,
            ),
        invariant
            0 < from <= i <= v.len(),
            1 <= depth <= i - from + 1,
        ensures
            group_len(v@.skip(from as int), 1) == i - from,
        decreases v.len() - i,
    {
        let ghost here = v@.skip(i as int);
        assert(here.skip(1) == v@.skip(i + 1));
        let c = v[i];
        if c == '\'' || c == '"' {
            let end = literal_end(v, i);
            assert(here.skip(end - i) == v@.skip(end as int));
            i = end;
        } else if c == ')' {
            if depth == 1 {
                break;
            }
            depth -= 1;
            i += 1;
        } else if c == '(' {
            depth += 1;
            i += 1;
        } else {
            i += 1;
        }
    }
    i
}

/// Where the expression of a CHECK constraint at `from` starts.
fn check_open(v: &[char], from: usize) -> (r: Option<usize>)
    requires
        from < v.len(),
    ensures
        match r {
            Some(k) => from < k <= v.len() && check_start(v@.skip(from as int)) == Some(
                (k - from) as int,
            ),
            None => check_start(v@.skip(from as int)) is None,
        },
{
    let ghost here = v@.skip(from as int);
    let pat = chars_of("check");
    proof {
        reveal_strlit("check");
        assert(pat@.len() == 5);
        assert(matches_at(here, pat@, 0) <==> matches_at(v@, pat@, from as int)) by {
            if from + 5 <= v.len() {
                assert(here.subrange(0, 5) =~= v@.subrange(from as int, from + 5));
            }
        }
    }
    if !chars_match_at(v, pat.as_slice(), from) {
        return None;
    }
    let n = v.len() - from;
    if n > 5 && v[from + 5] == '(' {
        Some(from + 6)
    } else if n > 6 && v[from + 5] == ' ' && v[from + 6] == '(' {
        Some(from + 7)
    } else {
        None
    }
}

/// The expressions of the CHECK constraints in a text in normal form, in order.
fn find_checks(v: &[char]) -> (r: Vec<String>)
    ensures
        r.deep_view() == checks_in(v@, true),
{
    let mut r: Vec<String> = Vec::new();
    let mut edge = true;
    let mut i: usize = 0;
    assert(v@.skip(0) == v@);
    assert(r.deep_view() + checks_in(v@, true) =~= checks_in(v@, true));
    while i < v.len()
        invariant
            i <= v.len(),
            checks_in(v@, true) == r.deep_view() + checks_in(v@.skip(i as int), edge),
        decreases v.len() - i,
    {
        let ghost here = v@.skip(i as int);
        let ghost before = r.deep_view();
        let c = v[i];
        if c == '\'' || c == '"' {
            let end = literal_end(v, i);
            assert(here.skip(end - i) == v@.skip(end as int));
            edge = true;
            i = end;
            continue;
        }
        let open = check_open(v, i);
        if edge && open.is_some() {
            let k = open.unwrap();
            let end = group_end(v, k);
            let inner = trim_chars(vstd::slice::slice_subrange(v, k, end));
            let text = string_of(inner.as_slice());
            proof {
                let a = k - i;
                let n = group_len(here.skip(a), 1) as int;
                assert(here.skip(a) == v@.skip(k as int));
                assert(n == end - k);
                assert(here.subrange(a, a + n) == v@.subrange(k as int, end as int));
                assert(here.skip(a + n) == v@.skip(end as int));
            }
            r.push(text);
            assert(r.deep_view() =~= before.push(text@));
            assert(before + (seq![text@] + checks_in(v@.skip(end as int), true))
                =~= r.deep_view() + checks_in(v@.skip(end as int), true));
            edge = true;
            i = end;
        } else {
            assert(here.skip(1) == v@.skip(i + 1));
            edge = !word_char(c);
            i += 1;
        }
    }
    assert(checks_in(v@.skip(i as int), edge) =~= Seq::empty());
    assert(r.deep_view() + Seq::<Text>::empty() =~= r.deep_view());
    r
}

/// The strings in order, each as often as it is there.
fn sort_list(list: Vec<String>) -> (r: Vec<String>)
    ensures
        r.deep_view() == sorted_list(list.deep_view()),
{
    let ghost all = list.deep_view();
    let mut r: Vec<String> = Vec::new();
    let mut i: usize = 0;
    assert(all.take(0) =~= Seq::empty());
    assert(r.deep_view() =~= Seq::empty());
    while i < list.len()
        invariant
            i <= list.len(),
            all == list.deep_view(),
            r.deep_view() == sorted_list(all.take(i as int)),
        decreases list.len() - i,
    {
        let ghost before = r.deep_view();
        assert(all.take(i + 1).drop_last() =~= all.take(i as int));
        assert(all[i as int] == list@[i as int]@);
        let mut k: usize = 0;
        while k < r.len() && str_less(r[k].as_str(), list[i].as_str())
            invariant
                k <= r.len(),
                i < list.len(),
                before == r.deep_view(),
                slot_from(before, list@[i as int]@, 0) == slot_from(
                    before,
                    list@[i as int]@,
                    k as int,
                ),
            decreases r.len() - k,
        {
            assert(before[k as int] == r@[k as int]@);
            k += 1;
        }
        proof {
            if k < r.len() {
                assert(before[k as int] == r@[k as int]@);
            }
        }
        r.insert(k, list[i].clone());
        assert(r.deep_view() =~= before.insert(k as int, all[i as int]));
        i += 1;
    }
    assert(all.take(i as int) =~= all);
    r
}

/// The CHECK constraints of a table: their expressions in normal form, sorted.
pub fn extract_check_constraints(create_sql: &str) -> (r: Vec<String>)
    ensures
        r.deep_view() == check_constraints(create_sql@),
{
    let form = normalize_sql(create_sql);
    let v = chars_of(form.as_str());
    let found = find_checks(v.as_slice());
    sort_list(found)
}

// ---------------------------------------------------------------------------
// References
// ---------------------------------------------------------------------------

/// The length of the line, without its line feed.
pub open spec fn line_text_len(t: Text) -> nat {
    part_len(t, '\n')
}

/// The name behind REFERENCES, where the white space in between is skipped: its text,
/// and how much of `t` it takes.
pub open spec fn name_at(t: Text) -> (Text, int) {
    if t.len() > 0 && t[0] == '"' {
        let n = part_len(t.skip(1), '"') as int;
        (t.subrange(1, 1 + n), if 1 + n < t.len() {
            n + 2
        } else {
            n + 1
        })
    } else {
        let n = past_word(t, 0);
        (t.take(n), n)
    }
}

/// Whether the text starts with the word REFERENCES, whatever its case.
pub open spec fn starts_reference(t: Text) -> bool {
    &&& matches_at(lower(t), "references"@, 0)
    &&& t.len() == 10 || !is_word_char(t[10])
}

pub proof fn lemma_name_at(t: Text)
    ensures
        0 <= name_at(t).1 <= t.len(),
{
    if t.len() > 0 && t[0] == '"' {
        lemma_part_len(t.skip(1), '"');
    } else {
        lemma_past_word(t, 0);
    }
}

/// The tables that a text refers to, in order. What stands in quotes of either kind is
/// skipped, but for the name behind REFERENCES, and so are comments.
/// `edge` says that no word reaches into the text from before it.
pub open spec fn references_in(t: Text, edge: bool) -> Seq<Text>
    decreases t.len(),
{
    if t.len() == 0 {
        Seq::empty()
    } else if t[0] == '\'' || t[0] == '"' {
        let n = 1 + part_len(t.skip(1), t[0]) as int;
        let end = if n < t.len() {
            n + 1
        } else {
            n
        };
        proof {
            lemma_part_len(t.skip(1), t[0]);
        }
        references_in(t.skip(end), true)
    } else if t.len() > 1 && t[0] == '-' && t[1] == '-' {
        let n = 2 + line_text_len(t.skip(2)) as int;
        proof {
            lemma_part_len(t.skip(2), '\n');
        }
        references_in(t.skip(n), true)
    } else if t.len() > 1 && t[0] == '/' && t[1] == '*' {
        match find(t.skip(2), "*/"@) {
            Some(k) => {
                proof {
                    lemma_find_from(t.skip(2), "*/"@, 0);
                    reveal_strlit("*/");
                }
                references_in(t.skip(k + 4), true)
            },
            None => Seq::empty(),
        }
    } else if edge && starts_reference(t) {
        let s = past_space(t, 10);
        let rest = t.skip(s);
        let name = name_at(rest).0;
        proof {
            reveal_strlit("references");
            lemma_past_space(t, 10);
            lemma_name_at(rest);
        }
        let more = references_in(rest.skip(name_at(rest).1), rest.len() > 0 && rest[0] == '"');
        if name.len() > 0 {
            seq![name] + more
        } else {
            more
        }
    } else {
        references_in(t.skip(1), !is_word_char(t[0]))
    }
}

/// The foreign keys that the references of a statement show: only the tables are
/// known.
pub open spec fn bare_keys(names: Seq<Text>) -> Seq<ForeignKeyModel> {
    Seq::new(
        names.len(),
        |i: int|
            ForeignKeyModel {
                from_columns: Seq::empty(),
                to_table: names[i],
                to_columns: Seq::empty(),
                on_delete: "NO ACTION"@,
                on_update: "NO ACTION"@,
            },
    )
}

/// The name at `from`, and the position behind it.
fn read_name(v: &Vec<char>, from: usize) -> (r: (String, usize))
    requires
        from <= v.len(),
    ensures
        from <= r.1 <= v.len(),
        name_at(v@.skip(from as int)) == (r.0@, (r.1 - from) as int),
{
    let ghost here = v@.skip(from as int);
    if from < v.len() && v[from] == '"' {
        let end = part_end(v.as_slice(), '"', from + 1);
        let name = string_of_range(v.as_slice(), from + 1, end);
        assert(here.skip(1) == v@.skip(from + 1));
        assert(here.subrange(1, end - from) == v@.subrange(from + 1, end as int));
        if end < v.len() {
            (name, end + 1)
        } else {
            (name, end)
        }
    } else {
        let end = skip_word(v, from);
        proof {
            lemma_past_word_in_tail(v@, from as int, from as int);
        }
        assert(here.take(end - from) == v@.subrange(from as int, end as int));
        (string_of_range(v.as_slice(), from, end), end)
    }
}

/// Whether the word REFERENCES stands at `i`.
fn is_reference_at(v: &Vec<char>, low: &Vec<char>, i: usize) -> (r: bool)
    requires
        low@ == lower(v@),
        i < v.len(),
    ensures
        r == starts_reference(v@.skip(i as int)),
        r ==> i + 10 <= v.len(),
{
    let ghost here = v@.skip(i as int);
    let pat = chars_of("references");
    proof {
        reveal_strlit("references");
        assert(pat@.len() == 10);
        assert(matches_at(lower(here), pat@, 0) <==> matches_at(low@, pat@, i as int)) by {
            if i + 10 <= v.len() {
                assert(lower(here).subrange(0, 10) =~= low@.subrange(i as int, i + 10));
            }
        }
    }
    if !chars_match_at(low.as_slice(), pat.as_slice(), i) {
        return false;
    }
    let end: usize = i + 10;
    end == v.len() || !word_char(v[end])
}

/// The position behind the block comment whose text starts at `from`, or nothing
/// where it is not closed.
fn comment_end(v: &Vec<char>, from: usize) -> (r: Option<usize>)
    requires
        from <= v.len(),
    ensures
        match r {
            Some(k) => from < k <= v.len() && find(v@.skip(from as int), "*/"@) == Some(
                k - from - 2,
            ),
            None => find(v@.skip(from as int), "*/"@) is None,
        },
{
    let pat = chars_of("*/");
    proof {
        reveal_strlit("*/");
        lemma_find_in_tail(v@, "*/"@, from as int, from as int);
    }
    match find_chars(v.as_slice(), pat.as_slice(), from) {
        Some(k) => Some(k + 2),
        None => None,
    }
}

/// The tables that a statement refers to, as foreign keys without columns.
pub fn parse_fk_references_from_sql(table_sql: &str) -> (r: Vec<ForeignKey>)
    ensures
        r.deep_view() == bare_keys(references_in(table_sql@, true)),
{
    let v = chars_of(table_sql);
    let low = lower_chars(table_sql);
    let mut names: Vec<String> = Vec::new();
    let mut edge = true;
    let mut i: usize = 0;
    assert(v@.skip(0) == v@);
    assert(names.deep_view() + references_in(v@, true) =~= references_in(v@, true));
    while i < v.len()
        invariant
            i <= v.len(),
            low@ == lower(v@),
            references_in(v@, true) == names.deep_view() + references_in(v@.skip(i as int), edge),
        decreases v.len() - i,
    {
        let ghost here = v@.skip(i as int);
        let ghost before = names.deep_view();
        let n = v.len() - i;
        if v[i] == '\'' || v[i] == '"' {
            let end = part_end(v.as_slice(), v[i], i + 1);
            assert(here.skip(1) == v@.skip(i + 1));
            let next: usize = if end < v.len() {
                end + 1
            } else {
                end
            };
            assert(here.skip(next - i) == v@.skip(next as int));
            edge = true;
            i = next;
        } else if n > 1 && v[i] == '-' && v[i + 1] == '-' {
            let end = part_end(v.as_slice(), '\n', i + 2);
            assert(here.skip(2) == v@.skip(i + 2));
            assert(here.skip(end - i) == v@.skip(end as int));
            edge = true;
            i = end;
        } else if n > 1 && v[i] == '/' && v[i + 1] == '*' {
            assert(here.skip(2) == v@.skip(i + 2));
            match comment_end(&v, i + 2) {
                Some(end) => {
                    assert(here.skip(end - i) == v@.skip(end as int));
                    edge = true;
                    i = end;
                },
                None => {
                    assert(references_in(here, edge) =~= Seq::empty());
                    edge = true;
                    i = v.len();
                    assert(v@.skip(i as int) =~= Seq::empty());
                },
            }
        } else if edge && is_reference_at(&v, &low, i) {
            let at = skip_space(&v, i + 10);
            let (name, end) = read_name(&v, at);
            let quoted = at < v.len() && v[at] == '"';
            proof {
                lemma_past_space_in_tail(v@, i as int, i + 10);
                assert(here.skip(at - i) == v@.skip(at as int));
                assert(v@.skip(at as int).skip(end - at) == v@.skip(end as int));
            }
            let blank = name.as_str().is_empty();
            assert(blank == (name@.len() == 0));
            if !blank {
                let ghost text = name@;
                names.push(name);
                assert(names.deep_view() =~= before.push(text));
                assert(before + (seq![text] + references_in(v@.skip(end as int), quoted))
                    =~= names.deep_view() + references_in(v@.skip(end as int), quoted));
            }
            edge = quoted;
            i = end;
        } else {
            assert(here.skip(1) == v@.skip(i + 1));
            edge = !word_char(v[i]);
            i += 1;
        }
    }
    assert(references_in(v@.skip(i as int), edge) =~= Seq::empty());
    assert(names.deep_view() + Seq::<Text>::empty() =~= names.deep_view());
    let ghost all = names.deep_view();
    let mut r: Vec<ForeignKey> = Vec::new();
    let mut k: usize = 0;
    while k < names.len()
        invariant
            k <= names.len(),
            all == names.deep_view(),
            r.len() == k,
            forall|j: int| 0 <= j < k ==> (#[trigger] r@[j]).deep_view() == bare_keys(all)[j],
        decreases names.len() - k,
    {
        assert(all[k as int] == names@[k as int]@);
        let key = ForeignKey {
            from_columns: Vec::new(),
            to_table: names[k].clone(),
            to_columns: Vec::new(),
            on_delete: "NO ACTION".to_owned(),
            on_update: "NO ACTION".to_owned(),
        };
        assert(key.from_columns.deep_view() =~= Seq::empty());
        assert(key.to_columns.deep_view() =~= Seq::empty());
        r.push(key);
        k += 1;
    }
    assert(r.deep_view() =~= bare_keys(all));
    r
}

// ---------------------------------------------------------------------------
// Collations
// ---------------------------------------------------------------------------

/// The part of the text from the first place of the pattern up to the next comma or,
/// where none follows, the next closing parenthesis.
pub open spec fn column_section(low: Text, pat: Text) -> Option<Text> {
    match find(low, pat) {
        Some(p) => {
            let after = low.skip(p);
            let c = part_len(after, ',') as int;
            let d = part_len(after, ')') as int;
            if c < after.len() {
                Some(after.take(c))
            } else if d < after.len() {
                Some(after.take(d))
            } else {
                None
            }
        },
        None => None,
    }
}

/// The collation that a part of a statement in lower case names, in upper case.
pub open spec fn collation_in(section: Text) -> Option<Text> {
    match find(section, "collate"@) {
        Some(p) => {
            let after = trim_start(section.skip(p + "collate"@.len()));
            let w = after.take(past_word(after, 0));
            if w.len() > 0 {
                Some(upper(w))
            } else {
                None
            }
        },
        None => None,
    }
}

/// The collation of a column: the one named in the part of the statement that starts
/// with its quoted name or, where there is none, its bare name.
pub open spec fn column_collation(sql: Text, column: Text) -> Option<Text> {
    let low = lower(sql);
    let name = lower(column);
    let section = match column_section(low, "\""@ + name + "\""@) {
        Some(s) => Some(s),
        None => column_section(low, name),
    };
    match section {
        Some(s) => collation_in(s),
        None => None,
    }
}

/// The part of the text from the first place of the pattern up to the next comma or
/// closing parenthesis.
fn find_column_section(low: &Vec<char>, pat: &Vec<char>) -> (r: Option<Vec<char>>)
    ensures
        match r {
            Some(s) => column_section(low@, pat@) == Some(s@),
            None => column_section(low@, pat@) is None,
        },
{
    let p = match find_chars(low.as_slice(), pat.as_slice(), 0) {
        Some(p) => p,
        None => {
            return None;
        },
    };
    let ghost after = low@.skip(p as int);
    let comma = part_end(low.as_slice(), ',', p);
    let close = part_end(low.as_slice(), ')', p);
    let end: usize = if comma < low.len() {
        comma
    } else if close < low.len() {
        close
    } else {
        return None;
    };
    let mut s: Vec<char> = Vec::new();
    crate::text::push_chars(&mut s, vstd::slice::slice_subrange(low.as_slice(), p, end));
    assert(s@ =~= after.take(end - p));
    Some(s)
}

/// The collation that a part of a statement in lower case names, in upper case.
fn read_collation(section: &Vec<char>) -> (r: Option<String>)
    ensures
        r.deep_view() == collation_in(section@),
{
    let pat = chars_of("collate");
    let p = match find_chars(section.as_slice(), pat.as_slice(), 0) {
        Some(p) => p,
        None => {
            return None;
        },
    };
    assert(p + pat@.len() <= section@.len());
    assert(section@.len() == section.len());
    let tail = vstd::slice::slice_subrange(section.as_slice(), p + pat.len(), section.len());
    assert(tail@ =~= section@.skip(p + pat@.len()));
    let a = trim_start_at(tail);
    let ghost after = tail@.skip(a as int);
    let mut word = String::new();
    let mut i: usize = a;
    while i < tail.len() && word_char(tail[i])
        invariant
            a <= i <= tail.len(),
            after == tail@.skip(a as int),
            past_word(after, 0) == past_word(after, i - a),
            word@ =~= upper(after.take(i - a)),
        decreases tail.len() - i,
    {
        word.push(uppered(tail[i]));
        i += 1;
    }
    assert(past_word(after, i - a) == i - a);
    assert(word@ =~= upper(after.take(i - a)));
    if i > a {
        Some(word)
    } else {
        None
    }
}

/// The collation of a column.
pub fn find_collation(create_sql: &str, column: &str) -> (r: Option<String>)
    ensures
        r.deep_view() == column_collation(create_sql@, column@),
{
    let low = lower_chars(create_sql);
    let name = crate::text::to_lower(column);
    let quoted = glue3("\"", name.as_str(), "\"");
    let quoted_pat = chars_of(quoted.as_str());
    let pat = chars_of(name.as_str());
    let section = match find_column_section(&low, &quoted_pat) {
        Some(s) => Some(s),
        None => find_column_section(&low, &pat),
    };
    match section {
        Some(s) => read_collation(&s),
        None => None,
    }
}

/// The column with the collation that the statement gives it.
pub open spec fn collated(sql: Text, c: ColumnModel) -> ColumnModel {
    match column_collation(sql, c.name) {
        Some(x) => ColumnModel { collation: Some(x), ..c },
        None => c,
    }
}

/// The columns with the collations that the statement gives them.
pub open spec fn all_collated(sql: Text, columns: Seq<ColumnModel>) -> Seq<ColumnModel> {
    Seq::new(columns.len(), |i: int| collated(sql, columns[i]))
}

/// The columns, each with the collation that the statement names for it.
pub fn enrich_columns_with_collation(create_sql: &str, columns: &Vec<ColumnInfo>) -> (r: Vec<
    ColumnInfo,
>)
    ensures
        r.deep_view() == all_collated(create_sql@, columns.deep_view()),
{
    let ghost all = columns.deep_view();
    let mut r: Vec<ColumnInfo> = Vec::new();
    let mut i: usize = 0;
    while i < columns.len()
        invariant
            i <= columns.len(),
            all == columns.deep_view(),
            r.len() == i,
            forall|j: int|
                0 <= j < i ==> (#[trigger] r@[j]).deep_view() == collated(create_sql@, all[j]),
        decreases columns.len() - i,
    {
        assert(all[i as int] == columns@[i as int].deep_view());
        let mut c = columns[i].clone();
        let found = find_collation(create_sql, columns[i].name.as_str());
        if found.is_some() {
            c.collation = found;
        }
        assert(c.deep_view() == collated(create_sql@, all[i as int]));
        r.push(c);
        i += 1;
    }
    assert(r.deep_view() =~= all_collated(create_sql@, all));
    r
}

} // verus!
