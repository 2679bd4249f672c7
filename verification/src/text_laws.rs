//! What the texts of the library say: names, numbers, lists, messages and normal forms.

use vstd::prelude::*;

#[allow(unused_imports)]
use crate::diff::{added_labels, dropped_labels, listed, renamed_labels, DiffModel};
#[allow(unused_imports)]
use crate::error::ErrorModel;
#[allow(unused_imports)]
use crate::format::{
    decimal, doubled, joined, lemma_decimal_digits, lemma_decimal_round_trip, parsed_signed,
    quoted_ident, signed_decimal,
};
#[allow(unused_imports)]
use crate::hash::{catalog_text, CatalogRowModel};
#[allow(unused_imports)]
use crate::introspect::{version_at_least, version_number, version_of};
#[allow(unused_imports)]
use crate::lists::{gather, lemma_less_from, less};
#[allow(unused_imports)]
use crate::normalize::{gap_len, hash_form, normal, squeezed};
#[allow(unused_imports)]
use crate::search::{before_char, has_word, is_word_span, part_len, parts};
#[allow(unused_imports)]
use crate::text::{
    is_ascii_space, is_digit_char, is_space, is_word_char, lower, lower_char, same_name, trim,
    trim_end, trim_start, upper, upper_char, Text,
};

verus! {

// ---------------------------------------------------------------------------
// Case
// ---------------------------------------------------------------------------

/// The letters of the one alphabet and those of the other correspond one for one; every
/// other character stays as it is.
pub proof fn lemma_case(i: int, c: char)
    requires
        0 <= i < 26,
        !"ABCDEFGHIJKLMNOPQRSTUVWXYZ"@.contains(c),
    ensures
        lower_char("ABCDEFGHIJKLMNOPQRSTUVWXYZ"@[i]) == "abcdefghijklmnopqrstuvwxyz"@[i],
        upper_char("abcdefghijklmnopqrstuvwxyz"@[i]) == "ABCDEFGHIJKLMNOPQRSTUVWXYZ"@[i],
        lower_char(c) == c,
{
    reveal_strlit("ABCDEFGHIJKLMNOPQRSTUVWXYZ");
    reveal_strlit("abcdefghijklmnopqrstuvwxyz");
    let a = "ABCDEFGHIJKLMNOPQRSTUVWXYZ"@;
    if crate::text::is_upper_char(c) {
        let k = (c as u32 - 'A' as u32) as int;
        assert(a[k] == c);
    }
}

/// Case is changed character by character, and two texts are the same name exactly where
/// they differ in nothing but the case of letters.
pub proof fn lemma_case_of_texts(t: Text, u: Text, i: int)
    requires
        0 <= i < t.len(),
    ensures
        lower(t).len() == t.len(),
        lower(t)[i] == lower_char(t[i]),
        upper(t).len() == t.len(),
        upper(t)[i] == upper_char(t[i]),
        same_name(t, u) <==> t.len() == u.len() && forall|k: int|
            0 <= k < t.len() ==> lower_char(#[trigger] t[k]) == lower_char(u[k]),
{
    if t.len() == u.len() && forall|k: int|
        0 <= k < t.len() ==> lower_char(#[trigger] t[k]) == lower_char(u[k]) {
        assert(lower(t) =~= lower(u));
    }
    if same_name(t, u) {
        assert(lower(t).len() == lower(u).len());
        assert forall|k: int| 0 <= k < t.len() implies lower_char(#[trigger] t[k]) == lower_char(
            u[k],
        ) by {
            assert(lower(t)[k] == lower(u)[k]);
        }
    }
}

// ---------------------------------------------------------------------------
// Quotes, lists, numbers
// ---------------------------------------------------------------------------

/// Doubling goes character by character: the quote is written twice, and every other
/// character once.
pub proof fn lemma_doubled_parts(a: Text, b: Text, q: char)
    ensures
        doubled(a + b, q) == doubled(a, q) + doubled(b, q),
        doubled(seq![q], q) == seq![q, q],
        forall|c: char| c != q ==> #[trigger] doubled(seq![c], q) == seq![c],
    decreases b.len(),
{
    reveal_with_fuel(doubled, 2);
    assert(seq![q].drop_last() =~= Seq::<char>::empty());
    assert(doubled(seq![q], q) =~= seq![q, q]);
    assert forall|c: char| c != q implies #[trigger] doubled(seq![c], q) == seq![c] by {
        assert(seq![c].drop_last() =~= Seq::<char>::empty());
        assert(doubled(seq![c], q) =~= seq![c]);
    }
    if b.len() == 0 {
        assert(a + b =~= a);
        assert(doubled(a, q) + doubled(b, q) =~= doubled(a, q));
    } else {
        lemma_doubled_parts(a, b.drop_last(), q);
        assert((a + b).drop_last() =~= a + b.drop_last());
        assert(doubled(a + b, q) =~= doubled(a, q) + doubled(b, q));
    }
}

/// A quoted name stands between double quotes, and without a quote inside it stands there
/// as it is.
pub proof fn lemma_quoted_name(name: Text)
    ensures
        quoted_ident(name) == "\""@ + doubled(name, '"') + "\""@,
        !name.contains('"') ==> quoted_ident(name) == "\""@ + name + "\""@,
    decreases name.len(),
{
    reveal_strlit("\"");
    assert("\""@ =~= seq!['"']);
    if !name.contains('"') && name.len() > 0 {
        let d = name.drop_last();
        assert(!d.contains('"')) by {
            if d.contains('"') {
                let k = choose|k: int| 0 <= k < d.len() && d[k] == '"';
                assert(name[k] == '"');
            }
        }
        lemma_quoted_name(d);
        assert(quoted_ident(d).subrange(1, quoted_ident(d).len() - 1) =~= doubled(d, '"'));
        assert(("\""@ + d + "\""@).subrange(1, d.len() as int + 1) =~= d);
        assert(name[name.len() - 1] != '"');
        assert(doubled(name, '"') =~= name);
    }
}

/// Joined texts stand one behind the other with the separator between them, and nowhere
/// else.
pub proof fn lemma_joined_parts(a: Seq<Text>, b: Seq<Text>, sep: Text)
    ensures
        joined(Seq::empty(), sep) == Seq::<char>::empty(),
        a.len() == 1 ==> joined(a, sep) == a[0],
        a.len() > 0 && b.len() > 0 ==> joined(a + b, sep) == joined(a, sep) + sep + joined(b, sep),
    decreases b.len(),
{
    if a.len() > 0 && b.len() > 0 {
        let d = b.drop_last();
        assert((a + b).drop_last() =~= a + d);
        assert((a + b).last() == b.last());
        if d.len() == 0 {
            assert(a + d =~= a);
            assert(joined(a + b, sep) =~= joined(a, sep) + sep + joined(b, sep));
        } else {
            lemma_joined_parts(a, d, sep);
            assert(joined(a + b, sep) =~= joined(a, sep) + sep + joined(b, sep));
        }
    }
}

/// A number is written digit by digit, the last digit last, and a negative one behind a
/// minus sign.
pub proof fn lemma_decimal_steps(n: nat, d: nat)
    requires
        d < 10,
    ensures
        decimal(d) == seq!["0123456789"@[d as int]],
        n > 0 ==> decimal(10 * n + d) == decimal(n) + decimal(d),
        n > 0 ==> signed_decimal(-(n as int)) == "-"@ + decimal(n),
        signed_decimal(n as int) == decimal(n),
{
    reveal_strlit("0123456789");
    reveal_strlit("-");
    if n > 0 {
        let m = 10 * n + d;
        assert(m / 10 == n && m % 10 == d) by (nonlinear_arith)
            requires
                m == 10 * n + d,
                d < 10,
        ;
        assert(decimal(m) =~= decimal(n) + decimal(d));
        assert("-"@ =~= seq!['-']);
    }
}

// ---------------------------------------------------------------------------
// Catalogues
// ---------------------------------------------------------------------------

/// The text of a catalogue is that of its rows, one behind the other: the kind, the name
/// and the statement in normal form, where there is one.
pub proof fn lemma_catalog_text(rows: Seq<CatalogRowModel>, r: CatalogRowModel)
    ensures
        catalog_text(Seq::empty()) == Seq::<char>::empty(),
        r.sql is Some ==> catalog_text(rows.push(r)) == catalog_text(rows) + r.kind + r.name
            + hash_form(r.sql->0),
        r.sql is None ==> catalog_text(rows.push(r)) == catalog_text(rows) + r.kind + r.name,
{
    assert(rows.push(r).drop_last() =~= rows);
    let all = catalog_text(rows.push(r));
    if r.sql is Some {
        assert(all =~= catalog_text(rows) + r.kind + r.name + hash_form(r.sql->0));
    } else {
        assert(all =~= catalog_text(rows) + r.kind + r.name);
    }
}

// ---------------------------------------------------------------------------
// Versions
// ---------------------------------------------------------------------------

/// The part before a separator is all that stands before it.
pub proof fn lemma_part_without(t: Text, rest: Text, sep: char)
    requires
        forall|i: int| 0 <= i < t.len() ==> #[trigger] t[i] != sep,
        rest.len() > 0 ==> rest[0] == sep,
    ensures
        part_len(t + rest, sep) == t.len(),
    decreases t.len(),
{
    let u = t + rest;
    if t.len() > 0 {
        assert(u[0] == t[0]);
        assert(u.skip(1) =~= t.skip(1) + rest);
        assert forall|i: int| 0 <= i < t.skip(1).len() implies #[trigger] t.skip(1)[i] != sep by {
            assert(t.skip(1)[i] == t[i + 1]);
        }
        lemma_part_without(t.skip(1), rest, sep);
    } else {
        assert(u =~= rest);
    }
}

proof fn lemma_first_part(t: Text, rest: Text, sep: char)
    requires
        forall|i: int| 0 <= i < t.len() ==> #[trigger] t[i] != sep,
    ensures
        parts(t, sep) == seq![t],
        parts(t + seq![sep] + rest, sep) == seq![t] + parts(rest, sep),
{
    assert(t + Seq::<char>::empty() =~= t);
    lemma_part_without(t, Seq::empty(), sep);
    let u = t + seq![sep] + rest;
    assert(u =~= t + (seq![sep] + rest));
    lemma_part_without(t, seq![sep] + rest, sep);
    assert(u.take(t.len() as int) =~= t);
    assert(u.skip(t.len() as int + 1) =~= rest);
}

proof fn lemma_number_part(n: nat)
    requires
        n <= 0xffff_ffff,
    ensures
        version_number()(decimal(n)) == seq![n],
        forall|i: int|
            0 <= i < decimal(n).len() ==> #[trigger] decimal(n)[i] != '.' && decimal(n)[i] != '-',
{
    let t = decimal(n);
    lemma_decimal_digits(n);
    lemma_decimal_round_trip(n, 0xffff_ffff);
    assert forall|i: int| 0 <= i < t.len() implies #[trigger] t[i] != '.' && t[i] != '-' by {
        assert(is_digit_char(t[i]));
    }
    assert(t + Seq::<char>::empty() =~= t);
    lemma_part_without(t, Seq::empty(), '-');
    assert(before_char(t, '-') =~= t);
}

/// A version of three numbers with points between them is read back as these numbers.
pub proof fn lemma_version_read(a: nat, b: nat, c: nat)
    requires
        a <= 0xffff_ffff,
        b <= 0xffff_ffff,
        c <= 0xffff_ffff,
    ensures
        version_of(decimal(a) + "."@ + decimal(b) + "."@ + decimal(c)) == (a, b, c),
{
    reveal_strlit(".");
    assert("."@ =~= seq!['.']);
    let x = decimal(a);
    let y = decimal(b);
    let z = decimal(c);
    lemma_number_part(a);
    lemma_number_part(b);
    lemma_number_part(c);
    let t = x + "."@ + y + "."@ + z;
    let rest = y + seq!['.'] + z;
    assert(t =~= x + seq!['.'] + rest);
    lemma_first_part(x, rest, '.');
    lemma_first_part(y, z, '.');
    lemma_first_part(z, Seq::empty(), '.');
    let p = parts(t, '.');
    assert(p =~= seq![x, y, z]);
    let f = version_number();
    assert(p.drop_last() =~= seq![x, y]);
    assert(p.drop_last().drop_last() =~= seq![x]);
    assert(p.drop_last().drop_last().drop_last() =~= Seq::<Text>::empty());
    reveal_with_fuel(gather, 4);
    assert(gather(p, f) =~= seq![a, b, c]);
}

/// A version is at least another one exactly where it is the same or the first number in
/// which the two differ is the greater one.
pub proof fn lemma_version_order(v: (nat, nat, nat), w: (nat, nat, nat))
    ensures
        v.0 != w.0 ==> version_at_least(v, w) == (v.0 > w.0),
        v.0 == w.0 && v.1 != w.1 ==> version_at_least(v, w) == (v.1 > w.1),
        v.0 == w.0 && v.1 == w.1 && v.2 != w.2 ==> version_at_least(v, w) == (v.2 > w.2),
        version_at_least(v, v),
{
}

// ---------------------------------------------------------------------------
// Changes for people
// ---------------------------------------------------------------------------

/// The texts one behind the other.
pub open spec fn run_on(lines: Seq<Text>) -> Text
    decreases lines.len(),
{
    if lines.len() == 0 {
        Seq::empty()
    } else {
        run_on(lines.drop_last()) + lines.last()
    }
}

proof fn lemma_listed_lines(prefix: Text, names: Seq<Text>, suffix: Text)
    ensures
        listed(prefix, names, suffix) == run_on(
            Seq::new(names.len(), |i: int| prefix + names[i] + suffix),
        ),
    decreases names.len(),
{
    let lines = Seq::new(names.len(), |i: int| prefix + names[i] + suffix);
    if names.len() > 0 {
        let d = names.drop_last();
        lemma_listed_lines(prefix, d, suffix);
        assert(lines.drop_last() =~= Seq::new(d.len(), |i: int| prefix + d[i] + suffix));
        assert(listed(prefix, names, suffix) =~= run_on(lines));
    }
}

/// The lines that tell of the changes of one kind each.
pub open spec fn kinds_of_lines(d: DiffModel) -> Seq<Seq<Text>> {
    seq![
        Seq::new(d.tables_to_create.len(), |i: int| "+ TABLE "@ + d.tables_to_create[i] + "\n"@),
        Seq::new(
            d.tables_to_rebuild.len(),
            |i: int| "~ TABLE "@ + d.tables_to_rebuild[i] + ": REBUILD\n"@,
        ),
        Seq::new(d.tables_to_drop.len(), |i: int| "- TABLE "@ + d.tables_to_drop[i] + "\n"@),
        Seq::new(
            d.columns_to_add.len(),
            |i: int|
                "+ COLUMN "@ + (d.columns_to_add[i].0 + "."@ + d.columns_to_add[i].1.name + " "@
                    + d.columns_to_add[i].1.col_type) + "\n"@,
        ),
        Seq::new(
            d.columns_to_drop.len(),
            |i: int|
                "- COLUMN "@ + (d.columns_to_drop[i].0 + "."@ + d.columns_to_drop[i].1) + "\n"@,
        ),
        Seq::new(
            d.columns_to_rename.len(),
            |i: int|
                "~ COLUMN "@ + (d.columns_to_rename[i].0 + "."@ + d.columns_to_rename[i].1
                    + " -> "@ + d.columns_to_rename[i].2) + "\n"@,
        ),
        Seq::new(d.indexes_to_create.len(), |i: int| "+ INDEX "@ + d.indexes_to_create[i] + "\n"@),
        Seq::new(d.indexes_to_drop.len(), |i: int| "- INDEX "@ + d.indexes_to_drop[i] + "\n"@),
        Seq::new(
            d.fts_indexes_to_create.len(),
            |i: int| "+ FTS INDEX "@ + d.fts_indexes_to_create[i] + "\n"@,
        ),
        Seq::new(
            d.fts_indexes_to_drop.len(),
            |i: int| "- FTS INDEX "@ + d.fts_indexes_to_drop[i] + "\n"@,
        ),
        Seq::new(d.views_to_create.len(), |i: int| "+ VIEW "@ + d.views_to_create[i] + "\n"@),
        Seq::new(d.views_to_drop.len(), |i: int| "- VIEW "@ + d.views_to_drop[i] + "\n"@),
        Seq::new(
            d.triggers_to_create.len(),
            |i: int| "+ TRIGGER "@ + d.triggers_to_create[i] + "\n"@,
        ),
        Seq::new(d.triggers_to_drop.len(), |i: int| "- TRIGGER "@ + d.triggers_to_drop[i] + "\n"@),
    ]
}

/// All the lines of the first `n` kinds, one behind the other.
pub open spec fn lines_of(kinds: Seq<Seq<Text>>, n: int) -> Text
    decreases n,
{
    if n <= 0 {
        Seq::empty()
    } else {
        lines_of(kinds, n - 1) + run_on(kinds[n - 1])
    }
}

/// Changes are shown with one line for each, kind by kind; without changes, one remark is
/// shown.
pub proof fn lemma_changes_shown(d: DiffModel)
    ensures
        d.nothing() ==> d.display() == "(no changes)"@,
        !d.nothing() ==> d.display() == lines_of(kinds_of_lines(d), 14),
{
    let k = kinds_of_lines(d);
    lemma_listed_lines("+ TABLE "@, d.tables_to_create, "\n"@);
    lemma_listed_lines("~ TABLE "@, d.tables_to_rebuild, ": REBUILD\n"@);
    lemma_listed_lines("- TABLE "@, d.tables_to_drop, "\n"@);
    lemma_listed_lines("+ COLUMN "@, added_labels(d.columns_to_add), "\n"@);
    lemma_listed_lines("- COLUMN "@, dropped_labels(d.columns_to_drop), "\n"@);
    lemma_listed_lines("~ COLUMN "@, renamed_labels(d.columns_to_rename), "\n"@);
    lemma_listed_lines("+ INDEX "@, d.indexes_to_create, "\n"@);
    lemma_listed_lines("- INDEX "@, d.indexes_to_drop, "\n"@);
    lemma_listed_lines("+ FTS INDEX "@, d.fts_indexes_to_create, "\n"@);
    lemma_listed_lines("- FTS INDEX "@, d.fts_indexes_to_drop, "\n"@);
    lemma_listed_lines("+ VIEW "@, d.views_to_create, "\n"@);
    lemma_listed_lines("- VIEW "@, d.views_to_drop, "\n"@);
    lemma_listed_lines("+ TRIGGER "@, d.triggers_to_create, "\n"@);
    lemma_listed_lines("- TRIGGER "@, d.triggers_to_drop, "\n"@);
    let a = added_labels(d.columns_to_add);
    assert(Seq::new(a.len(), |i: int| "+ COLUMN "@ + a[i] + "\n"@) =~= k[3]);
    let b = dropped_labels(d.columns_to_drop);
    assert(Seq::new(b.len(), |i: int| "- COLUMN "@ + b[i] + "\n"@) =~= k[4]);
    let c = renamed_labels(d.columns_to_rename);
    assert(Seq::new(c.len(), |i: int| "~ COLUMN "@ + c[i] + "\n"@) =~= k[5]);
    reveal_with_fuel(lines_of, 15);
    assert(Seq::<char>::empty() + run_on(k[0]) =~= run_on(k[0]));
}

// ---------------------------------------------------------------------------
// Messages
// ---------------------------------------------------------------------------

/// What an error tells people.
pub proof fn lemma_messages(a: Text, b: Text, c: Text, n: i64, secs: u64, list: Seq<Text>)
    ensures
        ErrorModel::Turso(a).message() == "turso error: "@ + a,
        (ErrorModel::Io { path: a, source: b }).message() == "I/O error at "@ + a + ": "@ + b,
        (ErrorModel::Statement { stmt: a, source: b, phase: c }).message()
            == "migration statement failed ("@ + c + "): "@ + a + "; cause: "@ + b,
        (ErrorModel::ForeignKeyViolation { table: a, rowid: n, parent: b }).message()
            == "foreign key violation: table="@ + a + ", rowid="@ + signed_decimal(n as int)
            + ", references="@ + b,
        ErrorModel::Schema(a).message() == "schema error: "@ + a,
        ErrorModel::ReadOnly.message()
            == "database is read-only: migrations require write access"@,
        (ErrorModel::MigrationBusy { owner: a, remaining_secs: secs }).message()
            == "migration busy: another migration is in progress (owner="@ + a + ", expires in "@
            + decimal(secs as nat) + "s)"@,
        (ErrorModel::PreDestructiveHookRejected { message: a, blocked_operations: list }).message()
            == "pre-destructive hook rejected migration: "@ + a,
        ErrorModel::UnsupportedFeature(a).message() == "unsupported feature: "@ + a,
        (ErrorModel::InjectedFailure { failpoint: a }).message()
            == "injected failpoint triggered: "@ + a,
        (ErrorModel::PolicyViolation { message: a, blocked_operations: list }).message()
            == "policy violation: "@ + a,
{
}

// ---------------------------------------------------------------------------
// Normal forms
// ---------------------------------------------------------------------------

/// A text without quotes, white space and the characters that open comments.
pub open spec fn is_plain(t: Text) -> bool {
    forall|i: int|
        0 <= i < t.len() ==> {
            &&& #[trigger] t[i] != '\''
            &&& t[i] != '"'
            &&& t[i] != '-'
            &&& t[i] != '/'
            &&& !is_space(t[i])
        }
}

/// A text of nothing but ASCII white space.
pub open spec fn is_blank(t: Text) -> bool {
    forall|i: int| 0 <= i < t.len() ==> is_ascii_space(#[trigger] t[i])
}

proof fn lemma_squeezed_plain(a: Text, rest: Text, fresh: bool)
    requires
        is_plain(a),
        a.len() > 0,
    ensures
        squeezed(a + rest, fresh) == lower(a) + squeezed(rest, false),
    decreases a.len(),
{
    let t = a + rest;
    assert(t[0] == a[0]);
    assert(gap_len(t) == 0);
    assert(t.skip(1) =~= a.skip(1) + rest);
    if a.len() > 1 {
        let b = a.skip(1);
        assert forall|i: int| 0 <= i < b.len() implies {
            &&& #[trigger] b[i] != '\''
            &&& b[i] != '"'
            &&& b[i] != '-'
            &&& b[i] != '/'
            &&& !is_space(b[i])
        } by {
            assert(b[i] == a[i + 1]);
        }
        lemma_squeezed_plain(b, rest, false);
        assert(lower(a) =~= seq![lower_char(a[0])] + lower(b));
        assert(squeezed(t, fresh) =~= lower(a) + squeezed(rest, false));
    } else {
        assert(a.skip(1) + rest =~= rest);
        assert(lower(a) =~= seq![lower_char(a[0])]);
    }
}

proof fn lemma_squeezed_blank(g: Text, rest: Text, fresh: bool)
    requires
        is_blank(g),
        g.len() > 0,
    ensures
        squeezed(g + rest, fresh) == if fresh {
            squeezed(rest, true)
        } else {
            seq![' '] + squeezed(rest, true)
        },
    decreases g.len(),
{
    let t = g + rest;
    assert(t[0] == g[0]);
    assert(is_ascii_space(g[0]));
    assert(gap_len(t) == 1);
    assert(t.skip(1) =~= g.skip(1) + rest);
    if g.len() > 1 {
        let h = g.skip(1);
        assert forall|i: int| 0 <= i < h.len() implies is_ascii_space(#[trigger] h[i]) by {
            assert(h[i] == g[i + 1]);
        }
        lemma_squeezed_blank(h, rest, true);
    } else {
        assert(g.skip(1) + rest =~= rest);
    }
}

proof fn lemma_trim_tight(t: Text)
    requires
        t.len() > 0,
        !is_space(t[0]),
        !is_space(t.last()),
    ensures
        trim(t) == t,
{
}

proof fn lemma_lower_tight(t: Text)
    requires
        is_plain(t),
        t.len() > 0,
    ensures
        !is_space(lower(t)[0]),
        !is_space(lower(t).last()),
{
    assert(!is_space(t[0]));
    assert(!is_space(t[t.len() - 1]));
}

/// The normal form of a plain text is the text in lower case.
pub proof fn lemma_normal_of_plain(t: Text)
    requires
        is_plain(t),
        t.len() > 0,
    ensures
        normal(t) == lower(t),
{
    assert(t + Seq::<char>::empty() =~= t);
    lemma_squeezed_plain(t, Seq::empty(), true);
    assert(squeezed(Seq::<char>::empty(), false) =~= Seq::<char>::empty());
    assert(lower(t) + Seq::<char>::empty() =~= lower(t));
    lemma_lower_tight(t);
    lemma_trim_tight(lower(t));
}

/// White space between two plain texts counts as one space, however much of it there is.
pub proof fn lemma_normal_squeezes(a: Text, g: Text, b: Text)
    requires
        is_plain(a),
        a.len() > 0,
        is_blank(g),
        g.len() > 0,
        is_plain(b),
        b.len() > 0,
    ensures
        normal(a + g + b) == lower(a) + " "@ + lower(b),
{
    reveal_strlit(" ");
    assert(" "@ =~= seq![' ']);
    let t = a + g + b;
    assert(t =~= a + (g + b));
    lemma_squeezed_plain(a, g + b, true);
    lemma_squeezed_blank(g, b, false);
    assert(b + Seq::<char>::empty() =~= b);
    lemma_squeezed_plain(b, Seq::empty(), true);
    assert(squeezed(Seq::<char>::empty(), false) =~= Seq::<char>::empty());
    assert(lower(b) + Seq::<char>::empty() =~= lower(b));
    let r = lower(a) + " "@ + lower(b);
    assert(squeezed(t, true) =~= r);
    lemma_lower_tight(a);
    lemma_lower_tight(b);
    assert(r[0] == lower(a)[0]);
    assert(r.last() == lower(b).last());
    lemma_trim_tight(r);
}

// ---------------------------------------------------------------------------
// Order, numbers and edges of texts
// ---------------------------------------------------------------------------

/// Texts are ordered by the first character in which they differ; a text comes before the
/// longer ones that start with it.
pub proof fn lemma_order_of_texts(p: Text, a: char, x: Text, b: char, y: Text)
    ensures
        less(p, p + seq![b] + y),
        !less(p + seq![a] + x, p),
        a != b ==> (less(p + seq![a] + x, p + seq![b] + y) <==> a < b),
{
    let u = p + seq![a] + x;
    let v = p + seq![b] + y;
    let k = p.len() as int;
    assert(forall|j: int| 0 <= j < k ==> u[j] == p[j]);
    assert(forall|j: int| 0 <= j < k ==> v[j] == p[j]);
    lemma_less_from(p, v, 0, k);
    lemma_less_from(u, p, 0, k);
    assert(u[k] == a && v[k] == b);
    if a != b {
        lemma_less_from(u, v, 0, k);
    }
}

/// A signed number that is written in decimal reads back as the same number.
pub proof fn lemma_signed_round_trip(n: i64)
    ensures
        parsed_signed(signed_decimal(n as int)) == Some(n as int),
{
    let t = signed_decimal(n as int);
    if n < 0 {
        let m = (-(n as int)) as nat;
        lemma_decimal_digits(m);
        lemma_decimal_round_trip(m, 0x8000_0000_0000_0000);
        assert(t.skip(1) =~= decimal(m));
        assert(t[0] == '-');
        assert(t[1] == decimal(m)[0]);
    } else {
        lemma_decimal_digits(n as nat);
        lemma_decimal_round_trip(n as nat, 0x7fff_ffff_ffff_ffff);
        assert(is_digit_char(t[0]));
    }
}

/// Different numbers are written differently.
pub proof fn lemma_numbers_differ(a: i64, b: i64)
    requires
        signed_decimal(a as int) == signed_decimal(b as int),
    ensures
        a == b,
{
    lemma_signed_round_trip(a);
    lemma_signed_round_trip(b);
}

/// A text of nothing but white space.
pub open spec fn is_white(t: Text) -> bool {
    forall|i: int| 0 <= i < t.len() ==> is_space(#[trigger] t[i])
}

/// Trimming takes away just the white space at both ends.
pub proof fn lemma_trimmed(a: Text, t: Text, b: Text)
    requires
        is_white(a),
        is_white(b),
        t.len() > 0,
        !is_space(t[0]),
        !is_space(t[t.len() - 1]),
    ensures
        trim(a + t + b) == t,
{
    assert(a + t + b =~= a + (t + b));
    lemma_trim_front(a, t + b);
    lemma_trim_back(t, b);
}

proof fn lemma_trim_front(a: Text, t: Text)
    requires
        is_white(a),
        t.len() > 0,
        !is_space(t[0]),
    ensures
        trim_start(a + t) == t,
    decreases a.len(),
{
    let u = a + t;
    if a.len() > 0 {
        assert(u[0] == a[0]);
        assert(is_space(a[0]));
        assert(u.skip(1) =~= a.skip(1) + t);
        assert forall|i: int| 0 <= i < a.skip(1).len() implies is_space(#[trigger] a.skip(1)[i]) by {
            assert(a.skip(1)[i] == a[i + 1]);
        }
        lemma_trim_front(a.skip(1), t);
    } else {
        assert(u =~= t);
    }
}

proof fn lemma_trim_back(t: Text, b: Text)
    requires
        is_white(b),
        t.len() > 0,
        !is_space(t[t.len() - 1]),
    ensures
        trim_end(t + b) == t,
    decreases b.len(),
{
    let u = t + b;
    if b.len() > 0 {
        assert(u.last() == b[b.len() - 1]);
        assert(is_space(b[b.len() - 1]));
        assert(u.drop_last() =~= t + b.drop_last());
        lemma_trim_back(t, b.drop_last());
    } else {
        assert(u =~= t);
    }
}

/// A text of nothing but white space is trimmed to nothing.
pub proof fn lemma_white_trimmed(t: Text)
    requires
        is_white(t),
    ensures
        trim(t).len() == 0,
    decreases t.len(),
{
    if t.len() > 0 {
        assert(is_space(t[0]));
        assert forall|i: int| 0 <= i < t.skip(1).len() implies is_space(#[trigger] t.skip(1)[i]) by {
            assert(t.skip(1)[i] == t[i + 1]);
        }
        lemma_white_trimmed(t.skip(1));
    }
}

/// The characters of a bare name are the letters, the digits and the underscore.
pub proof fn lemma_word_chars(c: char)
    ensures
        is_word_char(c)
            <==> "ABCDEFGHIJKLMNOPQRSTUVWXYZabcdefghijklmnopqrstuvwxyz0123456789_"@.contains(c),
{
    reveal_strlit("ABCDEFGHIJKLMNOPQRSTUVWXYZabcdefghijklmnopqrstuvwxyz0123456789_");
    let a = "ABCDEFGHIJKLMNOPQRSTUVWXYZabcdefghijklmnopqrstuvwxyz0123456789_"@;
    if crate::text::is_upper_char(c) {
        assert(a[(c as u32 - 'A' as u32) as int] == c);
    }
    if crate::text::is_lower_char(c) {
        assert(a[26 + (c as u32 - 'a' as u32) as int] == c);
    }
    if is_digit_char(c) {
        assert(a[52 + (c as u32 - '0' as u32) as int] == c);
    }
    if c == '_' {
        assert(a[62] == c);
    }
    if a.contains(c) {
        let k = choose|k: int| 0 <= k < a.len() && a[k] == c;
        assert(0 <= k < 63);
    }
}

/// Whether `w` stands between `a` and `b`, and neither of them touches it with a character
/// of a name.
pub open spec fn is_word_between(t: Text, w: Text, a: Text, b: Text) -> bool {
    &&& t == a + w + b
    &&& a.len() > 0 ==> !is_word_char(a[a.len() - 1])
    &&& b.len() > 0 ==> !is_word_char(b[0])
}

/// A name is one of the words of a text exactly where it stands there on its own.
pub proof fn lemma_has_word(t: Text, w: Text)
    requires
        forall|i: int| 0 <= i < w.len() ==> is_word_char(#[trigger] w[i]),
    ensures
        has_word(t, w) <==> exists|a: Text, b: Text| #[trigger] is_word_between(t, w, a, b),
{
    if has_word(t, w) {
        let (i, j) = choose|i: int, j: int|
            #[trigger] is_word_span(t, i, j) && t.subrange(i, j) == w;
        let a = t.take(i);
        let b = t.skip(j);
        assert(t =~= a + t.subrange(i, j) + b);
        assert(is_word_between(t, w, a, b));
    }
    if exists|a: Text, b: Text| #[trigger] is_word_between(t, w, a, b) {
        let (a, b) = choose|a: Text, b: Text| #[trigger] is_word_between(t, w, a, b);
        let i = a.len() as int;
        let j = (a.len() + w.len()) as int;
        assert(t.subrange(i, j) =~= w);
        assert forall|k: int| i <= k < j implies is_word_char(#[trigger] t[k]) by {
            assert(t[k] == w[k - i]);
        }
        if i > 0 {
            assert(t[i - 1] == a[i - 1]);
        }
        if j < t.len() {
            assert(t[j] == b[0]);
        }
        assert(is_word_span(t, i, j));
    }
}

/// What follows a number behind a minus sign, as in a preview version, does not count.
pub proof fn lemma_version_suffix(n: nat, suffix: Text)
    requires
        n <= 0xffff_ffff,
    ensures
        version_number()(decimal(n) + "-"@ + suffix) == seq![n],
{
    reveal_strlit("-");
    let t = decimal(n);
    let u = t + "-"@ + suffix;
    lemma_number_part(n);
    lemma_decimal_round_trip(n, 0xffff_ffff);
    assert(u =~= t + ("-"@ + suffix));
    assert forall|i: int| 0 <= i < t.len() implies #[trigger] t[i] != '-' by {}
    lemma_part_without(t, "-"@ + suffix, '-');
    assert(before_char(u, '-') =~= t);
}

/// Numbers that a version does not give are 0, and without any it is version 3.
pub proof fn lemma_version_short(a: nat, b: nat)
    requires
        a <= 0xffff_ffff,
        b <= 0xffff_ffff,
    ensures
        version_of(decimal(a)) == (a, 0nat, 0nat),
        version_of(decimal(a) + "."@ + decimal(b)) == (a, b, 0nat),
        version_of(Seq::empty()) == (3nat, 0nat, 0nat),
{
    reveal_strlit(".");
    assert("."@ =~= seq!['.']);
    let x = decimal(a);
    let y = decimal(b);
    let f = version_number();
    lemma_number_part(a);
    lemma_number_part(b);
    reveal_with_fuel(gather, 3);
    lemma_first_part(x, y, '.');
    lemma_first_part(y, Seq::empty(), '.');
    assert(seq![x].drop_last() =~= Seq::<Text>::empty());
    assert(gather(seq![x], f) =~= seq![a]);
    let p = parts(x + "."@ + y, '.');
    assert(p =~= seq![x, y]);
    assert(p.drop_last() =~= seq![x]);
    assert(gather(p, f) =~= seq![a, b]);
    let e = Seq::<char>::empty();
    assert(parts(e, '.') =~= seq![e]);
    assert(seq![e].drop_last() =~= Seq::<Text>::empty());
    assert(before_char(e, '-') =~= e);
    assert(f(e) =~= Seq::<nat>::empty());
    assert(gather(seq![e], f) =~= Seq::<nat>::empty());
}

/// White space is what Unicode counts as such; the first five of it and the space are that
/// of ASCII, but for the vertical tab.
pub proof fn lemma_spaces(c: char)
    ensures
        is_space(c) <==> seq![
            '\t', '\n', '\u{b}', '\u{c}', '\r', ' ', '\u{85}', '\u{a0}', '\u{1680}', '\u{2000}',
            '\u{2001}', '\u{2002}', '\u{2003}', '\u{2004}', '\u{2005}', '\u{2006}', '\u{2007}',
            '\u{2008}', '\u{2009}', '\u{200a}', '\u{2028}', '\u{2029}', '\u{202f}', '\u{205f}',
            '\u{3000}',
        ].contains(c),
        is_ascii_space(c) <==> seq![' ', '\t', '\n', '\u{c}', '\r'].contains(c),
{
    let s = seq![
        '\t', '\n', '\u{b}', '\u{c}', '\r', ' ', '\u{85}', '\u{a0}', '\u{1680}', '\u{2000}',
        '\u{2001}', '\u{2002}', '\u{2003}', '\u{2004}', '\u{2005}', '\u{2006}', '\u{2007}',
        '\u{2008}', '\u{2009}', '\u{200a}', '\u{2028}', '\u{2029}', '\u{202f}', '\u{205f}',
        '\u{3000}',
    ];
    let n = c as u32;
    if '\t' <= c && c <= '\r' {
        assert(s[n - 9] == c);
    } else if '\u{2000}' <= c && c <= '\u{200a}' {
        assert(s[9 + n - 0x2000] == c);
    } else {
        assert(s[5] == ' ' && s[6] == '\u{85}' && s[7] == '\u{a0}' && s[8] == '\u{1680}');
        assert(s[20] == '\u{2028}' && s[21] == '\u{2029}' && s[22] == '\u{202f}');
        assert(s[23] == '\u{205f}' && s[24] == '\u{3000}');
    }
    let a = seq![' ', '\t', '\n', '\u{c}', '\r'];
    assert(a[0] == ' ' && a[1] == '\t' && a[2] == '\n' && a[3] == '\u{c}' && a[4] == '\r');
}

} // verus!
