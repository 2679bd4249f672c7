//! What comments and blank lines around and inside a schema text do to it: nothing.

use vstd::prelude::*;

#[allow(unused_imports)]
use crate::normalize::{
    block_tail, gap_len, hash_form, is_ending, is_quote, lemma_block_tail, lemma_gap_len,
    lemma_literal_next, lemma_literal_tail, lemma_literal_tail_append,
    lemma_normal_leading_line_comment, lemma_normal_leading_space, line_len, literal_closed,
    literal_len, normal, squeezed, without_ending,
};
#[allow(unused_imports)]
use crate::text::{is_ascii_space, is_space, lower_char, trim, trim_end, trim_start, Text};

verus! {

// ---------------------------------------------------------------------------
// How a text ends
// ---------------------------------------------------------------------------

/// Whether every quote that the text opens outside comments is closed in it.
pub open spec fn quotes_closed(t: Text) -> bool
    decreases t.len(),
{
    if t.len() == 0 {
        true
    } else if is_quote(t[0]) {
        proof {
            lemma_literal_tail(t.skip(1), t[0]);
        }
        literal_closed(t.skip(1), t[0]) && quotes_closed(t.skip(literal_len(t) as int))
    } else if gap_len(t) > 0 {
        proof {
            lemma_gap_len(t);
        }
        quotes_closed(t.skip(gap_len(t) as int))
    } else {
        quotes_closed(t.skip(1))
    }
}

/// How many nested block comments are open at the end of a text at whose start `depth`
/// of them are; 0 as soon as all of them are closed.
pub open spec fn still_open(t: Text, depth: nat) -> nat
    decreases t.len(),
{
    if depth == 0 || t.len() == 0 {
        depth
    } else if t.len() > 1 && t[0] == '*' && t[1] == '/' {
        still_open(t.skip(2), (depth - 1) as nat)
    } else if t.len() > 1 && t[0] == '/' && t[1] == '*' {
        still_open(t.skip(2), depth + 1)
    } else {
        still_open(t.skip(1), depth)
    }
}

/// How many nested block comments are open at the end of the text.
pub open spec fn open_blocks(t: Text) -> nat
    decreases t.len(),
{
    if t.len() == 0 {
        0
    } else if is_quote(t[0]) {
        proof {
            lemma_literal_tail(t.skip(1), t[0]);
        }
        open_blocks(t.skip(literal_len(t) as int))
    } else if t.len() > 1 && t[0] == '/' && t[1] == '*' && still_open(t.skip(2), 1) > 0 {
        still_open(t.skip(2), 1)
    } else if gap_len(t) > 0 {
        proof {
            lemma_gap_len(t);
        }
        open_blocks(t.skip(gap_len(t) as int))
    } else {
        open_blocks(t.skip(1))
    }
}

/// Whether the text ends in a line comment without the line feed that closes it.
pub open spec fn open_line(t: Text) -> bool
    decreases t.len(),
{
    if t.len() == 0 {
        false
    } else if is_quote(t[0]) {
        proof {
            lemma_literal_tail(t.skip(1), t[0]);
        }
        open_line(t.skip(literal_len(t) as int))
    } else if t.len() > 1 && t[0] == '-' && t[1] == '-' && !t.skip(2).contains('\n') {
        true
    } else if gap_len(t) > 0 {
        proof {
            lemma_gap_len(t);
        }
        open_line(t.skip(gap_len(t) as int))
    } else {
        open_line(t.skip(1))
    }
}

/// Whether nothing, or a gap, stands at the end of the text.
pub open spec fn ends_fresh(t: Text, fresh: bool) -> bool
    decreases t.len(),
{
    if t.len() == 0 {
        fresh
    } else if is_quote(t[0]) {
        proof {
            lemma_literal_tail(t.skip(1), t[0]);
        }
        ends_fresh(t.skip(literal_len(t) as int), false)
    } else if gap_len(t) > 0 {
        proof {
            lemma_gap_len(t);
        }
        ends_fresh(t.skip(gap_len(t) as int), true)
    } else {
        ends_fresh(t.skip(1), false)
    }
}

/// What is left of a text `g` behind `t`, once the block comments that `t` left open are
/// closed.
pub open spec fn behind_blocks(t: Text, g: Text) -> Text {
    g.skip(block_tail(g, open_blocks(t)) as int)
}

// ---------------------------------------------------------------------------
// A text behind a text
// ---------------------------------------------------------------------------

proof fn lemma_line_append(a: Text, g: Text)
    requires
        a.contains('\n') || (g.len() > 0 && g[0] == '\n'),
    ensures
        a.contains('\n') ==> line_len(a + g) == line_len(a),
        !a.contains('\n') ==> line_len(a + g) == a.len() + 1 && line_len(a) == a.len(),
    decreases a.len(),
{
    let u = a + g;
    if a.len() > 0 {
        if a[0] != '\n' {
            assert(u.skip(1) =~= a.skip(1) + g);
            if a.contains('\n') {
                let i = choose|i: int| 0 <= i < a.len() && a[i] == '\n';
                assert(a.skip(1)[i - 1] == '\n');
            } else if a.skip(1).contains('\n') {
                let i = choose|i: int| 0 <= i < a.skip(1).len() && a.skip(1)[i] == '\n';
                assert(a[i + 1] == '\n');
            }
            lemma_line_append(a.skip(1), g);
        }
    } else {
        assert(u =~= g);
    }
}

proof fn lemma_block_append(a: Text, g: Text, depth: nat)
    requires
        g.len() > 0,
        is_ascii_space(g[0]),
    ensures
        still_open(a, depth) == 0 ==> block_tail(a + g, depth) == block_tail(a, depth),
        still_open(a, depth) > 0 ==> block_tail(a + g, depth) == a.len() + block_tail(
            g,
            still_open(a, depth),
        ) && block_tail(a, depth) == a.len(),
    decreases a.len(),
{
    let u = a + g;
    if depth == 0 {
    } else if a.len() == 0 {
        assert(u =~= g);
    } else if a.len() > 1 && a[0] == '*' && a[1] == '/' {
        assert(u.skip(2) =~= a.skip(2) + g);
        lemma_block_append(a.skip(2), g, (depth - 1) as nat);
    } else if a.len() > 1 && a[0] == '/' && a[1] == '*' {
        assert(u.skip(2) =~= a.skip(2) + g);
        lemma_block_append(a.skip(2), g, depth + 1);
    } else {
        assert(u.skip(1) =~= a.skip(1) + g);
        if a.len() == 1 {
            assert(u[1] == g[0]);
        } else {
            assert(u[1] == a[1]);
        }
        lemma_block_append(a.skip(1), g, depth);
    }
}

/// A text and another one behind it, each squeezed for itself.
spec fn squeezed_both(t: Text, g: Text, fresh: bool) -> Text {
    squeezed(t, fresh) + (if ends_fresh(t, fresh) {
        Seq::<char>::empty()
    } else {
        seq![' ']
    }) + squeezed(behind_blocks(t, g), true)
}

/// Whether a text may stand behind another one: white space parts them, and ends the
/// line where the other one leaves it in a comment.
spec fn parted(t: Text, g: Text) -> bool {
    &&& quotes_closed(t)
    &&& g.len() > 0
    &&& is_ascii_space(g[0])
    &&& open_line(t) ==> g[0] == '\n'
}

/// A gap at the front of a text.
proof fn lemma_squeezed_gap(t: Text, fresh: bool)
    requires
        t.len() > 0,
        !is_quote(t[0]),
        gap_len(t) > 0,
    ensures
        squeezed(t, fresh) == (if fresh {
            Seq::<char>::empty()
        } else {
            seq![' ']
        }) + squeezed(t.skip(gap_len(t) as int), true),
{
    let rest = squeezed(t.skip(gap_len(t) as int), true);
    assert(Seq::<char>::empty() + rest =~= rest);
}

/// White space at the front of a text.
proof fn lemma_squeezed_space(g: Text, fresh: bool)
    requires
        g.len() > 0,
        is_ascii_space(g[0]),
    ensures
        gap_len(g) == 1,
        squeezed(g, fresh) == (if fresh {
            Seq::<char>::empty()
        } else {
            seq![' ']
        }) + squeezed(g, true),
        squeezed(g, true) == squeezed(g.skip(1), true),
{
    lemma_squeezed_gap(g, fresh);
    lemma_squeezed_gap(g, true);
    let rest = squeezed(g.skip(1), true);
    assert(Seq::<char>::empty() + rest =~= rest);
}

proof fn lemma_step(t: Text, rest: Text, g: Text, head: Text, fresh: bool, after: bool)
    requires
        squeezed(t, fresh) == head + squeezed(rest, after),
        squeezed(t + g, fresh) == head + squeezed(rest + g, after),
        ends_fresh(t, fresh) == ends_fresh(rest, after),
        open_blocks(t) == open_blocks(rest),
        squeezed(rest + g, after) == squeezed_both(rest, g, after),
    ensures
        squeezed(t + g, fresh) == squeezed_both(t, g, fresh),
{
    assert(squeezed_both(t, g, fresh) =~= head + squeezed_both(rest, g, after));
}

proof fn lemma_append_to_literal(t: Text, g: Text, fresh: bool)
    requires
        parted(t, g),
        t.len() > 0,
        is_quote(t[0]),
    ensures
        squeezed(t, fresh) == t.take(literal_len(t) as int) + squeezed(
            t.skip(literal_len(t) as int),
            false,
        ),
        squeezed(t + g, fresh) == t.take(literal_len(t) as int) + squeezed(
            t.skip(literal_len(t) as int) + g,
            false,
        ),
{
    let u = t + g;
    let q = t[0];
    let n = literal_len(t) as int;
    lemma_literal_tail(t.skip(1), q);
    lemma_literal_next(t.skip(1), q);
    let rest = t.skip(n);
    let more = rest + g;
    if rest.len() > 0 {
        assert(rest[0] == t.skip(1)[n - 1]);
    }
    lemma_literal_tail_append(t.skip(1), q, more);
    assert(u.skip(1) =~= t.skip(1).take(n - 1) + more);
    assert(u[0] == q);
    assert(literal_len(u) == n);
    assert(u.take(n) =~= t.take(n));
    assert(u.skip(n) =~= more);
}

/// A gap that ends in the text.
proof fn lemma_append_to_gap(t: Text, g: Text)
    requires
        parted(t, g),
        t.len() > 0,
        !is_quote(t[0]),
        gap_len(t) > 0,
        t.len() > 1 && t[0] == '-' && t[1] == '-' ==> t.skip(2).contains('\n'),
        t.len() > 1 && t[0] == '/' && t[1] == '*' ==> still_open(t.skip(2), 1) == 0,
    ensures
        gap_len(t + g) == gap_len(t),
{
    let u = t + g;
    if t.len() > 1 {
        assert(u.skip(2) =~= t.skip(2) + g);
        assert(u[1] == t[1]);
        if t[0] == '-' && t[1] == '-' {
            lemma_line_append(t.skip(2), g);
        } else if t[0] == '/' && t[1] == '*' {
            lemma_block_append(t.skip(2), g, 1);
        }
    }
}

/// A comment that does not end in the text.
proof fn lemma_append_to_open_comment(t: Text, g: Text, fresh: bool)
    requires
        parted(t, g),
        t.len() > 1,
        (t[0] == '-' && t[1] == '-' && !t.skip(2).contains('\n')) || (t[0] == '/' && t[1] == '*'
            && still_open(t.skip(2), 1) > 0),
    ensures
        squeezed(t + g, fresh) == squeezed_both(t, g, fresh),
{
    let u = t + g;
    let a = t.skip(2);
    assert(u.skip(2) =~= a + g);
    assert(u[0] == t[0] && u[1] == t[1]);
    lemma_squeezed_gap(t, fresh);
    lemma_squeezed_gap(u, fresh);
    lemma_squeezed_space(g, true);
    let n = t.len() as int;
    let none = Seq::<char>::empty();
    if t[0] == '-' {
        assert(open_line(t));
        lemma_line_append(a, g);
        assert(gap_len(t) == n);
        assert(t.skip(n) =~= none);
        assert(gap_len(u) == n + 1);
        assert(u.skip(n + 1) =~= g.skip(1));
        assert(open_blocks(t) == open_blocks(none));
        assert(behind_blocks(t, g) =~= g);
    } else {
        let d = still_open(a, 1);
        let k = block_tail(g, d) as int;
        lemma_block_append(a, g, 1);
        lemma_block_tail(g, d);
        assert(gap_len(t) == n);
        assert(t.skip(n) =~= none);
        assert(gap_len(u) == n + k);
        assert(u.skip(n + k) =~= g.skip(k));
    }
    assert(squeezed(none, true) == none);
    assert(ends_fresh(t, fresh) == ends_fresh(none, true));
    assert(squeezed(t, fresh) + none =~= squeezed(t, fresh));
}

/// A text and, behind white space, another one: each is squeezed for itself.
proof fn lemma_squeezed_append(t: Text, g: Text, fresh: bool)
    requires
        parted(t, g),
    ensures
        squeezed(t + g, fresh) == squeezed_both(t, g, fresh),
    decreases t.len(),
{
    let u = t + g;
    if t.len() == 0 {
        assert(u =~= g);
        assert(behind_blocks(t, g) =~= g);
        lemma_squeezed_space(g, fresh);
        assert(squeezed_both(t, g, fresh) =~= squeezed(g, fresh));
    } else if is_quote(t[0]) {
        let n = literal_len(t) as int;
        lemma_literal_tail(t.skip(1), t[0]);
        lemma_append_to_literal(t, g, fresh);
        lemma_squeezed_append(t.skip(n), g, false);
        lemma_step(t, t.skip(n), g, t.take(n), fresh, false);
    } else if t.len() > 1 && ((t[0] == '-' && t[1] == '-' && !t.skip(2).contains('\n')) || (t[0]
        == '/' && t[1] == '*' && still_open(t.skip(2), 1) > 0)) {
        lemma_append_to_open_comment(t, g, fresh);
    } else if gap_len(t) > 0 {
        let n = gap_len(t) as int;
        lemma_gap_len(t);
        lemma_append_to_gap(t, g);
        lemma_squeezed_gap(t, fresh);
        lemma_squeezed_gap(u, fresh);
        assert(u.skip(n) =~= t.skip(n) + g);
        lemma_squeezed_append(t.skip(n), g, true);
        let head = if fresh {
            Seq::<char>::empty()
        } else {
            seq![' ']
        };
        lemma_step(t, t.skip(n), g, head, fresh, true);
    } else {
        if t.len() == 1 {
            assert(u[1] == g[0]);
        } else {
            assert(u[1] == t[1]);
        }
        assert(gap_len(u) == 0);
        assert(u.skip(1) =~= t.skip(1) + g);
        lemma_squeezed_append(t.skip(1), g, false);
        lemma_step(t, t.skip(1), g, seq![lower_char(t[0])], fresh, false);
    }
}

// ---------------------------------------------------------------------------
// The end of the form that is hashed
// ---------------------------------------------------------------------------

/// Whether the text is made of semicolons and white space alone.
pub open spec fn only_endings(t: Text) -> bool {
    forall|i: int| 0 <= i < t.len() ==> is_ending(#[trigger] t[i])
}

proof fn lemma_ending_behind(a: Text, b: Text)
    requires
        only_endings(b),
    ensures
        without_ending(a + b) == without_ending(a),
    decreases b.len(),
{
    let u = a + b;
    if b.len() > 0 {
        assert(u.last() == b[b.len() - 1]);
        assert(u.drop_last() =~= a + b.drop_last());
        lemma_ending_behind(a, b.drop_last());
    } else {
        assert(u =~= a);
    }
}

proof fn lemma_ending_trimmed(t: Text)
    ensures
        without_ending(trim_end(t)) == without_ending(t),
    decreases t.len(),
{
    if t.len() > 0 && is_space(t.last()) {
        lemma_ending_trimmed(t.drop_last());
    }
}

proof fn lemma_trim_start_behind(a: Text, b: Text)
    ensures
        trim_start(a).len() > 0 ==> trim_start(a + b) == trim_start(a) + b,
        trim_start(a).len() == 0 ==> trim_start(a + b) == trim_start(b),
    decreases a.len(),
{
    let u = a + b;
    if a.len() == 0 {
        assert(u =~= b);
    } else if is_space(a[0]) {
        assert(u.skip(1) =~= a.skip(1) + b);
        lemma_trim_start_behind(a.skip(1), b);
    }
}

proof fn lemma_only_endings_trimmed(t: Text)
    requires
        only_endings(t),
    ensures
        only_endings(trim_start(t)),
    decreases t.len(),
{
    if t.len() > 0 && is_space(t[0]) {
        lemma_only_endings_trimmed(t.skip(1));
    }
}

proof fn lemma_form_behind(a: Text, b: Text)
    requires
        only_endings(b),
    ensures
        without_ending(trim(a + b)) == without_ending(trim(a)),
{
    lemma_ending_trimmed(trim_start(a + b));
    lemma_ending_trimmed(trim_start(a));
    lemma_trim_start_behind(a, b);
    if trim_start(a).len() > 0 {
        lemma_ending_behind(trim_start(a), b);
    } else {
        let s = trim_start(b);
        lemma_only_endings_trimmed(b);
        lemma_ending_behind(Seq::empty(), s);
        assert(Seq::<char>::empty() + s =~= s);
        assert(trim_start(a) =~= Seq::empty());
    }
}

// ---------------------------------------------------------------------------
// Laws
// ---------------------------------------------------------------------------

/// What stands behind a schema text and white space does not change the form that is
/// hashed, where it comes to nothing but semicolons and white space.
pub proof fn lemma_hash_form_ignores_tail(t: Text, g: Text)
    requires
        quotes_closed(t),
        g.len() > 0,
        is_ascii_space(g[0]),
        open_line(t) ==> g[0] == '\n',
        only_endings(squeezed(behind_blocks(t, g), true)),
    ensures
        hash_form(t + g) == hash_form(t),
{
    lemma_squeezed_append(t, g, true);
    let a = squeezed(t, true);
    let gap = if ends_fresh(t, true) {
        Seq::<char>::empty()
    } else {
        seq![' ']
    };
    let rest = squeezed(behind_blocks(t, g), true);
    assert(a + gap + rest =~= a + (gap + rest));
    assert(only_endings(gap + rest));
    lemma_form_behind(a, gap + rest);
}

proof fn lemma_comment_squeezed(y: Text)
    requires
        !y.contains('\n'),
    ensures
        squeezed(seq!['\n', '-', '-', ' '] + y, true) == Seq::<char>::empty(),
{
    let g = seq!['\n', '-', '-', ' '] + y;
    let c = g.skip(1);
    lemma_squeezed_space(g, true);
    assert(c[0] == '-' && c[1] == '-');
    let a = c.skip(2);
    assert(a =~= seq![' '] + y);
    assert forall|i: int| 0 <= i < a.len() implies a[i] != '\n' by {
        if i > 0 {
            assert(a[i] == y[i - 1]);
        }
    }
    lemma_line_whole(a);
    lemma_squeezed_gap(c, true);
    assert(c.skip(gap_len(c) as int) =~= Seq::empty());
    assert(Seq::<char>::empty() + Seq::<char>::empty() =~= Seq::<char>::empty());
}

proof fn lemma_line_whole(a: Text)
    requires
        forall|i: int| 0 <= i < a.len() ==> a[i] != '\n',
    ensures
        line_len(a) == a.len(),
    decreases a.len(),
{
    if a.len() > 0 {
        lemma_line_whole(a.skip(1));
    }
}

/// A line comment before a schema text and one behind it do not change the form that is
/// hashed. A text that leaves block comments open is ruled out only where the last line
/// closes them and goes on with more than semicolons and white space.
pub proof fn lemma_hash_form_ignores_surroundings(x: Text, t: Text, y: Text)
    requires
        !x.contains('\n'),
        !y.contains('\n'),
        quotes_closed(t),
        open_blocks(t) > 0 ==> only_endings(
            squeezed(behind_blocks(t, seq!['\n', '-', '-', ' '] + y), true),
        ),
    ensures
        hash_form(seq!['-', '-', ' '] + x + seq!['\n'] + t + (seq!['\n', '-', '-', ' '] + y))
            == hash_form(t),
{
    let g = seq!['\n', '-', '-', ' '] + y;
    if open_blocks(t) == 0 {
        assert(behind_blocks(t, g) =~= g);
        lemma_comment_squeezed(y);
    }
    lemma_hash_form_ignores_tail(t, g);
    let body = seq![' '] + x;
    assert(!body.contains('\n')) by {
        if body.contains('\n') {
            let i = choose|i: int| 0 <= i < body.len() && body[i] == '\n';
            assert(x[i - 1] == '\n');
        }
    }
    lemma_normal_leading_line_comment(body, t + g);
    assert(seq!['-', '-', ' '] + x + seq!['\n'] + t + g =~= seq!['-', '-'] + body + seq!['\n'] + (t
        + g));
}

/// Blank lines before a schema text and behind it do not change the form that is hashed.
pub proof fn lemma_hash_form_ignores_blank_lines(t: Text)
    requires
        quotes_closed(t),
    ensures
        hash_form(seq!['\n', '\n'] + t + seq!['\n']) == hash_form(t),
{
    let g = seq!['\n'];
    let d = open_blocks(t);
    lemma_block_tail(g, d);
    if d == 0 {
        assert(behind_blocks(t, g) =~= g);
        lemma_squeezed_space(g, true);
        assert(g.skip(1) =~= Seq::empty());
    } else {
        assert(g.skip(1) =~= Seq::empty());
        assert(block_tail(g.skip(1), d) == 0);
        assert(behind_blocks(t, g) =~= Seq::empty());
    }
    lemma_hash_form_ignores_tail(t, g);
    lemma_normal_leading_space('\n', t + g);
    lemma_normal_leading_space('\n', seq!['\n'] + (t + g));
    assert(seq!['\n', '\n'] + t + g =~= seq!['\n'] + (seq!['\n'] + (t + g)));
}

/// A line that is a comment changes nothing of the normal form, wherever it stands
/// outside literals and block comments.
pub proof fn lemma_normal_ignores_comment_line(t: Text, c: Text, u: Text)
    requires
        quotes_closed(t),
        open_blocks(t) == 0,
        !c.contains('\n'),
    ensures
        normal(t + (seq!['\n', '-', '-'] + c + seq!['\n'] + u)) == normal(t + (seq!['\n'] + u)),
{
    let g = seq!['\n', '-', '-'] + c + seq!['\n'] + u;
    let h = seq!['\n'] + u;
    lemma_squeezed_append(t, g, true);
    lemma_squeezed_append(t, h, true);
    assert(behind_blocks(t, g) =~= g);
    assert(behind_blocks(t, h) =~= h);
    lemma_squeezed_space(g, true);
    lemma_squeezed_space(h, true);
    let k = g.skip(1);
    assert(h.skip(1) =~= u);
    assert(k[0] == '-' && k[1] == '-');
    assert(k.skip(2) =~= c + h);
    lemma_line_append(c, h);
    lemma_squeezed_gap(k, true);
    assert(k.skip(gap_len(k) as int) =~= u);
    assert(Seq::<char>::empty() + squeezed(u, true) =~= squeezed(u, true));
}

} // verus!
