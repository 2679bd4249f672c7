//! Fingerprints of schemas.

use vstd::prelude::*;

#[allow(unused_imports)]
use crate::comment_laws::{
    behind_blocks, lemma_hash_form_ignores_blank_lines, lemma_hash_form_ignores_surroundings,
    only_endings, open_blocks, quotes_closed,
};
#[allow(unused_imports)]
use crate::lists::{gather, lemma_gather_step};
#[allow(unused_imports)]
use crate::normalize::{
    block_closed, hash_form, lemma_normal_leading_block_comment, lemma_normal_leading_line_comment,
    lemma_normal_leading_space, normal, squeezed,
};
use crate::normalize::normalize_for_hash;
#[allow(unused_imports)]
use crate::text::is_ascii_space;
use crate::text::Text;
#[allow(unused_imports)]
use vstd::utf8::encode_utf8;

verus! {

/// The lower case hexadecimal form of the BLAKE3 hash of the bytes.
pub uninterp spec fn blake3_hex(bytes: Seq<u8>) -> Seq<char>;

pub open spec fn is_hex_char(c: char) -> bool {
    ('0' <= c && c <= '9') || ('a' <= c && c <= 'f')
}

/// `blake3::hash` of the bytes, written out by `blake3::Hash::to_hex`: a function of
/// the bytes alone, 64 characters long, in lower case hexadecimal digits.
#[verifier::external_body]
fn blake3_hex_of(bytes: &[u8]) -> (r: String)
    ensures
        r@ == blake3_hex(bytes@),
        r@.len() == 64,
        forall|i: int| 0 <= i < r@.len() ==> is_hex_char(#[trigger] r@[i]),
{
    blake3::hash(bytes).to_hex().to_string()
}

/// The fingerprint of a text.
pub open spec fn digest(text: Text) -> Text {
    blake3_hex(encode_utf8(text))
}

/// The fingerprint of a schema text: that of its normal form without the semicolons and
/// the white space at its end.
pub open spec fn schema_digest(sql: Text) -> Text {
    digest(hash_form(sql))
}

/// The fingerprint of a schema text.
pub fn hash_schema(schema_sql: &str) -> (r: String)
    ensures
        r@ == schema_digest(schema_sql@),
        r@.len() == 64,
        forall|i: int| 0 <= i < r@.len() ==> is_hex_char(#[trigger] r@[i]),
{
    let form = normalize_for_hash(schema_sql);
    blake3_hex_of(form.as_str().as_bytes())
}

/// One row of the catalogue of a database: the kind of an object, its name and its
/// statement.
#[derive(Debug)]
pub struct CatalogRow {
    pub kind: String,
    pub name: String,
    pub sql: Option<String>,
}

#[verifier::ext_equal]
pub struct CatalogRowModel {
    pub kind: Text,
    pub name: Text,
    pub sql: Option<Text>,
}

impl DeepView for CatalogRow {
    type V = CatalogRowModel;

    open spec fn deep_view(&self) -> CatalogRowModel {
        CatalogRowModel { kind: self.kind@, name: self.name@, sql: self.sql.deep_view() }
    }
}

pub open spec fn row_text() -> spec_fn(CatalogRowModel) -> Text {
    |r: CatalogRowModel|
        r.kind + r.name + match r.sql {
            Some(s) => hash_form(s),
            None => Seq::empty(),
        }
}

/// The text that stands for a catalogue: each kind, name and statement in normal form,
/// one after the other.
pub open spec fn catalog_text(rows: Seq<CatalogRowModel>) -> Text {
    gather(rows, row_text())
}

/// The fingerprint of a catalogue.
pub fn fingerprint_rows(rows: &Vec<CatalogRow>) -> (r: String)
    ensures
        r@ == digest(catalog_text(rows.deep_view())),
        r@.len() == 64,
{
    let ghost all = rows.deep_view();
    let ghost f = row_text();
    let mut text = String::new();
    let mut i: usize = 0;
    assert(all.take(0) =~= Seq::empty());
    assert(text@ =~= gather(all.take(0), f));
    while i < rows.len()
        invariant
            i <= rows.len(),
            all == rows.deep_view(),
            f == row_text(),
            text@ == gather(all.take(i as int), f),
        decreases rows.len() - i,
    {
        let ghost before = text@;
        proof {
            lemma_gather_step(all, i as int, f);
        }
        assert(all[i as int] == rows@[i as int].deep_view());
        text.append(rows[i].kind.as_str());
        text.append(rows[i].name.as_str());
        match &rows[i].sql {
            Some(s) => {
                let form = normalize_for_hash(s.as_str());
                text.append(form.as_str());
            },
            None => {},
        }
        assert(text@ =~= before + f(all[i as int]));
        i += 1;
    }
    assert(all.take(i as int) =~= all);
    blake3_hex_of(text.as_str().as_bytes())
}

/// Schema texts with the same normal form have the same fingerprint.
pub proof fn lemma_same_form_same_digest(t: Text, u: Text)
    requires
        normal(t) == normal(u),
    ensures
        schema_digest(t) == schema_digest(u),
{
}

/// A line comment in front of a schema text does not change its fingerprint.
pub proof fn lemma_digest_ignores_line_comment(body: Text, t: Text)
    requires
        !body.contains('\n'),
    ensures
        schema_digest(seq!['-', '-'] + body + seq!['\n'] + t) == schema_digest(t),
{
    lemma_normal_leading_line_comment(body, t);
}

/// A closed block comment in front of a schema text does not change its fingerprint.
pub proof fn lemma_digest_ignores_block_comment(body: Text, t: Text)
    requires
        block_closed(body, 1),
    ensures
        schema_digest(seq!['/', '*'] + body + t) == schema_digest(t),
{
    lemma_normal_leading_block_comment(body, t);
}

/// White space in front of a schema text does not change its fingerprint.
pub proof fn lemma_digest_ignores_space(c: char, t: Text)
    requires
        is_ascii_space(c),
    ensures
        schema_digest(seq![c] + t) == schema_digest(t),
{
    lemma_normal_leading_space(c, t);
}

/// A line comment before a schema text and one behind it do not change its fingerprint.
/// A text that leaves block comments open is ruled out only where the last line closes
/// them and goes on with more than semicolons and white space.
pub proof fn lemma_digest_ignores_surroundings(x: Text, t: Text, y: Text)
    requires
        !x.contains('\n'),
        !y.contains('\n'),
        quotes_closed(t),
        open_blocks(t) > 0 ==> only_endings(
            squeezed(behind_blocks(t, seq!['\n', '-', '-', ' '] + y), true),
        ),
    ensures
        schema_digest(seq!['-', '-', ' '] + x + seq!['\n'] + t + (seq!['\n', '-', '-', ' '] + y))
            == schema_digest(t),
{
    lemma_hash_form_ignores_surroundings(x, t, y);
}

/// Blank lines before a schema text and behind it do not change its fingerprint.
pub proof fn lemma_digest_ignores_blank_lines(t: Text)
    requires
        quotes_closed(t),
    ensures
        schema_digest(seq!['\n', '\n'] + t + seq!['\n']) == schema_digest(t),
{
    lemma_hash_form_ignores_blank_lines(t);
}

} // verus!
