//! What a policy lets through, what a database lacks, and whom a lease keeps out.

use vstd::prelude::*;

#[allow(unused_imports)]
use crate::diff::DiffModel;
#[allow(unused_imports)]
use crate::entry::{blames_read_only, busy, expires, lease_name};
#[allow(unused_imports)]
use crate::error::ErrorModel;
#[allow(unused_imports)]
use crate::format::{decimal, joined, lemma_decimal_round_trip, parsed};
#[allow(unused_imports)]
use crate::normalize::{is_quote, lemma_literal_tail, literal_len, literal_tail, normal};
#[allow(unused_imports)]
use crate::options::{ConvergePolicy, ReportModel};
#[allow(unused_imports)]
use crate::policy::{
    destructive_changes, has_generated, has_vector, is_vector, missing_feature, policy_violation,
    says, unreadable, uses_generated, uses_vector,
};
#[allow(unused_imports)]
use crate::schema::{Capabilities, SnapshotModel};
#[allow(unused_imports)]
use crate::search::{contains, matches_at};
#[allow(unused_imports)]
use crate::statement_laws::{begins, lemma_begins};
#[allow(unused_imports)]
use crate::text::{lower, Text};

verus! {

// ---------------------------------------------------------------------------
// The policy
// ---------------------------------------------------------------------------

/// A policy stands against changes exactly where they drop a table, drop a column or
/// rebuild a table that it does not allow, or touch more tables than it allows.
pub proof fn lemma_policy_refuses(diff: DiffModel, policy: ConvergePolicy)
    ensures
        policy_violation(diff, policy) is Some <==> {
            ||| diff.tables_to_drop.len() > 0 && !policy.allow_table_drops
            ||| diff.columns_to_drop.len() > 0 && !policy.allow_column_drops
            ||| diff.tables_to_rebuild.len() > 0 && !policy.allow_table_rebuilds
            ||| policy.max_tables_affected is Some && diff.tables_to_create.len()
                + diff.tables_to_drop.len() + diff.tables_to_rebuild.len()
                > policy.max_tables_affected->0
        },
        policy_violation(diff, policy) is Some ==> policy_violation(
            diff,
            policy,
        )->0 is PolicyViolation,
{
}

/// What a policy blocks is named: the tables that would be dropped, or else the columns,
/// or else the tables that would be rebuilt, or else the number of tables.
pub proof fn lemma_policy_names_what_it_blocks(diff: DiffModel, policy: ConvergePolicy)
    requires
        policy_violation(diff, policy) is Some,
    ensures
        policy_violation(diff, policy)->0 is PolicyViolation,
        ({
            let blocked = policy_violation(diff, policy)->0->PolicyViolation_blocked_operations;
            let tables = diff.tables_to_drop.len() > 0 && !policy.allow_table_drops;
            let columns = diff.columns_to_drop.len() > 0 && !policy.allow_column_drops;
            let rebuilds = diff.tables_to_rebuild.len() > 0 && !policy.allow_table_rebuilds;
            &&& tables ==> blocked.len() == diff.tables_to_drop.len() && forall|i: int|
                0 <= i < blocked.len() ==> #[trigger] blocked[i] == "DROP TABLE "@
                    + diff.tables_to_drop[i]
            &&& !tables && columns ==> blocked.len() == diff.columns_to_drop.len() && forall|
                i: int,
            |
                0 <= i < blocked.len() ==> #[trigger] blocked[i] == "DROP COLUMN "@
                    + diff.columns_to_drop[i].0 + "."@ + diff.columns_to_drop[i].1
            &&& !tables && !columns && rebuilds ==> blocked.len() == diff.tables_to_rebuild.len()
                && forall|i: int|
                0 <= i < blocked.len() ==> #[trigger] blocked[i] == "REBUILD TABLE "@
                    + diff.tables_to_rebuild[i]
            &&& !tables && !columns && !rebuilds ==> blocked.len() == 1 && blocked[0] == decimal(
                diff.tables_to_create.len() + diff.tables_to_drop.len()
                    + diff.tables_to_rebuild.len(),
            ) + " tables affected"@
        }),
{
}

/// A policy that allows everything and sets no limit lets everything through.
pub proof fn lemma_permissive_policy(diff: DiffModel, policy: ConvergePolicy)
    requires
        policy.allow_table_drops,
        policy.allow_column_drops,
        policy.allow_table_rebuilds,
        policy.max_tables_affected is None,
    ensures
        policy_violation(diff, policy) is None,
{
}

/// The changes that can lose data are the dropped tables, the dropped columns and the
/// rebuilt tables of the difference; there are such changes exactly where one of these
/// lists is not empty; and in words each of them stands for itself, in this order.
pub proof fn lemma_destructive_changes(diff: DiffModel)
    ensures
        ({
            let c = destructive_changes(diff);
            let words = c.operations();
            let t = diff.tables_to_drop.len();
            let n = diff.columns_to_drop.len();
            &&& c.tables_to_drop == diff.tables_to_drop
            &&& c.columns_to_drop == diff.columns_to_drop
            &&& c.tables_to_rebuild == diff.tables_to_rebuild
            &&& c.has_changes() <==> t > 0 || n > 0 || diff.tables_to_rebuild.len() > 0
            &&& words.len() == t + n + diff.tables_to_rebuild.len()
            &&& forall|i: int|
                0 <= i < t ==> #[trigger] words[i] == "DROP TABLE "@ + diff.tables_to_drop[i]
            &&& forall|i: int|
                t <= i < t + n ==> #[trigger] words[i] == "DROP COLUMN "@ + diff.columns_to_drop[i
                    - t].0 + "."@ + diff.columns_to_drop[i - t].1
            &&& forall|i: int|
                t + n <= i < words.len() ==> #[trigger] words[i] == "REBUILD TABLE "@
                    + diff.tables_to_rebuild[i - t - n]
        }),
{
}

/// A report tells of changes exactly where one of its counters is not zero.
pub proof fn lemma_report_had_changes(r: ReportModel)
    ensures
        r.had_changes() <==> {
            ||| r.tables_created > 0
            ||| r.tables_rebuilt > 0
            ||| r.tables_dropped > 0
            ||| r.columns_added > 0
            ||| r.columns_dropped > 0
            ||| r.columns_renamed > 0
            ||| r.indexes_changed > 0
            ||| r.views_changed > 0
            ||| r.data_migrations_applied > 0
        },
{
}

// ---------------------------------------------------------------------------
// Features
// ---------------------------------------------------------------------------

/// Whether a column of a vector type is in the schema: one whose type begins with
/// "vector", whatever the case.
pub open spec fn has_vector_column(s: SnapshotModel) -> bool {
    exists|i: int, j: int|
        0 <= i < s.tables.len() && 0 <= j < (#[trigger] s.tables[i]).1.columns.len() && begins(
            lower((#[trigger] s.tables[i].1.columns[j]).col_type),
            "vector"@,
        )
}

/// Whether a generated column is in the schema.
pub open spec fn has_generated_column(s: SnapshotModel) -> bool {
    exists|i: int, j: int|
        0 <= i < s.tables.len() && 0 <= j < (#[trigger] s.tables[i]).1.columns.len() && (
        #[trigger] s.tables[i].1.columns[j]).is_generated
}

proof fn lemma_columns_used(s: SnapshotModel)
    ensures
        uses_vector(s) == has_vector_column(s),
        uses_generated(s) == has_generated_column(s),
{
    assert forall|i: int, j: int|
        0 <= i < s.tables.len() && 0 <= j < (
        #[trigger] s.tables[i]).1.columns.len() implies is_vector(
        #[trigger] s.tables[i].1.columns[j],
    ) == begins(lower(s.tables[i].1.columns[j].col_type), "vector"@) by {
        lemma_begins(lower(s.tables[i].1.columns[j].col_type), "vector"@);
    }
    if uses_vector(s) {
        let i = choose|i: int| 0 <= i < s.tables.len() && has_vector((#[trigger] s.tables[i]).1);
        let j = choose|j: int|
            0 <= j < s.tables[i].1.columns.len() && is_vector(#[trigger] s.tables[i].1.columns[j]);
        assert(begins(lower(s.tables[i].1.columns[j].col_type), "vector"@));
    }
    if has_vector_column(s) {
        let (i, j) = choose|i: int, j: int|
            0 <= i < s.tables.len() && 0 <= j < (#[trigger] s.tables[i]).1.columns.len() && begins(
                lower((#[trigger] s.tables[i].1.columns[j]).col_type),
                "vector"@,
            );
        assert(is_vector(s.tables[i].1.columns[j]));
        assert(has_vector(s.tables[i].1));
    }
    if uses_generated(s) {
        let i = choose|i: int| 0 <= i < s.tables.len() && has_generated((#[trigger] s.tables[i]).1);
        let j = choose|j: int|
            0 <= j < s.tables[i].1.columns.len() && (#[trigger] s.tables[i].1.columns[j]).is_generated;
        assert(s.tables[i].1.columns[j].is_generated);
    }
    if has_generated_column(s) {
        let (i, j) = choose|i: int, j: int|
            0 <= i < s.tables.len() && 0 <= j < (#[trigger] s.tables[i]).1.columns.len() && (
            #[trigger] s.tables[i].1.columns[j]).is_generated;
        assert(has_generated(s.tables[i].1));
    }
}

/// A schema is refused for a feature exactly where it uses one that the database lacks.
pub proof fn lemma_feature_is_missing(s: SnapshotModel, caps: Capabilities)
    ensures
        missing_feature(s, caps) is Some <==> {
            ||| !caps.has_fts_module && exists|i: int|
                0 <= i < s.indexes.len() && (#[trigger] s.indexes[i]).1.is_fts
            ||| !caps.has_materialized_views && exists|i: int|
                0 <= i < s.views.len() && (#[trigger] s.views[i]).1.is_materialized
            ||| !caps.has_vector_module && has_vector_column(s)
            ||| !caps.supports_without_rowid && exists|i: int|
                0 <= i < s.tables.len() && (#[trigger] s.tables[i]).1.is_without_rowid
            ||| !caps.supports_generated_columns && has_generated_column(s)
            ||| !caps.has_triggers && s.triggers.len() > 0
        },
{
    lemma_columns_used(s);
}

/// A database that can do everything lacks nothing.
pub proof fn lemma_able_database(s: SnapshotModel, sql: Text, caps: Capabilities)
    requires
        caps.has_fts_module,
        caps.has_materialized_views,
        caps.has_vector_module,
        caps.supports_without_rowid,
        caps.supports_generated_columns,
        caps.has_triggers,
    ensures
        missing_feature(s, caps) is None,
        unreadable(sql, caps) is None,
{
}

/// Whether the text is `before`, the phrase, `after`, one behind the other.
pub open spec fn is_around(t: Text, phrase: Text, before: Text, after: Text) -> bool {
    t == before + phrase + after
}

/// Whether the phrase stands in the text.
pub open spec fn stands_in(phrase: Text, t: Text) -> bool {
    exists|a: Text, b: Text| #[trigger] is_around(t, phrase, a, b)
}

/// A text without quotes says a phrase exactly where the phrase stands in it.
pub proof fn lemma_says_plainly(t: Text, phrase: Text)
    requires
        phrase.len() > 0,
        forall|i: int| 0 <= i < t.len() ==> !is_quote(#[trigger] t[i]),
    ensures
        says(t, phrase) <==> stands_in(phrase, t),
{
    lemma_says_found(t, phrase);
    lemma_contains_around(t, phrase);
}

proof fn lemma_says_found(t: Text, phrase: Text)
    requires
        phrase.len() > 0,
        forall|i: int| 0 <= i < t.len() ==> !is_quote(#[trigger] t[i]),
    ensures
        says(t, phrase) <==> contains(t, phrase),
    decreases t.len(),
{
    if t.len() > 0 {
        let rest = t.skip(1);
        assert forall|i: int| 0 <= i < rest.len() implies !is_quote(#[trigger] rest[i]) by {
            assert(rest[i] == t[i + 1]);
        }
        lemma_says_found(rest, phrase);
        assert(!is_quote(t[0]));
        if contains(rest, phrase) {
            let k = choose|k: int| #[trigger] matches_at(rest, phrase, k);
            assert(t.subrange(k + 1, k + 1 + phrase.len()) =~= rest.subrange(k, k + phrase.len()));
            assert(matches_at(t, phrase, k + 1));
        }
        if contains(t, phrase) {
            let k = choose|k: int| #[trigger] matches_at(t, phrase, k);
            if k > 0 {
                assert(t.subrange(k, k + phrase.len()) =~= rest.subrange(
                    k - 1,
                    k - 1 + phrase.len(),
                ));
                assert(matches_at(rest, phrase, k - 1));
            }
        }
    }
}

/// What a literal holds is not said: a literal without its quote inside it is passed over.
pub proof fn lemma_literal_says_nothing(q: char, inside: Text, rest: Text, phrase: Text)
    requires
        is_quote(q),
        forall|i: int| 0 <= i < inside.len() ==> #[trigger] inside[i] != q,
        rest.len() > 0 ==> rest[0] != q,
    ensures
        says(seq![q] + inside + seq![q] + rest, phrase) == says(rest, phrase),
{
    let t = seq![q] + inside + seq![q] + rest;
    let tail = inside + seq![q] + rest;
    assert(t.skip(1) =~= tail);
    lemma_literal_ends(q, inside, rest);
    assert(t.skip(literal_len(t) as int) =~= rest);
    lemma_literal_tail(t.skip(1), t[0]);
}

/// A literal without its quote inside it ends at the next quote.
pub proof fn lemma_literal_ends(q: char, inside: Text, rest: Text)
    requires
        forall|i: int| 0 <= i < inside.len() ==> #[trigger] inside[i] != q,
        rest.len() > 0 ==> rest[0] != q,
    ensures
        literal_tail(inside + seq![q] + rest, q) == inside.len() + 1,
    decreases inside.len(),
{
    let t = inside + seq![q] + rest;
    if inside.len() > 0 {
        assert(t[0] == inside[0]);
        assert(t.skip(1) =~= inside.skip(1) + seq![q] + rest);
        assert forall|i: int| 0 <= i < inside.skip(1).len() implies #[trigger] inside.skip(1)[i]
            != q by {
            assert(inside.skip(1)[i] == inside[i + 1]);
        }
        lemma_literal_ends(q, inside.skip(1), rest);
    } else {
        assert(t[0] == q);
        if t.len() > 1 {
            assert(t[1] == rest[0]);
        }
    }
}

/// A text of a schema is refused for a feature exactly where it says that it uses one and
/// the database lacks it.
pub proof fn lemma_unreadable(sql: Text, caps: Capabilities)
    ensures
        unreadable(sql, caps) is Some <==> {
            ||| says(normal(sql), "without rowid"@) && !caps.supports_without_rowid
            ||| says(normal(sql), "generated always"@) && !caps.supports_generated_columns
        },
{
}

// ---------------------------------------------------------------------------
// The lease
// ---------------------------------------------------------------------------

/// A lease keeps others out exactly as long as the time up to which it was written down
/// is still to come; they are told who holds it and for how many seconds.
pub proof fn lemma_lease_keeps_out(owner: Text, until: u64, now: u64)
    ensures
        now < until ==> busy(Some(owner), Some(decimal(until as nat)), now) == Some(
            ErrorModel::MigrationBusy { owner, remaining_secs: (until - now) as u64 },
        ),
        now >= until ==> busy(Some(owner), Some(decimal(until as nat)), now) is None,
{
    lemma_decimal_round_trip(until as nat, u64::MAX as nat);
}

/// A lease that is taken at a time keeps others out for five minutes, and not longer.
pub proof fn lemma_lease_lasts(owner: Text, taken: u64, now: u64)
    requires
        taken + 300 <= u64::MAX,
    ensures
        busy(Some(owner), Some(decimal(expires(taken) as nat)), now) is Some <==> now < taken + 300,
{
    lemma_lease_keeps_out(owner, (taken + 300) as u64, now);
}

/// Without an owner, without a time or with one that cannot be read, nobody is kept out.
pub proof fn lemma_no_lease(owner: Option<Text>, until: Option<Text>, now: u64)
    requires
        owner is None || until is None || parsed(until->0, u64::MAX as nat) is None,
    ensures
        busy(owner, until, now) is None,
{
}

/// Leases that are taken by different processes or at different times have different
/// names.
pub proof fn lemma_lease_names_differ(p: u32, a: u64, q: u32, b: u64)
    requires
        lease_name(p, a) == lease_name(q, b),
    ensures
        p == q,
        a == b,
{
    let dp = decimal(p as nat);
    let dq = decimal(q as nat);
    let da = decimal(a as nat);
    let db = decimal(b as nat);
    crate::format::lemma_decimal_digits(p as nat);
    crate::format::lemma_decimal_digits(q as nat);
    crate::format::lemma_decimal_digits(a as nat);
    crate::format::lemma_decimal_digits(b as nat);
    reveal_strlit("_");
    let x = lease_name(p, a);
    let y = lease_name(q, b);
    assert(x[dp.len() as int] == '_');
    assert(y[dq.len() as int] == '_');
    if dp.len() < dq.len() {
        assert(y[dp.len() as int] == dq[dp.len() as int]);
        assert(crate::text::is_digit_char(dq[dp.len() as int]));
    }
    if dq.len() < dp.len() {
        assert(x[dq.len() as int] == dp[dq.len() as int]);
        assert(crate::text::is_digit_char(dp[dq.len() as int]));
    }
    assert(x.take(dp.len() as int) =~= dp);
    assert(y.take(dq.len() as int) =~= dq);
    assert(x.skip(dp.len() as int + 1) =~= da);
    assert(y.skip(dq.len() as int + 1) =~= db);
}

/// An error is taken for a refusal to write exactly where its message has "readonly" or
/// "read-only" in it, whatever the case.
pub proof fn lemma_read_only_error(e: ErrorModel)
    ensures
        blames_read_only(e) <==> stands_in("readonly"@, lower(e.message())) || stands_in(
            "read-only"@,
            lower(e.message()),
        ),
{
    lemma_contains_around(lower(e.message()), "readonly"@);
    lemma_contains_around(lower(e.message()), "read-only"@);
}

/// `contains` tells whether a text stands in another one.
pub proof fn lemma_contains_around(t: Text, p: Text)
    ensures
        contains(t, p) <==> stands_in(p, t),
{
    if contains(t, p) {
        let k = choose|k: int| #[trigger] matches_at(t, p, k);
        let a = t.take(k);
        let b = t.skip(k + p.len());
        assert(t =~= a + t.subrange(k, k + p.len()) + b);
        assert(is_around(t, p, a, b));
    }
    if stands_in(p, t) {
        let (a, b) = choose|a: Text, b: Text| #[trigger] is_around(t, p, a, b);
        assert(t.subrange(a.len() as int, (a.len() + p.len()) as int) =~= p);
        assert(matches_at(t, p, a.len() as int));
    }
}

// ---------------------------------------------------------------------------
// Words
// ---------------------------------------------------------------------------

/// What a policy says of the changes that it refuses.
pub proof fn lemma_policy_says_why(diff: DiffModel, policy: ConvergePolicy)
    requires
        policy_violation(diff, policy) is Some,
    ensures
        policy_violation(diff, policy)->0 is PolicyViolation,
        ({
            let message = policy_violation(diff, policy)->0->PolicyViolation_message;
            let tables = diff.tables_to_drop.len() > 0 && !policy.allow_table_drops;
            let columns = diff.columns_to_drop.len() > 0 && !policy.allow_column_drops;
            let rebuilds = diff.tables_to_rebuild.len() > 0 && !policy.allow_table_rebuilds;
            let touched = diff.tables_to_create.len() + diff.tables_to_drop.len()
                + diff.tables_to_rebuild.len();
            &&& tables ==> message == "Would drop "@ + decimal(diff.tables_to_drop.len())
                + " table(s): "@ + joined(diff.tables_to_drop, ", "@)
                + ". Set allow_table_drops=true to permit."@
            &&& !tables && columns ==> message == "Would drop "@ + decimal(
                diff.columns_to_drop.len(),
            ) + " column(s). Set allow_column_drops=true to permit."@
            &&& !tables && !columns && rebuilds ==> message == "Would rebuild "@ + decimal(
                diff.tables_to_rebuild.len(),
            ) + " table(s). Set allow_table_rebuilds=true to permit."@
            &&& !tables && !columns && !rebuilds ==> message == "Would affect "@ + decimal(touched)
                + " table(s), exceeding max_tables_affected="@ + decimal(
                policy.max_tables_affected->0 as nat,
            ) + "."@
        }),
{
}

/// What is said of a feature that is missing: the full-text module is looked at first, then
/// materialized views, vectors, tables without row ids, generated columns and triggers.
pub proof fn lemma_missing_feature_is_named(s: SnapshotModel, caps: Capabilities)
    ensures
        ({
            let m = missing_feature(s, caps);
            let fts = !caps.has_fts_module && exists|i: int|
                0 <= i < s.indexes.len() && (#[trigger] s.indexes[i]).1.is_fts;
            let views = !caps.has_materialized_views && exists|i: int|
                0 <= i < s.views.len() && (#[trigger] s.views[i]).1.is_materialized;
            let vectors = !caps.has_vector_module && has_vector_column(s);
            let rowids = !caps.supports_without_rowid && exists|i: int|
                0 <= i < s.tables.len() && (#[trigger] s.tables[i]).1.is_without_rowid;
            let generated = !caps.supports_generated_columns && has_generated_column(s);
            let triggers = !caps.has_triggers && s.triggers.len() > 0;
            &&& fts ==> m == Some(
                "Schema uses FTS indexes but the target connection lacks the FTS module. Ensure .experimental_index_method(true) is set on your turso::Builder."@,
            )
            &&& !fts && views ==> m == Some(
                "Schema uses materialized views but the target connection doesn't support them. Ensure .experimental_materialized_views(true) is set on your turso::Builder."@,
            )
            &&& !fts && !views && vectors ==> m == Some(
                "Schema uses vector columns but the target connection lacks the vector module."@,
            )
            &&& !fts && !views && !vectors && rowids ==> m == Some(
                "Schema uses WITHOUT ROWID tables but the target connection doesn't support them."@,
            )
            &&& !fts && !views && !vectors && !rowids && generated ==> m == Some(
                "Schema uses GENERATED columns but the target connection doesn't support them."@,
            )
            &&& !fts && !views && !vectors && !rowids && !generated && triggers ==> m == Some(
                "Schema uses triggers but the target connection doesn't support them. Ensure .experimental_triggers(true) is set on your turso::Builder."@,
            )
        }),
{
    lemma_columns_used(s);
}

/// What is said of a text that names what the database lacks: tables without row ids first,
/// then generated columns.
pub proof fn lemma_unreadable_is_named(sql: Text, caps: Capabilities)
    ensures
        says(normal(sql), "without rowid"@) && !caps.supports_without_rowid ==> unreadable(
            sql,
            caps,
        ) == Some(
            "Schema uses WITHOUT ROWID tables but the target connection doesn't support them."@,
        ),
        (!says(normal(sql), "without rowid"@) || caps.supports_without_rowid) && says(
            normal(sql),
            "generated always"@,
        ) && !caps.supports_generated_columns ==> unreadable(sql, caps) == Some(
            "Schema uses GENERATED columns but the target connection doesn't support them."@,
        ),
{
}

} // verus!
