//! How a convergence is let in: what it finds of an earlier one, and how it takes the
//! lease.

use vstd::prelude::*;

#[allow(unused_imports)]
use crate::entry::{
    ask_lease, busy, entry_completed, entry_pending, entry_start, EntryStageModel, PassModel,
    SetupModel,
};
#[allow(unused_imports)]
use crate::error::ErrorModel;
#[allow(unused_imports)]
use crate::format::{decimal, signed_decimal};
#[allow(unused_imports)]
use crate::script::{ActionModel, ReplyModel};
#[allow(unused_imports)]
use crate::text::Text;
#[allow(unused_imports)]
use crate::text_laws::{is_white, lemma_white_trimmed};

verus! {

// ---------------------------------------------------------------------------
// Before anything is written
// ---------------------------------------------------------------------------

/// A convergence first asks whether the connection refuses writes. Where it does, it ends;
/// where it does not, the state table is made.
pub proof fn lemma_read_only_comes_first(setup: SetupModel, n: Option<i64>, now: u64)
    ensures
        entry_start() matches PassModel::Ask(g) && g.script.request() == ActionModel::QueryOnly,
        ({
            let next = entry_completed(
                setup,
                EntryStageModel::ReadOnly,
                seq![ReplyModel::Number(n)],
                now,
            );
            if n is Some && n->0 != 0 {
                next == PassModel::Refused(ErrorModel::ReadOnly)
            } else {
                next matches PassModel::Ask(g) && g.script.request() == ActionModel::Execute(
                    "CREATE TABLE IF NOT EXISTS _schema_meta (key TEXT PRIMARY KEY, value TEXT NOT NULL)"@,
                )
            }
        }),
{
}

// ---------------------------------------------------------------------------
// What an earlier convergence left
// ---------------------------------------------------------------------------

/// Whether the entry takes the convergence for one that follows an interrupted one, where
/// it knows.
pub open spec fn takes_for_recovery(p: PassModel) -> Option<bool> {
    match p {
        PassModel::Ask(g) => match g.stage {
            EntryStageModel::Pending { recovering, .. } => Some(recovering),
            EntryStageModel::Lease { recovering, .. } => Some(recovering),
            EntryStageModel::Taking { recovering, .. } => Some(recovering),
            EntryStageModel::Counter | EntryStageModel::Drift(_) => Some(false),
            _ => None,
        },
        PassModel::Admitted { recovering, .. } => Some(recovering),
        PassModel::Unchanged => Some(false),
        PassModel::Refused(_) => None,
    }
}

/// A convergence follows an interrupted one exactly where the mark of a migration in
/// progress was left at "1".
pub proof fn lemma_interrupted_is_recognised(
    setup: SetupModel,
    hash: Option<Text>,
    mark: Option<Text>,
    now: u64,
)
    ensures
        ({
            let next = entry_completed(
                setup,
                EntryStageModel::Markers,
                seq![ReplyModel::Text(hash), ReplyModel::Text(mark)],
                now,
            );
            takes_for_recovery(next) matches Some(r) ==> r == (mark == Some("1"@))
        }),
{
}

/// What the entry has found of an interrupted one stays up to the migration.
pub proof fn lemma_recovery_is_kept(
    setup: SetupModel,
    stage: EntryStageModel,
    replies: Seq<ReplyModel>,
    now: u64,
    recovering: bool,
)
    requires
        match stage {
            EntryStageModel::Pending { index, unchanged, recovering: r } => r == recovering && (
            unchanged ==> !recovering),
            EntryStageModel::Lease { recovering: r, .. } => r == recovering,
            EntryStageModel::Taking { recovering: r, .. } => r == recovering,
            _ => false,
        },
    ensures
        takes_for_recovery(entry_completed(setup, stage, replies, now)) matches Some(r) ==> r
            == recovering,
{
}

/// A convergence finds its schema unchanged only where the stored fingerprint is that of
/// the schema text and no migration was interrupted.
pub proof fn lemma_unchanged_needs_the_fingerprint(
    setup: SetupModel,
    hash: Option<Text>,
    mark: Option<Text>,
    now: u64,
)
    ensures
        ({
            let next = entry_completed(
                setup,
                EntryStageModel::Markers,
                seq![ReplyModel::Text(hash), ReplyModel::Text(mark)],
                now,
            );
            let same = hash == Some(setup.schema_hash) && mark != Some("1"@);
            match next {
                PassModel::Ask(g) => match g.stage {
                    EntryStageModel::Pending { index, unchanged, .. } => index == 0 && unchanged
                        == same,
                    EntryStageModel::Counter => same,
                    EntryStageModel::Lease { .. } => !same,
                    _ => false,
                },
                PassModel::Refused(e) => e == ErrorModel::Schema(
                    "data migration id must not be empty"@,
                ),
                _ => false,
            }
        }),
{
}

/// A data migration with a blank name is refused before anything is changed.
pub proof fn lemma_blank_name_refused(
    setup: SetupModel,
    index: nat,
    unchanged: bool,
    recovering: bool,
    now: u64,
)
    requires
        index < setup.options.data_migrations.len(),
        is_white(setup.options.data_migrations[index as int].id),
    ensures
        entry_pending(setup, index, unchanged, recovering, now) == PassModel::Refused(
            ErrorModel::Schema("data migration id must not be empty"@),
        ),
{
    lemma_white_trimmed(setup.options.data_migrations[index as int].id);
}

/// The schema of the database has drifted exactly where its counter is not the one that
/// was stored; only then is the lease asked for.
pub proof fn lemma_drift(setup: SetupModel, counter: i64, stored: Option<Text>, now: u64)
    ensures
        ({
            let next = entry_completed(
                setup,
                EntryStageModel::Drift(counter),
                seq![ReplyModel::Text(stored)],
                now,
            );
            if stored == Some(signed_decimal(counter as int)) {
                next == PassModel::Unchanged
            } else {
                next matches PassModel::Ask(g) && g.stage is Lease
            }
        }),
{
}

// ---------------------------------------------------------------------------
// The lease
// ---------------------------------------------------------------------------

/// A free lease is taken in the transaction in which it was found free: the owner, the time
/// at which it runs out and the mark of a migration in progress are written, and the
/// transaction is committed. The migration then runs under the name of that owner.
pub proof fn lemma_lease_is_taken(
    setup: SetupModel,
    owner: Option<Text>,
    until: Option<Text>,
    recovering: bool,
    then: u64,
    first: ReplyModel,
    second: ReplyModel,
    replies: Seq<ReplyModel>,
    now: u64,
)
    requires
        busy(owner, until, then) is None,
        then + 300 <= u64::MAX,
    ensures
        ({
            let me = decimal(setup.process_id as nat) + "_"@ + decimal(then as nat);
            &&& entry_completed(
                setup,
                EntryStageModel::Lease { recovering, now: then },
                seq![first, second, ReplyModel::Text(owner), ReplyModel::Text(until)],
                now,
            ) matches PassModel::Ask(g) && g.script.ops.len() == 4 && g.script.replies.len() == 0
                && g.stage == (EntryStageModel::Taking { recovering, now: then })
                && g.script.ops[0].action == (ActionModel::SetMeta {
                key: "migration_owner"@,
                value: me,
            }) && g.script.ops[1].action == (ActionModel::SetMeta {
                key: "migration_lease_until"@,
                value: decimal((then + 300) as nat),
            }) && g.script.ops[2].action == (ActionModel::SetMeta {
                key: "migration_in_progress"@,
                value: "1"@,
            }) && g.script.ops[3].action == ActionModel::Execute("COMMIT"@)
            &&& entry_completed(
                setup,
                EntryStageModel::Taking { recovering, now: then },
                replies,
                now,
            ) == (PassModel::Admitted { lease: me, recovering })
        }),
{
}

/// A lease that another one holds is not touched: the transaction is rolled back, and the
/// convergence ends with the error that names the holder.
pub proof fn lemma_held_lease_is_left(
    setup: SetupModel,
    owner: Text,
    until: u64,
    recovering: bool,
    then: u64,
    first: ReplyModel,
    second: ReplyModel,
    replies: Seq<ReplyModel>,
    now: u64,
)
    requires
        then < until,
    ensures
        ({
            let e = ErrorModel::MigrationBusy { owner, remaining_secs: (until - then) as u64 };
            &&& entry_completed(
                setup,
                EntryStageModel::Lease { recovering, now: then },
                seq![
                    first,
                    second,
                    ReplyModel::Text(Some(owner)),
                    ReplyModel::Text(Some(decimal(until as nat))),
                ],
                now,
            ) matches PassModel::Ask(g) && g.stage == EntryStageModel::Held(e)
                && g.script.request() == ActionModel::Execute("ROLLBACK"@)
            &&& entry_completed(setup, EntryStageModel::Held(e), replies, now)
                == PassModel::Refused(e)
        }),
{
    crate::policy_laws::lemma_lease_keeps_out(owner, until, then);
}

/// The lease is asked for in a transaction: first the owner, then the time at which it runs
/// out.
pub proof fn lemma_lease_is_asked_for(setup: SetupModel, recovering: bool, now: u64)
    ensures
        ask_lease(setup, recovering, now) matches PassModel::Ask(g) && g.script.ops.len() == 4
            && g.script.ops[1].action == ActionModel::Execute("BEGIN IMMEDIATE"@)
            && g.script.ops[2].action == ActionModel::GetMeta("migration_owner"@)
            && g.script.ops[3].action == ActionModel::GetMeta("migration_lease_until"@),
{
}

/// Once the state table is there, the stored fingerprint and the mark of a migration in
/// progress are read.
pub proof fn lemma_marks_are_read(setup: SetupModel, n: u64, now: u64)
    ensures
        entry_completed(
            setup,
            EntryStageModel::Bootstrap,
            seq![ReplyModel::Done(n)],
            now,
        ) matches PassModel::Ask(g) && g.stage == EntryStageModel::Markers && g.script.ops.len()
            == 2 && g.script.ops[0].action == ActionModel::GetMeta("schema_hash"@)
            && g.script.ops[1].action == ActionModel::GetMeta("migration_in_progress"@),
{
}

} // verus!
