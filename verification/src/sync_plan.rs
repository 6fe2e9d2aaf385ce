//! What a sync stores: accounts, snapshots, categories, transactions and their audit
//! trail, planned as one.

use crate::audit::{
    account_logged, account_written, all_log, says, sync_audit, sync_trail, transaction_logged,
    transaction_written, AuditEntry, RebindEvent,
};
use crate::date::Date;
use crate::metadata::Json;
use crate::records::{opt_text, AccountRecord, TransactionRecord};
use crate::summary::{
    billing_kept, can_keep_billing, is_snapshot, keep_billing, snapshot_of, AccountSnapshotRecord,
};
use crate::sync::{
    build_category_records_from_transactions, dedup_pluggy_duplicates, kept_rows, known_before,
    records_categories, skipped_rows, CategoryRecord,
};
use vstd::prelude::*;

verus! {

/// What the feed brings: the accounts, and the transactions since the start of the sync.
pub struct SyncFeed {
    pub accounts: Vec<AccountRecord>,
    /// For each account, its balance as text where the feed gives it as a number.
    pub numbers: Vec<Option<String>>,
    pub transactions: Vec<TransactionRecord>,
    pub rebinds: Vec<RebindEvent>,
}

/// What a sync stores.
pub struct SyncPlan {
    pub accounts: Vec<AccountRecord>,
    pub snapshots: Vec<AccountSnapshotRecord>,
    pub categories: Vec<CategoryRecord>,
    pub transactions: Vec<TransactionRecord>,
    pub audit: Vec<AuditEntry>,
}

/// Whether the plan stores what the feed brings: each account with the billing keys of
/// its stored record and one snapshot of today, the categories that any transaction of
/// the feed names, and the transactions that repeat none; with an audit entry for
/// exactly these, each with its record, and for what was left out or rebound.
pub open spec fn stores(
    plan: SyncPlan,
    feed: SyncFeed,
    known_accounts: Seq<AccountRecord>,
    known: Seq<TransactionRecord>,
    today: Date,
    actor: Seq<char>,
) -> bool {
    &&& plan.accounts@.len() == feed.accounts@.len()
    &&& forall|i: int|
        0 <= i < plan.accounts@.len() ==> billing_kept(
            feed.accounts@[i],
            #[trigger] plan.accounts@[i],
            known_accounts,
        )
    &&& plan.snapshots@.len() == plan.accounts@.len()
    &&& forall|i: int|
        0 <= i < plan.snapshots@.len() ==> is_snapshot(
            #[trigger] plan.snapshots@[i],
            plan.accounts@[i],
            today,
            actor,
            opt_text(feed.numbers@[i]),
        )
    &&& records_categories(plan.categories@, feed.transactions@, actor)
    &&& plan.transactions@ == kept_rows(known_before(known), feed.transactions@)
    &&& all_log(
        plan.audit@,
        sync_trail(
            skipped_rows(known_before(known), feed.transactions@),
            feed.rebinds@,
            plan.accounts@,
            plan.transactions@,
        ),
    )
}

/// Gives each account the billing keys of its stored record.
fn keep_all(accounts: Vec<AccountRecord>, known: &Vec<AccountRecord>) -> (r: Vec<AccountRecord>)
    requires
        forall|i: int|
            0 <= i < accounts@.len() ==> can_keep_billing(#[trigger] accounts@[i], known@),
    ensures
        r@.len() == accounts@.len(),
        forall|i: int|
            0 <= i < r@.len() ==> billing_kept(accounts@[i], #[trigger] r@[i], known@),
{
    let ghost all = accounts@;
    let n: usize = accounts.len();
    let mut rest = accounts;
    let mut out: Vec<AccountRecord> = Vec::new();
    let mut i: usize = 0;
    while i < n
        invariant
            i <= n,
            n == all.len(),
            rest@ == all.skip(i as int),
            out@.len() == i,
            forall|k: int|
                0 <= k < all.len() ==> can_keep_billing(#[trigger] all[k], known@),
            forall|k: int| 0 <= k < i ==> billing_kept(all[k], #[trigger] out@[k], known@),
        decreases n - i,
    {
        let mut account = rest.remove(0);
        assert(account == all[i as int]);
        assert(rest@ =~= all.skip(i + 1));
        keep_billing(&mut account, known);
        out.push(account);
        i = i + 1;
    }
    out
}

/// One snapshot for each account.
fn snapshots_of(
    accounts: &Vec<AccountRecord>,
    numbers: &Vec<Option<String>>,
    today: &Date,
    actor_id: &str,
) -> (r: Vec<AccountSnapshotRecord>)
    requires
        numbers@.len() == accounts@.len(),
    ensures
        r@.len() == accounts@.len(),
        forall|i: int|
            0 <= i < r@.len() ==> is_snapshot(
                #[trigger] r@[i],
                accounts@[i],
                *today,
                actor_id@,
                opt_text(numbers@[i]),
            ),
{
    let mut out: Vec<AccountSnapshotRecord> = Vec::new();
    let mut i: usize = 0;
    while i < accounts.len()
        invariant
            i <= accounts.len(),
            numbers@.len() == accounts@.len(),
            out@.len() == i,
            forall|k: int|
                0 <= k < i ==> is_snapshot(
                    #[trigger] out@[k],
                    accounts@[k],
                    *today,
                    actor_id@,
                    opt_text(numbers@[k]),
                ),
        decreases accounts.len() - i,
    {
        let number: Option<&str> = match &numbers[i] {
            Some(t) => Some(t.as_str()),
            None => None,
        };
        out.push(snapshot_of(&accounts[i], today, actor_id, number));
        i = i + 1;
    }
    out
}

/// Plans what a sync stores. `known_accounts` and `known` are what is stored already.
pub fn plan_sync(
    feed: SyncFeed,
    known_accounts: &Vec<AccountRecord>,
    known: &Vec<TransactionRecord>,
    today: &Date,
    actor_id: &str,
) -> (r: SyncPlan)
    requires
        feed.numbers@.len() == feed.accounts@.len(),
        forall|i: int|
            0 <= i < feed.accounts@.len() ==> can_keep_billing(
                #[trigger] feed.accounts@[i],
                known_accounts@,
            ),
    ensures
        stores(r, feed, known_accounts@, known@, *today, actor_id@),
{
    let accounts = keep_all(feed.accounts, known_accounts);
    let snapshots = snapshots_of(&accounts, &feed.numbers, today, actor_id);
    let categories = build_category_records_from_transactions(actor_id, &feed.transactions);
    let (transactions, skipped) = dedup_pluggy_duplicates(known, feed.transactions);
    let audit = sync_audit(&skipped, &feed.rebinds, &accounts, &transactions);
    SyncPlan { accounts, snapshots, categories, transactions, audit }
}

/// What the last entry about that entity says.
pub open spec fn last_about(
    entries: Seq<AuditEntry>,
    entity_type: Seq<char>,
    id: Seq<char>,
) -> Option<Json>
    decreases entries.len(),
{
    if entries.len() == 0 {
        None
    } else if entries.last().entity_type@ == entity_type && entries.last().entity_id@ == id {
        Some(entries.last().payload)
    } else {
        last_about(entries.drop_last(), entity_type, id)
    }
}

proof fn lemma_last_about(
    entries: Seq<AuditEntry>,
    entity_type: Seq<char>,
    id: Seq<char>,
    at: int,
)
    requires
        0 <= at < entries.len(),
        entries[at].entity_type@ == entity_type,
        entries[at].entity_id@ == id,
        forall|i: int|
            at < i < entries.len() ==> !((#[trigger] entries[i]).entity_type@ == entity_type
                && entries[i].entity_id@ == id),
    ensures
        last_about(entries, entity_type, id) == Some(entries[at].payload),
    decreases entries.len(),
{
    if at < entries.len() - 1 {
        lemma_last_about(entries.drop_last(), entity_type, id, at);
    }
}

/// A sync can be replayed from its audit trail: what the last entry about a transaction
/// says is the record that was stored under its identifier last.
pub proof fn law_stored_transactions_are_replayed(
    plan: SyncPlan,
    feed: SyncFeed,
    known_accounts: Seq<AccountRecord>,
    known: Seq<TransactionRecord>,
    today: Date,
    actor: Seq<char>,
    i: int,
)
    requires
        stores(plan, feed, known_accounts, known, today, actor),
        0 <= i < plan.transactions@.len(),
        forall|j: int|
            i < j < plan.transactions@.len() ==> (#[trigger] plan.transactions@[j]).transaction_id@
                != plan.transactions@[i].transaction_id@,
    ensures
        ({
            let row = plan.transactions@[i];
            let last = last_about(plan.audit@, "transaction"@, row.transaction_id@);
            last is Some && says(last->0, transaction_written(row))
        }),
{
    let skipped = skipped_rows(known_before(known), feed.transactions@);
    let trail = sync_trail(skipped, feed.rebinds@, plan.accounts@, plan.transactions@);
    let base = skipped.len() + feed.rebinds@.len() + plan.accounts@.len();
    assert forall|j: int| 0 <= j < plan.transactions@.len() implies #[trigger] trail[base + j]
        == transaction_logged(plan.transactions@[j], "sync_pluggy"@) by {}
    assert(trail[base + i] == transaction_logged(plan.transactions@[i], "sync_pluggy"@));
    assert(plan.audit@[base + i].logs(trail[base + i]));
    let id = plan.transactions@[i].transaction_id@;
    assert forall|k: int| base + i < k < plan.audit@.len() implies !((
    #[trigger] plan.audit@[k]).entity_type@ == "transaction"@ && plan.audit@[k].entity_id@ == id) by {
        assert(plan.audit@[k].logs(trail[base + (k - base)]));
    }
    lemma_last_about(plan.audit@, "transaction"@, id, base + i);
}

/// What the last entry about an account says is the record that was stored under its
/// identifier last.
pub proof fn law_stored_accounts_are_replayed(
    plan: SyncPlan,
    feed: SyncFeed,
    known_accounts: Seq<AccountRecord>,
    known: Seq<TransactionRecord>,
    today: Date,
    actor: Seq<char>,
    i: int,
)
    requires
        stores(plan, feed, known_accounts, known, today, actor),
        0 <= i < plan.accounts@.len(),
        forall|j: int|
            i < j < plan.accounts@.len() ==> (#[trigger] plan.accounts@[j]).account_id@
                != plan.accounts@[i].account_id@,
    ensures
        ({
            let row = plan.accounts@[i];
            let last = last_about(plan.audit@, "account"@, row.account_id@);
            last is Some && says(last->0, account_written(row))
        }),
{
    reveal_strlit("account");
    reveal_strlit("transaction");
    let skipped = skipped_rows(known_before(known), feed.transactions@);
    let trail = sync_trail(skipped, feed.rebinds@, plan.accounts@, plan.transactions@);
    let base = skipped.len() + feed.rebinds@.len();
    let end = base + plan.accounts@.len();
    assert forall|j: int| 0 <= j < plan.accounts@.len() implies #[trigger] trail[base + j]
        == account_logged(plan.accounts@[j], "sync_pluggy"@) by {}
    assert forall|j: int| 0 <= j < plan.transactions@.len() implies #[trigger] trail[end + j]
        == transaction_logged(plan.transactions@[j], "sync_pluggy"@) by {}
    assert(trail[base + i] == account_logged(plan.accounts@[i], "sync_pluggy"@));
    assert(plan.audit@[base + i].logs(trail[base + i]));
    let id = plan.accounts@[i].account_id@;
    assert forall|k: int| base + i < k < plan.audit@.len() implies !((
    #[trigger] plan.audit@[k]).entity_type@ == "account"@ && plan.audit@[k].entity_id@ == id) by {
        if k < end {
            assert(plan.audit@[k].logs(trail[base + (k - base)]));
        } else {
            assert(plan.audit@[k].logs(trail[end + (k - end)]));
            assert("transaction"@.len() != "account"@.len());
        }
    }
    lemma_last_about(plan.audit@, "account"@, id, base + i);
}

} // verus!
