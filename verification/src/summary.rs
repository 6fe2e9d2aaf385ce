//! What a sync reports: new transactions, what still needs context, and balances.

use crate::amount::{limit, parse_amount, parsed_decimal, sum_of, Amount};
use crate::date::{iso, iso_text, Date};
use crate::metadata::{
    alike, get, is_carried, member, merge_billing_metadata, takes_billing, Json,
};
use crate::money::{decimal_text, plain_text};
use crate::order::{as_ints, where_at};
use crate::records::{
    opt_clone, opt_text, AccountRecord, TransactionRecord,
};
use crate::sums::{full_weight, total_of_all};
use crate::text::{
    chars, from_chars, glue, is_blank, join, joined, lines, lines_of, put, same, texts, trim,
    trimmed,
};
use vstd::prelude::*;

verus! {

/// How many transactions that need context are listed.
pub const NEEDS_CONTEXT_LIMIT: usize = 100;

// ---------------------------------------------------------------------------
// Small texts

/// The English name of a weekday, counted from Monday, in small letters.
pub open spec fn weekday_name(n: int) -> Seq<char> {
    if n == 0 {
        "monday"@
    } else if n == 1 {
        "tuesday"@
    } else if n == 2 {
        "wednesday"@
    } else if n == 3 {
        "thursday"@
    } else if n == 4 {
        "friday"@
    } else if n == 5 {
        "saturday"@
    } else {
        "sunday"@
    }
}

/// The weekday of a date.
pub open spec fn weekday_of(d: Date) -> Seq<char> {
    weekday_name((d.number() - 1) % 7)
}

/// The weekday of a date, in small letters.
pub fn day_of_week_text(date: &Date) -> (r: String)
    ensures
        r@ == weekday_of(*date),
{
    let n = date.weekday();
    if n == 0 {
        "monday".to_string()
    } else if n == 1 {
        "tuesday".to_string()
    } else if n == 2 {
        "wednesday".to_string()
    } else if n == 3 {
        "thursday".to_string()
    } else if n == 4 {
        "friday".to_string()
    } else if n == 5 {
        "saturday".to_string()
    } else {
        "sunday".to_string()
    }
}

/// The lines of a text without their margins, and without blank ones.
pub open spec fn full_lines(all: Seq<Seq<char>>) -> Seq<Seq<char>>
    decreases all.len(),
{
    if all.len() == 0 {
        Seq::empty()
    } else if trimmed(all.last()).len() == 0 {
        full_lines(all.drop_last())
    } else {
        full_lines(all.drop_last()).push(trimmed(all.last()))
    }
}

/// An error on one line.
pub fn compact_error_message(message: &str) -> (r: String)
    ensures
        r@ == joined(full_lines(lines_of(message@)), " | "@),
{
    let all = lines(message);
    let mut kept: Vec<String> = Vec::new();
    let mut i: usize = 0;
    assert(texts(all@).take(0) =~= Seq::<Seq<char>>::empty());
    assert(texts(kept@) =~= Seq::<Seq<char>>::empty());
    while i < all.len()
        invariant
            i <= all.len(),
            texts(kept@) == full_lines(texts(all@).take(i as int)),
        decreases all.len() - i,
    {
        let ghost before = texts(kept@);
        assert(texts(all@).take(i + 1).drop_last() =~= texts(all@).take(i as int));
        assert(texts(all@)[i as int] == all@[i as int]@);
        if !is_blank(all[i].as_str()) {
            let t = trim(all[i].as_str());
            kept.push(t);
            assert(texts(kept@) =~= before.push(trimmed(all@[i as int]@)));
        }
        i = i + 1;
    }
    assert(texts(all@).take(i as int) =~= texts(all@));
    join(&kept, " | ")
}

// ---------------------------------------------------------------------------
// New transactions

/// Whether a transaction waits for a category.
pub open spec fn needs_context(row: TransactionRecord) -> bool {
    row.category_id is None || row.category_source@ == "unclassified"@ || row.category_source@
        == "fallback"@
}

/// Whether a transaction waits for a category.
pub fn transaction_needs_context(row: &TransactionRecord) -> (r: bool)
    ensures
        r == needs_context(*row),
{
    row.category_id.is_none() || same(row.category_source.as_str(), "unclassified") || same(
        row.category_source.as_str(),
        "fallback",
    )
}

pub(crate) fn holds(list: &Vec<String>, s: &str) -> (r: bool)
    ensures
        r == texts(list@).contains(s@),
{
    let mut i: usize = 0;
    while i < list.len()
        invariant
            i <= list.len(),
            forall|j: int| 0 <= j < i ==> #[trigger] texts(list@)[j] != s@,
        decreases list.len() - i,
    {
        assert(texts(list@)[i as int] == list@[i as int]@);
        if same(list[i].as_str(), s) {
            return true;
        }
        i = i + 1;
    }
    false
}

/// Whether the row at a position was not stored before the sync.
pub open spec fn is_new(
    rows: Seq<TransactionRecord>,
    existing: Seq<Seq<char>>,
) -> spec_fn(int) -> bool {
    |i: int| !existing.contains(rows[i].transaction_id@)
}

/// The positions of the rows that were not stored before the sync.
pub open spec fn new_rows(rows: Seq<TransactionRecord>, existing: Seq<Seq<char>>) -> Seq<int> {
    where_at(rows.len() as int, is_new(rows, existing))
}

/// Whether the row at a position is new and waits for a category.
pub open spec fn is_pending(
    rows: Seq<TransactionRecord>,
    existing: Seq<Seq<char>>,
) -> spec_fn(int) -> bool {
    |i: int| !existing.contains(rows[i].transaction_id@) && needs_context(rows[i])
}

pub open spec fn pending_rows(rows: Seq<TransactionRecord>, existing: Seq<Seq<char>>) -> Seq<int> {
    where_at(rows.len() as int, is_pending(rows, existing))
}

/// The positions of the rows that were not stored before the sync.
pub fn find_new_rows(rows: &Vec<TransactionRecord>, existing_ids: &Vec<String>) -> (r: Vec<usize>)
    ensures
        as_ints(r@) == new_rows(rows@, texts(existing_ids@)),
{
    let ghost f = is_new(rows@, texts(existing_ids@));
    let mut out: Vec<usize> = Vec::new();
    let mut i: usize = 0;
    assert(as_ints(out@) =~= where_at(0, f));
    while i < rows.len()
        invariant
            i <= rows.len(),
            f == is_new(rows@, texts(existing_ids@)),
            as_ints(out@) == where_at(i as int, f),
        decreases rows.len() - i,
    {
        let ghost now = as_ints(out@);
        if !holds(existing_ids, rows[i].transaction_id.as_str()) {
            out.push(i);
            assert(as_ints(out@) =~= now.push(i as int));
        }
        i = i + 1;
    }
    out
}

fn find_pending_rows(
    rows: &Vec<TransactionRecord>,
    existing_ids: &Vec<String>,
) -> (r: Vec<usize>)
    ensures
        as_ints(r@) == pending_rows(rows@, texts(existing_ids@)),
        forall|k: int| 0 <= k < r@.len() ==> (#[trigger] r@[k]) < rows@.len(),
{
    let ghost f = is_pending(rows@, texts(existing_ids@));
    let mut out: Vec<usize> = Vec::new();
    let mut i: usize = 0;
    assert(as_ints(out@) =~= where_at(0, f));
    while i < rows.len()
        invariant
            i <= rows.len(),
            f == is_pending(rows@, texts(existing_ids@)),
            as_ints(out@) == where_at(i as int, f),
            forall|k: int| 0 <= k < out@.len() ==> (#[trigger] out@[k]) < rows@.len(),
        decreases rows.len() - i,
    {
        let ghost now = as_ints(out@);
        if !holds(existing_ids, rows[i].transaction_id.as_str()) && transaction_needs_context(
            &rows[i],
        ) {
            out.push(i);
            assert(as_ints(out@) =~= now.push(i as int));
        }
        i = i + 1;
    }
    out
}

/// The label of an account: that of the last one with the identifier.
pub open spec fn label_of(accounts: Seq<AccountRecord>, id: Seq<char>) -> Option<Seq<char>>
    decreases accounts.len(),
{
    if accounts.len() == 0 {
        None
    } else if accounts.last().account_id@ == id {
        Some(accounts.last().label@)
    } else {
        label_of(accounts.drop_last(), id)
    }
}

/// The label of the account that a row belongs to.
pub open spec fn row_label(accounts: Seq<AccountRecord>, id: Option<String>) -> Option<Seq<char>> {
    match id {
        Some(a) => label_of(accounts, a@),
        None => None,
    }
}

fn find_label(accounts: &Vec<AccountRecord>, id: &Option<String>) -> (r: Option<String>)
    ensures
        opt_text(r) == row_label(accounts@, *id),
{
    let key = match id {
        Some(a) => a,
        None => {
            return None;
        },
    };
    let mut i: usize = accounts.len();
    assert(accounts@.take(i as int) =~= accounts@);
    while i > 0
        invariant
            i <= accounts.len(),
            *id == Some(*key),
            label_of(accounts@, key@) == label_of(accounts@.take(i as int), key@),
        decreases i,
    {
        assert(accounts@.take(i as int).drop_last() =~= accounts@.take(i - 1));
        assert(accounts@.take(i as int).last() == accounts@[i - 1]);
        if same(accounts[i - 1].account_id.as_str(), key.as_str()) {
            return Some(accounts[i - 1].label.clone());
        }
        i = i - 1;
    }
    None
}

/// A new transaction in the report of a sync.
pub struct SyncSummaryTransaction<'a> {
    pub transaction_id: String,
    pub transaction_date: String,
    pub day_of_week: String,
    pub description: String,
    pub amount: String,
    pub tx_type: String,
    pub category_id: Option<String>,
    pub category_source: String,
    pub context: Option<String>,
    pub account_id: Option<String>,
    pub account_label: Option<String>,
    pub payment_status: String,
    pub source: String,
    pub metadata_json: &'a Json,
}

/// A transaction that waits for a category in the report of a sync.
pub struct SyncSummaryPending<'a> {
    pub transaction_id: String,
    pub transaction_date: String,
    pub day_of_week: String,
    pub description: String,
    pub amount: String,
    pub tx_type: String,
    pub account_id: Option<String>,
    pub account_label: Option<String>,
    pub category_source: String,
    pub payment_status: String,
    pub source: String,
    pub metadata_json: &'a Json,
}

/// Whether the entry tells of the row.
pub open spec fn tells_new(
    t: SyncSummaryTransaction,
    row: TransactionRecord,
    accounts: Seq<AccountRecord>,
) -> bool {
    &&& t.transaction_id@ == row.transaction_id@
    &&& t.transaction_date@ == iso_text(row.transaction_date)
    &&& t.day_of_week@ == weekday_of(row.transaction_date)
    &&& t.description@ == row.shown()
    &&& t.amount@ == plain_text(row.amount)
    &&& t.tx_type@ == row.tx_type@
    &&& t.category_id == row.category_id
    &&& t.category_source@ == row.category_source@
    &&& t.context == row.context
    &&& t.account_id == row.account_id
    &&& opt_text(t.account_label) == row_label(accounts, row.account_id)
    &&& t.payment_status@ == row.payment_status@
    &&& t.source@ == row.source@
    &&& *t.metadata_json == row.metadata_json
}

/// Whether the entry tells of the row.
pub open spec fn tells_pending(
    t: SyncSummaryPending,
    row: TransactionRecord,
    accounts: Seq<AccountRecord>,
) -> bool {
    &&& t.transaction_id@ == row.transaction_id@
    &&& t.transaction_date@ == iso_text(row.transaction_date)
    &&& t.day_of_week@ == weekday_of(row.transaction_date)
    &&& t.description@ == row.shown()
    &&& t.amount@ == plain_text(row.amount)
    &&& t.tx_type@ == row.tx_type@
    &&& t.account_id == row.account_id
    &&& opt_text(t.account_label) == row_label(accounts, row.account_id)
    &&& t.category_source@ == row.category_source@
    &&& t.payment_status@ == row.payment_status@
    &&& t.source@ == row.source@
    &&& *t.metadata_json == row.metadata_json
}

/// The new transactions, as the report of a sync tells of them.
pub fn summarize_new<'a>(
    rows: &'a Vec<TransactionRecord>,
    existing_ids: &Vec<String>,
    accounts: &Vec<AccountRecord>,
) -> (r: Vec<SyncSummaryTransaction<'a>>)
    ensures
        ({
            let at = new_rows(rows@, texts(existing_ids@));
            r@.len() == at.len() && forall|i: int|
                0 <= i < at.len() ==> tells_new(#[trigger] r@[i], rows@[at[i]], accounts@)
        }),
{
    let at = find_new_rows(rows, existing_ids);
    let ghost ints = as_ints(at@);
    proof {
        crate::order::lemma_where_at(rows@.len() as int, is_new(rows@, texts(existing_ids@)));
    }
    let mut out: Vec<SyncSummaryTransaction<'a>> = Vec::new();
    let mut i: usize = 0;
    while i < at.len()
        invariant
            i <= at.len(),
            ints == as_ints(at@),
            forall|k: int| 0 <= k < ints.len() ==> 0 <= #[trigger] ints[k] < rows@.len(),
            out@.len() == i,
            forall|k: int|
                0 <= k < i ==> tells_new(#[trigger] out@[k], rows@[ints[k]], accounts@),
        decreases at.len() - i,
    {
        assert(0 <= ints[i as int] < rows@.len());
        let row = &rows[at[i]];
        out.push(
            SyncSummaryTransaction {
                transaction_id: row.transaction_id.clone(),
                transaction_date: iso(&row.transaction_date),
                day_of_week: day_of_week_text(&row.transaction_date),
                description: row.display_description().to_string(),
                amount: decimal_text(row.amount),
                tx_type: row.tx_type.clone(),
                category_id: opt_clone(&row.category_id),
                category_source: row.category_source.clone(),
                context: opt_clone(&row.context),
                account_id: opt_clone(&row.account_id),
                account_label: find_label(accounts, &row.account_id),
                payment_status: row.payment_status.clone(),
                source: row.source.clone(),
                metadata_json: &row.metadata_json,
            },
        );
        i = i + 1;
    }
    out
}

// ---------------------------------------------------------------------------
// What needs context

pub struct SyncPendingSummaryResult<'a> {
    pub summary_status: String,
    pub warnings: Vec<String>,
    pub needs_context_count: i64,
    pub needs_context_returned_count: usize,
    pub needs_context_truncated: bool,
    pub needs_context: Vec<SyncSummaryPending<'a>>,
}

/// How many of that many entries are listed.
pub open spec fn listed(n: nat) -> nat {
    if n <= NEEDS_CONTEXT_LIMIT {
        n
    } else {
        NEEDS_CONTEXT_LIMIT as nat
    }
}

/// Whether the result tells of what the sync itself brought: the new rows that wait
/// for a category, the first ones listed.
pub open spec fn tells_fallback(
    r: SyncPendingSummaryResult,
    rows: Seq<TransactionRecord>,
    existing: Seq<Seq<char>>,
    accounts: Seq<AccountRecord>,
    warning: Seq<char>,
) -> bool {
    let at = pending_rows(rows, existing);
    &&& r.summary_status@ == "partial"@
    &&& texts(r.warnings@) == seq![warning]
    &&& r.needs_context_count == at.len()
    &&& r.needs_context_returned_count == listed(at.len())
    &&& r.needs_context_truncated == (at.len() > NEEDS_CONTEXT_LIMIT)
    &&& r.needs_context@.len() == listed(at.len())
    &&& forall|i: int|
        0 <= i < r.needs_context@.len() ==> tells_pending(
            #[trigger] r.needs_context@[i],
            rows[at[i]],
            accounts,
        )
}

/// The summary from what the sync itself brought, where the store cannot tell.
pub fn build_sync_pending_summary_fallback<'a>(
    transactions: &'a Vec<TransactionRecord>,
    existing_ids: &Vec<String>,
    accounts: &Vec<AccountRecord>,
    warning: String,
) -> (r: SyncPendingSummaryResult<'a>)
    requires
        transactions@.len() <= i64::MAX,
    ensures
        tells_fallback(r, transactions@, texts(existing_ids@), accounts@, warning@),
{
    let at = find_pending_rows(transactions, existing_ids);
    let ghost ints = as_ints(at@);
    proof {
        crate::order::lemma_where_at(
            transactions@.len() as int,
            is_pending(transactions@, texts(existing_ids@)),
        );
    }
    let total: usize = at.len();
    let count: usize = if total <= NEEDS_CONTEXT_LIMIT {
        total
    } else {
        NEEDS_CONTEXT_LIMIT
    };
    let mut out: Vec<SyncSummaryPending<'a>> = Vec::new();
    let mut i: usize = 0;
    while i < count
        invariant
            i <= count <= at.len(),
            ints == as_ints(at@),
            forall|k: int| 0 <= k < ints.len() ==> 0 <= #[trigger] ints[k] < transactions@.len(),
            out@.len() == i,
            forall|k: int|
                0 <= k < i ==> tells_pending(
                    #[trigger] out@[k],
                    transactions@[ints[k]],
                    accounts@,
                ),
        decreases count - i,
    {
        assert(0 <= ints[i as int] < transactions@.len());
        let row = &transactions[at[i]];
        out.push(
            SyncSummaryPending {
                transaction_id: row.transaction_id.clone(),
                transaction_date: iso(&row.transaction_date),
                day_of_week: day_of_week_text(&row.transaction_date),
                description: row.display_description().to_string(),
                amount: decimal_text(row.amount),
                tx_type: row.tx_type.clone(),
                account_id: opt_clone(&row.account_id),
                account_label: find_label(accounts, &row.account_id),
                category_source: row.category_source.clone(),
                payment_status: row.payment_status.clone(),
                source: row.source.clone(),
                metadata_json: &row.metadata_json,
            },
        );
        i = i + 1;
    }
    let ghost text = warning@;
    let mut warnings: Vec<String> = Vec::new();
    warnings.push(warning);
    assert(texts(warnings@) =~= seq![text]);
    SyncPendingSummaryResult {
        summary_status: "partial".to_string(),
        warnings,
        needs_context_count: total as i64,
        needs_context_returned_count: count,
        needs_context_truncated: total > count,
        needs_context: out,
    }
}

/// A transaction without a category, as the store lists it.
pub struct UncategorizedRow {
    pub transaction_id: String,
    pub transaction_date: Date,
    pub description: String,
    pub amount: Amount,
    pub tx_type: String,
    pub account_id: Option<String>,
    pub account_label: Option<String>,
    pub category_source: String,
    pub payment_status: String,
    pub source: String,
    pub metadata_json: Json,
}

/// What the store answers when asked for what needs context.
pub enum PendingReply {
    /// It could not count.
    CountFailed(String),
    /// It counted, but could not list.
    ListFailed(String),
    /// The count and the first rows.
    Listed(i64, Vec<UncategorizedRow>),
}

/// Whether the entry tells of the stored row.
pub open spec fn tells_uncategorized(t: SyncSummaryPending, row: UncategorizedRow) -> bool {
    &&& t.transaction_id@ == row.transaction_id@
    &&& t.transaction_date@ == iso_text(row.transaction_date)
    &&& t.day_of_week@ == weekday_of(row.transaction_date)
    &&& t.description@ == row.description@
    &&& t.amount@ == plain_text(row.amount)
    &&& t.tx_type@ == row.tx_type@
    &&& t.account_id == row.account_id
    &&& t.account_label == row.account_label
    &&& t.category_source@ == row.category_source@
    &&& t.payment_status@ == row.payment_status@
    &&& t.source@ == row.source@
    &&& *t.metadata_json == row.metadata_json
}

/// What needs context after a sync: what the store lists, or, where the store
/// fails, what the sync itself brought, with a warning.
pub fn load_sync_pending_summary<'a>(
    reply: &'a PendingReply,
    transactions: &'a Vec<TransactionRecord>,
    existing_ids: &Vec<String>,
    accounts: &Vec<AccountRecord>,
) -> (r: SyncPendingSummaryResult<'a>)
    requires
        transactions@.len() <= i64::MAX,
        reply matches PendingReply::Listed(_, rows) ==> rows@.len() <= i64::MAX,
    ensures
        match *reply {
            PendingReply::CountFailed(e) => tells_fallback(
                r,
                transactions@,
                texts(existing_ids@),
                accounts@,
                "needs_context_fallback_sync_only: count_unavailable: "@ + joined(
                    full_lines(lines_of(e@)),
                    " | "@,
                ),
            ),
            PendingReply::ListFailed(e) => tells_fallback(
                r,
                transactions@,
                texts(existing_ids@),
                accounts@,
                "needs_context_fallback_sync_only: list_unavailable: "@ + joined(
                    full_lines(lines_of(e@)),
                    " | "@,
                ),
            ),
            PendingReply::Listed(count, rows) => {
                &&& r.summary_status@ == "complete"@
                &&& r.warnings@.len() == 0
                &&& r.needs_context_count == count
                &&& r.needs_context_returned_count == rows@.len()
                &&& r.needs_context_truncated == (count > rows@.len())
                &&& r.needs_context@.len() == rows@.len()
                &&& forall|i: int|
                    0 <= i < rows@.len() ==> tells_uncategorized(
                        #[trigger] r.needs_context@[i],
                        rows@[i],
                    )
            },
        },
{
    match reply {
        PendingReply::CountFailed(e) => build_sync_pending_summary_fallback(
            transactions,
            existing_ids,
            accounts,
            glue(
                "needs_context_fallback_sync_only: count_unavailable: ",
                compact_error_message(e.as_str()).as_str(),
            ),
        ),
        PendingReply::ListFailed(e) => build_sync_pending_summary_fallback(
            transactions,
            existing_ids,
            accounts,
            glue(
                "needs_context_fallback_sync_only: list_unavailable: ",
                compact_error_message(e.as_str()).as_str(),
            ),
        ),
        PendingReply::Listed(count, rows) => {
            let mut out: Vec<SyncSummaryPending<'a>> = Vec::new();
            let mut i: usize = 0;
            while i < rows.len()
                invariant
                    i <= rows.len(),
                    out@.len() == i,
                    forall|k: int|
                        0 <= k < i ==> tells_uncategorized(#[trigger] out@[k], rows@[k]),
                decreases rows.len() - i,
            {
                let row = &rows[i];
                out.push(
                    SyncSummaryPending {
                        transaction_id: row.transaction_id.clone(),
                        transaction_date: iso(&row.transaction_date),
                        day_of_week: day_of_week_text(&row.transaction_date),
                        description: row.description.clone(),
                        amount: decimal_text(row.amount),
                        tx_type: row.tx_type.clone(),
                        account_id: opt_clone(&row.account_id),
                        account_label: opt_clone(&row.account_label),
                        category_source: row.category_source.clone(),
                        payment_status: row.payment_status.clone(),
                        source: row.source.clone(),
                        metadata_json: &row.metadata_json,
                    },
                );
                i = i + 1;
            }
            let n: i64 = rows.len() as i64;
            SyncPendingSummaryResult {
                summary_status: "complete".to_string(),
                warnings: Vec::new(),
                needs_context_count: *count,
                needs_context_returned_count: rows.len(),
                needs_context_truncated: *count > n,
                needs_context: out,
            }
        },
    }
}

// ---------------------------------------------------------------------------
// Balances

/// The balance of an account on a day.
pub struct AccountSnapshotRecord {
    pub account_id: String,
    pub snapshot_date: Date,
    pub balance: Option<Amount>,
    pub currency_code: Option<String>,
    pub source: String,
    pub actor_id: String,
    pub idempotency_key: String,
}

/// What a text says in numbers.
pub open spec fn says(text: Seq<char>, a: Option<Amount>) -> bool {
    match a {
        Some(x) => parsed_decimal(text) == Some((x.sign(), x.units(), x.places())),
        None => parsed_decimal(text) is None,
    }
}

/// The balance in the metadata of an account. A text is read as it is; where it is
/// none, or cannot be read, `number` counts: the member as a number with two
/// decimal places, where it is one.
pub fn balance_of(metadata: &Json, number: Option<&str>) -> (r: Option<Amount>)
    ensures
        match member(*metadata, "balance"@) {
            Some(Json::Text(t)) if parsed_decimal(t@) is Some => says(t@, r),
            Some(_) => match number {
                Some(n) => says(n@, r),
                None => r is None,
            },
            None => r is None,
        },
{
    let v = match get(metadata, "balance") {
        Some(v) => v,
        None => {
            return None;
        },
    };
    match v {
        Json::Text(t) => {
            let read = parse_amount(t.as_str());
            if read.is_some() {
                return read;
            }
        },
        _ => {},
    }
    match number {
        Some(n) => parse_amount(n),
        None => None,
    }
}

/// The key under which the snapshot of a day is stored once.
pub open spec fn snapshot_key(account: Seq<char>, day: Date) -> Seq<char> {
    "snapshot:"@ + account + ":"@ + iso_text(day) + ":pluggy"@
}

/// Whether the snapshot is that of the account on the day.
pub open spec fn is_snapshot(
    s: AccountSnapshotRecord,
    account: AccountRecord,
    day: Date,
    actor: Seq<char>,
    number: Option<Seq<char>>,
) -> bool {
    &&& s.account_id@ == account.account_id@
    &&& s.snapshot_date == day
    &&& match member(account.metadata_json, "balance"@) {
        Some(Json::Text(t)) if parsed_decimal(t@) is Some => says(t@, s.balance),
        Some(_) => match number {
            Some(n) => says(n, s.balance),
            None => s.balance is None,
        },
        None => s.balance is None,
    }
    &&& opt_text(s.currency_code) == (match member(account.metadata_json, "currency_code"@) {
        Some(Json::Text(t)) => Some(t@),
        _ => None,
    })
    &&& s.source@ == "pluggy"@
    &&& s.actor_id@ == actor
    &&& s.idempotency_key@ == snapshot_key(account.account_id@, day)
}

/// The snapshot of an account on a day.
pub fn snapshot_of(
    account: &AccountRecord,
    day: &Date,
    actor_id: &str,
    number: Option<&str>,
) -> (r: AccountSnapshotRecord)
    ensures
        is_snapshot(
            r,
            *account,
            *day,
            actor_id@,
            match number {
                Some(n) => Some(n@),
                None => None,
            },
        ),
{
    let mut key = chars("snapshot:");
    put(&mut key, account.account_id.as_str());
    put(&mut key, ":");
    put(&mut key, iso(day).as_str());
    put(&mut key, ":pluggy");
    let currency_code = match get(&account.metadata_json, "currency_code") {
        Some(Json::Text(t)) => Some(t.clone()),
        _ => None,
    };
    AccountSnapshotRecord {
        account_id: account.account_id.clone(),
        snapshot_date: *day,
        balance: balance_of(&account.metadata_json, number),
        currency_code,
        source: "pluggy".to_string(),
        actor_id: actor_id.to_string(),
        idempotency_key: from_chars(&key),
    }
}

/// Whether the account is a checking account with an identifier.
pub open spec fn is_checking(accounts: Seq<AccountRecord>, id: Seq<char>) -> bool {
    exists|i: int|
        0 <= i < accounts.len() && (#[trigger] accounts[i]).account_id@ == id
            && accounts[i].account_type@ == "checking"@ && id.len() > 0
}

fn check_checking(accounts: &Vec<AccountRecord>, id: &str) -> (r: bool)
    ensures
        r == is_checking(accounts@, id@),
{
    let mut i: usize = 0;
    while i < accounts.len()
        invariant
            i <= accounts.len(),
            forall|j: int|
                0 <= j < i ==> !((#[trigger] accounts@[j]).account_id@ == id@
                    && accounts@[j].account_type@ == "checking"@ && id@.len() > 0),
        decreases accounts.len() - i,
    {
        if same(accounts[i].account_id.as_str(), id) && same(
            accounts[i].account_type.as_str(),
            "checking",
        ) && !id.is_empty() {
            assert(accounts@[i as int].account_id@ == id@);
            return true;
        }
        i = i + 1;
    }
    false
}

/// The balances of the checking accounts.
pub open spec fn checking_balances(
    accounts: Seq<AccountRecord>,
    snapshots: Seq<AccountSnapshotRecord>,
) -> Seq<Amount>
    decreases snapshots.len(),
{
    if snapshots.len() == 0 {
        Seq::empty()
    } else {
        let rest = checking_balances(accounts, snapshots.drop_last());
        match snapshots.last().balance {
            Some(b) if is_checking(accounts, snapshots.last().account_id@) => rest.push(b),
            _ => rest,
        }
    }
}

pub open spec fn no_balance(snapshots: Seq<AccountSnapshotRecord>) -> bool {
    forall|i: int| 0 <= i < snapshots.len() ==> (#[trigger] snapshots[i]).balance is None
}

/// What is in the checking accounts together; nothing where no snapshot has a
/// balance.
pub fn total_checking_balance(
    accounts: &Vec<AccountRecord>,
    snapshots: &Vec<AccountSnapshotRecord>,
) -> (r: Option<Amount>)
    requires
        full_weight(checking_balances(accounts@, snapshots@)) <= limit(),
    ensures
        r == (if no_balance(snapshots@) {
            None
        } else {
            Some(sum_of(checking_balances(accounts@, snapshots@)))
        }),
{
    let mut list: Vec<Amount> = Vec::new();
    let mut any: bool = false;
    let mut i: usize = 0;
    assert(snapshots@.take(0) =~= Seq::<AccountSnapshotRecord>::empty());
    while i < snapshots.len()
        invariant
            i <= snapshots.len(),
            list@ == checking_balances(accounts@, snapshots@.take(i as int)),
            any == !no_balance(snapshots@.take(i as int)),
        decreases snapshots.len() - i,
    {
        assert(snapshots@.take(i + 1).drop_last() =~= snapshots@.take(i as int));
        let ghost before = snapshots@.take(i as int);
        let ghost after = snapshots@.take(i + 1);
        match snapshots[i].balance {
            Some(b) => {
                any = true;
                assert(after[i as int].balance is Some);
                if check_checking(accounts, snapshots[i].account_id.as_str()) {
                    list.push(b);
                }
            },
            None => {
                proof {
                    if no_balance(before) {
                        assert forall|k: int| 0 <= k < after.len() implies (
                        #[trigger] after[k]).balance is None by {
                            if k < i {
                                assert(before[k].balance is None);
                            }
                        }
                    } else {
                        let k = choose|k: int|
                            0 <= k < before.len() && !((#[trigger] before[k]).balance is None);
                        assert(after[k].balance is Some);
                    }
                }
            },
        }
        i = i + 1;
    }
    assert(snapshots@.take(i as int) =~= snapshots@);
    if any {
        Some(total_of_all(&list))
    } else {
        None
    }
}

// ---------------------------------------------------------------------------
// The steps of a sync

/// How a sync reports.
#[derive(Clone, Copy, Debug, PartialEq, Eq, Structural)]
pub enum SyncOutput {
    Plain,
    JsonSummary,
    NotifySummary,
}

/// How a sync reports. It gives one summary only.
pub fn sync_output(json_summary: bool, notify_summary: bool) -> (r: Result<SyncOutput, String>)
    ensures
        match r {
            Ok(o) => !(json_summary && notify_summary) && o == (if json_summary {
                SyncOutput::JsonSummary
            } else if notify_summary {
                SyncOutput::NotifySummary
            } else {
                SyncOutput::Plain
            }),
            Err(e) => json_summary && notify_summary && e@
                == "Use apenas uma saída de resumo: --json-summary ou --notify-summary"@,
        },
{
    if json_summary && notify_summary {
        Err("Use apenas uma saída de resumo: --json-summary ou --notify-summary".to_string())
    } else if json_summary {
        Ok(SyncOutput::JsonSummary)
    } else if notify_summary {
        Ok(SyncOutput::NotifySummary)
    } else {
        Ok(SyncOutput::Plain)
    }
}

/// What follows a plain sync.
#[derive(Clone, Copy, Debug, PartialEq, Eq, Structural)]
pub enum EnrichStep {
    /// Enrichment was switched off.
    Skipped,
    /// There is nothing new.
    NothingNew,
    /// The new transactions are enriched; without questions where nobody can answer.
    Run { auto_only: bool },
}

/// What follows a plain sync.
pub fn enrich_step(no_enrich: bool, new_count: usize, interactive: bool) -> (r: EnrichStep)
    ensures
        r == (if no_enrich {
            EnrichStep::Skipped
        } else if new_count == 0 {
            EnrichStep::NothingNew
        } else {
            EnrichStep::Run { auto_only: !interactive }
        }),
{
    if no_enrich {
        EnrichStep::Skipped
    } else if new_count == 0 {
        EnrichStep::NothingNew
    } else {
        EnrichStep::Run { auto_only: !interactive }
    }
}

/// The metadata under which an account was last stored.
pub open spec fn stored_metadata(accounts: Seq<AccountRecord>, id: Seq<char>) -> Option<Json>
    decreases accounts.len(),
{
    if accounts.len() == 0 {
        None
    } else if accounts.last().account_id@ == id {
        Some(accounts.last().metadata_json)
    } else {
        stored_metadata(accounts.drop_last(), id)
    }
}

fn find_metadata<'a>(accounts: &'a Vec<AccountRecord>, id: &str) -> (r: Option<&'a Json>)
    ensures
        match r {
            Some(j) => stored_metadata(accounts@, id@) == Some(*j),
            None => stored_metadata(accounts@, id@) is None,
        },
{
    let mut i: usize = accounts.len();
    assert(accounts@.take(i as int) =~= accounts@);
    while i > 0
        invariant
            i <= accounts.len(),
            stored_metadata(accounts@, id@) == stored_metadata(accounts@.take(i as int), id@),
        decreases i,
    {
        assert(accounts@.take(i as int).drop_last() =~= accounts@.take(i - 1));
        assert(accounts@.take(i as int).last() == accounts@[i - 1]);
        if same(accounts[i - 1].account_id.as_str(), id) {
            return Some(&accounts[i - 1].metadata_json);
        }
        i = i - 1;
    }
    None
}

/// Whether a fresh account can be given the billing keys of its stored record.
pub open spec fn can_keep_billing(account: AccountRecord, existing: Seq<AccountRecord>) -> bool {
    match stored_metadata(existing, account.account_id@) {
        Some(meta) => takes_billing(account.metadata_json, meta),
        None => true,
    }
}

/// Whether a fresh account can be given the billing keys of its stored record.
pub fn may_keep_billing(account: &AccountRecord, existing: &Vec<AccountRecord>) -> (r: bool)
    ensures
        r == can_keep_billing(*account, existing@),
{
    match &account.metadata_json {
        Json::Object(_) => true,
        Json::Null => true,
        _ => match find_metadata(existing, account.account_id.as_str()) {
            Some(meta) => get(meta, "billing_closing_day").is_none() && get(
                meta,
                "billing_due_day",
            ).is_none(),
            None => true,
        },
    }
}

/// Whether `after` is the account with the billing keys that its stored record had.
pub open spec fn billing_kept(
    before: AccountRecord,
    after: AccountRecord,
    existing: Seq<AccountRecord>,
) -> bool {
    &&& after == (AccountRecord { metadata_json: after.metadata_json, ..before })
    &&& match stored_metadata(existing, before.account_id@) {
        None => after.metadata_json == before.metadata_json,
        Some(meta) => forall|n: Seq<char>|
            if is_carried(before.metadata_json, meta, n) {
                (#[trigger] member(after.metadata_json, n)) is Some && alike(
                    member(meta, n)->0,
                    member(after.metadata_json, n)->0,
                )
            } else {
                member(after.metadata_json, n) == member(before.metadata_json, n)
            },
    }
}

/// Gives a fresh account the billing keys that its stored record had.
pub fn keep_billing(account: &mut AccountRecord, existing: &Vec<AccountRecord>)
    requires
        can_keep_billing(*old(account), existing@),
    ensures
        billing_kept(*old(account), *final(account), existing@),
{
    match find_metadata(existing, account.account_id.as_str()) {
        Some(meta) => {
            merge_billing_metadata(&mut account.metadata_json, meta);
        },
        None => {},
    }
}

} // verus!
