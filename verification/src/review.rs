//! The queue of transactions to review: filters, order, limits, months.

use crate::amount::{abs, Amount};
use crate::cashflow::size_of;
use crate::date::{
    date_of, in_calendar, lemma_date_of, lemma_day_in_calendar, month_index, month_ref_for,
    month_text, months_back, plain_month_text, two_digits, valid_date, Date,
};
use crate::metadata::{
    metadata_text, parse_i32, parse_u32, parsed_i32, parsed_u32, paths, text_at, Json,
};
use crate::order::{distinct, law_sorted, lemma_same_elements, sort, sorted, sorted_keys, Ranked};
use crate::records::{is_text, opt_clone, opt_text, TransactionRecord};
use crate::summary::holds;
use crate::text::{
    append_chars, chars, contains, from_chars, glue, glue3, has_text, join, joined,
    lemma_precedes_asymmetric, lemma_precedes_total, lemma_precedes_transitive, less, lower_ascii,
    number, parts_of, precedes, push_text, same, split_all, split_at_char, split_once, texts,
    to_lower_ascii, trim, trimmed,
};
use vstd::prelude::*;

verus! {

/// How many transactions a review shows.
pub const DEFAULT_REVIEW_LIMIT: usize = 10;

/// How many transactions a review on the screen shows.
pub const DEFAULT_TUI_REVIEW_LIMIT: usize = 500;

/// How many transactions to review.
pub fn effective_review_human_limit(limit: Option<usize>, tui: bool) -> (r: usize)
    ensures
        r == (match limit {
            Some(n) => n,
            None => if tui {
                DEFAULT_TUI_REVIEW_LIMIT
            } else {
                DEFAULT_REVIEW_LIMIT
            },
        }),
{
    match limit {
        Some(n) => n,
        None => if tui {
            DEFAULT_TUI_REVIEW_LIMIT
        } else {
            DEFAULT_REVIEW_LIMIT
        },
    }
}

/// A typed category taken apart: the category and what stands behind the first colon.
pub fn category_parts(category: &str) -> (r: (String, Option<String>))
    ensures
        match split_at_char(category@, ':') {
            Some((base, sub)) => r.0@ == base && opt_text(r.1) == Some(sub),
            None => r.0@ == category@ && r.1 is None,
        },
{
    match split_once(category, ':') {
        Some((base, sub)) => (base, Some(sub)),
        None => (category.to_string(), None),
    }
}

// ---------------------------------------------------------------------------
// Filters

/// What a queue is narrowed to.
#[derive(Debug)]
pub struct ReviewFilters {
    pub month: Option<String>,
    pub account_id: Option<String>,
    /// The accounts of the owner, where an owner is asked for.
    pub owner_accounts: Option<Vec<String>>,
    pub owner: Option<String>,
    pub merchant: Option<String>,
    pub category: Option<String>,
}

/// A text as a filter compares it.
pub open spec fn filter_text(s: Seq<char>) -> Seq<char> {
    lower_ascii(trimmed(s))
}

/// A text as a filter compares it.
pub fn normalize_filter_text(value: &str) -> (r: String)
    ensures
        r@ == filter_text(value@),
{
    to_lower_ascii(trim(value).as_str())
}

/// The texts of a row in which a merchant is searched.
pub open spec fn merchant_texts(row: TransactionRecord) -> Seq<Seq<char>> {
    let first: Seq<Seq<char>> = match row.merchant_name {
        Some(m) => seq![filter_text(m@)],
        None => Seq::empty(),
    };
    let middle = first.push(filter_text(row.raw_description@));
    match row.description {
        Some(d) => middle.push(filter_text(d@)),
        None => middle,
    }
}

/// The text of a row in which a merchant is searched.
pub fn review_filter_merchant_haystack(row: &TransactionRecord) -> (r: String)
    ensures
        r@ == joined(merchant_texts(*row), " "@),
{
    let mut parts: Vec<String> = Vec::new();
    assert(texts(parts@) =~= Seq::<Seq<char>>::empty());
    match &row.merchant_name {
        Some(m) => {
            push_text(&mut parts, normalize_filter_text(m.as_str()));
            assert(texts(parts@) =~= seq![filter_text(m@)]);
        },
        None => {},
    }
    push_text(&mut parts, normalize_filter_text(row.raw_description.as_str()));
    match &row.description {
        Some(d) => {
            push_text(&mut parts, normalize_filter_text(d.as_str()));
        },
        None => {},
    }
    assert(texts(parts@) =~= merchant_texts(*row));
    join(&parts, " ")
}

/// Whether an optional text is the wanted one, where one is wanted.
pub open spec fn wanted(want: Option<String>, have: Option<String>) -> bool {
    match want {
        Some(w) => opt_text(have) == Some(w@),
        None => true,
    }
}

fn is_wanted(want: &Option<String>, have: &Option<String>) -> (r: bool)
    ensures
        r == wanted(*want, *have),
{
    match want {
        Some(w) => is_text(have, w.as_str()),
        None => true,
    }
}

impl ReviewFilters {
    /// No filter.
    pub fn none() -> (r: ReviewFilters)
        ensures
            r.narrows_nothing(),
    {
        ReviewFilters {
            month: None,
            account_id: None,
            owner_accounts: None,
            owner: None,
            merchant: None,
            category: None,
        }
    }

    pub open spec fn narrows_nothing(self) -> bool {
        self.month is None && self.account_id is None && self.owner_accounts is None
            && self.owner is None && self.merchant is None && self.category is None
    }

    /// Whether there is no filter.
    pub fn is_empty(&self) -> (r: bool)
        ensures
            r == self.narrows_nothing(),
    {
        self.month.is_none() && self.account_id.is_none() && self.owner_accounts.is_none()
            && self.owner.is_none() && self.merchant.is_none() && self.category.is_none()
    }

    pub open spec fn month_fits(self, row: TransactionRecord) -> bool {
        match self.month {
            Some(m) => month_text(row.transaction_date) == m@,
            None => true,
        }
    }

    pub open spec fn account_fits(self, row: TransactionRecord) -> bool {
        &&& match self.owner_accounts {
            Some(allowed) => match row.account_id {
                Some(a) => texts(allowed@).contains(a@),
                None => false,
            },
            None => true,
        }
        &&& wanted(self.account_id, row.account_id)
    }

    pub open spec fn merchant_fits(self, row: TransactionRecord) -> bool {
        match self.merchant {
            Some(m) => filter_text(m@).len() == 0 || has_text(
                joined(merchant_texts(row), " "@),
                filter_text(m@),
            ),
            None => true,
        }
    }

    /// Whether a row is in the queue.
    pub open spec fn keeps(self, row: TransactionRecord) -> bool {
        self.month_fits(row) && self.account_fits(row) && wanted(self.category, row.category_id)
            && self.merchant_fits(row)
    }

    pub fn matches_month(&self, row: &TransactionRecord) -> (r: bool)
        ensures
            r == self.month_fits(*row),
    {
        match &self.month {
            Some(m) => same(month_ref_for(&row.transaction_date).as_str(), m.as_str()),
            None => true,
        }
    }

    pub fn matches_account(&self, row: &TransactionRecord) -> (r: bool)
        ensures
            r == self.account_fits(*row),
    {
        match &self.owner_accounts {
            Some(allowed) => {
                match &row.account_id {
                    Some(a) => if !holds(allowed, a.as_str()) {
                        return false;
                    },
                    None => {
                        return false;
                    },
                }
            },
            None => {},
        }
        is_wanted(&self.account_id, &row.account_id)
    }

    pub fn matches_category(&self, row: &TransactionRecord) -> (r: bool)
        ensures
            r == wanted(self.category, row.category_id),
    {
        is_wanted(&self.category, &row.category_id)
    }

    pub fn matches_merchant(&self, row: &TransactionRecord) -> (r: bool)
        ensures
            r == self.merchant_fits(*row),
    {
        match &self.merchant {
            Some(m) => {
                let needle = normalize_filter_text(m.as_str());
                needle.as_str().is_empty() || contains(
                    review_filter_merchant_haystack(row).as_str(),
                    needle.as_str(),
                )
            },
            None => true,
        }
    }

    /// Whether a row is in the queue.
    pub fn matches(&self, row: &TransactionRecord) -> (r: bool)
        ensures
            r == self.keeps(*row),
    {
        self.matches_month(row) && self.matches_account(row) && self.matches_category(row)
            && self.matches_merchant(row)
    }

    /// A copy of the filters.
    pub fn copied(&self) -> (r: ReviewFilters)
        ensures
            r.month == self.month,
            r.account_id == self.account_id,
            r.owner == self.owner,
            r.merchant == self.merchant,
            r.category == self.category,
            match (r.owner_accounts, self.owner_accounts) {
                (Some(a), Some(b)) => texts(a@) == texts(b@),
                (None, None) => true,
                _ => false,
            },
    {
        let owner_accounts = match &self.owner_accounts {
            Some(list) => Some(copy_texts(list)),
            None => None,
        };
        ReviewFilters {
            month: opt_clone(&self.month),
            account_id: opt_clone(&self.account_id),
            owner_accounts,
            owner: opt_clone(&self.owner),
            merchant: opt_clone(&self.merchant),
            category: opt_clone(&self.category),
        }
    }

    /// The filters in words.
    pub open spec fn told(self) -> Seq<char> {
        let parts = told_part("mês="@, self.month) + told_part("owner="@, self.owner) + told_part(
            "conta="@,
            self.account_id,
        ) + told_part("categoria="@, self.category) + told_part("merchant="@, self.merchant);
        if parts.len() == 0 {
            "filtros: nenhum"@
        } else {
            "filtros: "@ + joined(parts, " | "@)
        }
    }

    /// The filters in words.
    pub fn summary(&self) -> (r: String)
        ensures
            r@ == self.told(),
    {
        let mut parts: Vec<String> = Vec::new();
        assert(texts(parts@) =~= Seq::<Seq<char>>::empty());
        tell_part(&mut parts, "mês=", &self.month);
        tell_part(&mut parts, "owner=", &self.owner);
        tell_part(&mut parts, "conta=", &self.account_id);
        tell_part(&mut parts, "categoria=", &self.category);
        tell_part(&mut parts, "merchant=", &self.merchant);
        assert(Seq::<Seq<char>>::empty() + told_part("mês="@, self.month) =~= told_part(
            "mês="@,
            self.month,
        ));
        assert(texts(parts@).len() == parts@.len());
        if parts.len() == 0 {
            "filtros: nenhum".to_string()
        } else {
            glue("filtros: ", join(&parts, " | ").as_str())
        }
    }
}

pub(crate) fn copy_texts(list: &Vec<String>) -> (r: Vec<String>)
    ensures
        texts(r@) == texts(list@),
        r@.len() == list@.len(),
{
    let mut out: Vec<String> = Vec::new();
    let mut i: usize = 0;
    assert(texts(out@) =~= texts(list@).take(0));
    while i < list.len()
        invariant
            i <= list.len(),
            out@.len() == i,
            texts(out@) == texts(list@).take(i as int),
        decreases list.len() - i,
    {
        push_text(&mut out, list[i].clone());
        i = i + 1;
        assert(texts(out@) =~= texts(list@).take(i as int));
    }
    assert(texts(list@).take(i as int) =~= texts(list@));
    out
}

pub open spec fn told_part(name: Seq<char>, value: Option<String>) -> Seq<Seq<char>> {
    match value {
        Some(v) => seq![name + v@],
        None => Seq::empty(),
    }
}

fn tell_part(parts: &mut Vec<String>, name: &str, value: &Option<String>)
    ensures
        texts(final(parts)@) == texts(old(parts)@) + told_part(name@, *value),
{
    let ghost before = texts(parts@);
    match value {
        Some(v) => {
            push_text(parts, glue(name, v.as_str()));
            assert(texts(parts@) =~= before + told_part(name@, *value));
        },
        None => {
            assert(texts(parts@) =~= before + told_part(name@, *value));
        },
    }
}

/// The filters that the arguments of a review ask for. A category to filter by is the
/// one asked for, or, in a review of the queue, the one to set.
pub fn review_filter_category<'a>(
    transaction_id: &Option<String>,
    filter_category: &'a Option<String>,
    category: &'a Option<String>,
) -> (r: &'a Option<String>)
    ensures
        *r == (if *transaction_id is None && *filter_category is None {
            *category
        } else {
            *filter_category
        }),
{
    if transaction_id.is_none() && filter_category.is_none() {
        category
    } else {
        filter_category
    }
}

/// The accounts of an owner.
pub open spec fn owned(accounts: Seq<crate::records::AccountRecord>, owner: Seq<char>) -> Seq<
    Seq<char>,
>
    decreases accounts.len(),
{
    if accounts.len() == 0 {
        Seq::empty()
    } else if accounts.last().owner@ == owner {
        owned(accounts.drop_last(), owner).push(accounts.last().account_id@)
    } else {
        owned(accounts.drop_last(), owner)
    }
}

/// The accounts of an owner; an owner without one is refused.
pub fn owner_accounts(accounts: &Vec<crate::records::AccountRecord>, owner: &str) -> (r: Result<
    Vec<String>,
    String,
>)
    ensures
        match r {
            Ok(list) => owned(accounts@, owner@).len() > 0 && texts(list@) == owned(
                accounts@,
                owner@,
            ),
            Err(e) => owned(accounts@, owner@).len() == 0 && e@ == "Owner '"@ + owner@
                + "' não bate com nenhuma conta. Use `fin --help` para listar opções (ou cheque accounts.owner)."@,
        },
{
    let mut out: Vec<String> = Vec::new();
    let mut i: usize = 0;
    assert(accounts@.take(0) =~= Seq::<crate::records::AccountRecord>::empty());
    assert(texts(out@) =~= Seq::<Seq<char>>::empty());
    while i < accounts.len()
        invariant
            i <= accounts.len(),
            texts(out@) == owned(accounts@.take(i as int), owner@),
        decreases accounts.len() - i,
    {
        assert(accounts@.take(i + 1).drop_last() =~= accounts@.take(i as int));
        if same(accounts[i].owner.as_str(), owner) {
            push_text(&mut out, accounts[i].account_id.clone());
        }
        i = i + 1;
    }
    assert(accounts@.take(i as int) =~= accounts@);
    assert(texts(out@).len() == out@.len());
    if out.len() == 0 {
        Err(
            glue3(
                "Owner '",
                owner,
                "' não bate com nenhuma conta. Use `fin --help` para listar opções (ou cheque accounts.owner).",
            ),
        )
    } else {
        Ok(out)
    }
}

/// How many rows to fetch so that enough are left behind the filters.
pub fn review_human_fetch_limit(limit: usize, filters: &ReviewFilters) -> (r: usize)
    requires
        filters.narrows_nothing() || limit <= 5000,
    ensures
        r == (if filters.narrows_nothing() {
            limit as int
        } else if 50 * limit > 5000 {
            5000
        } else {
            50 * limit
        }),
{
    if filters.is_empty() {
        return limit;
    }
    if limit > 100 {
        5000
    } else {
        50 * limit
    }
}

// ---------------------------------------------------------------------------
// The queue

/// A row in the order of a review.
pub struct ReviewRow {
    pub row: TransactionRecord,
}

impl Ranked for ReviewRow {
    /// The latest first; of one day the largest first; equal ones by identifier.
    open spec fn le(a: Self, b: Self) -> bool {
        let (x, y) = (a.row, b.row);
        y.transaction_date.before(x.transaction_date) || (!x.transaction_date.before(
            y.transaction_date,
        ) && (size_of(y.amount) < size_of(x.amount) || (size_of(y.amount) == size_of(x.amount)
            && !precedes(y.transaction_id@, x.transaction_id@))))
    }

    proof fn le_total(a: Self, b: Self) {
        let (x, y) = (a.row.transaction_id@, b.row.transaction_id@);
        if precedes(y, x) {
            lemma_precedes_asymmetric(y, x);
        }
    }

    proof fn le_transitive(a: Self, b: Self, c: Self) {
        let (x, y, z) = (a.row.transaction_id@, b.row.transaction_id@, c.row.transaction_id@);
        if precedes(z, x) {
            lemma_precedes_total(x, y);
            if precedes(x, y) {
                lemma_precedes_transitive(z, x, y);
            }
        }
    }

    fn may_precede(&self, other: &Self) -> (r: bool) {
        let (x, y) = (&self.row, &other.row);
        if y.transaction_date.is_before(&x.transaction_date) {
            return true;
        }
        if x.transaction_date.is_before(&y.transaction_date) {
            return false;
        }
        let (p, q) = (x.amount.abs(), y.amount.abs());
        if q.is_less(&p) {
            true
        } else if p.is_less(&q) {
            false
        } else {
            !less(y.transaction_id.as_str(), x.transaction_id.as_str())
        }
    }
}

pub open spec fn review_rows(rows: Seq<TransactionRecord>) -> Seq<ReviewRow> {
    rows.map_values(|row: TransactionRecord| ReviewRow { row })
}

pub open spec fn plain_rows(rows: Seq<ReviewRow>) -> Seq<TransactionRecord> {
    rows.map_values(|r: ReviewRow| r.row)
}

/// The rows in the order of a review.
pub open spec fn in_review_order(rows: Seq<TransactionRecord>) -> Seq<TransactionRecord> {
    plain_rows(sorted(review_rows(rows)))
}

/// Puts the rows in the order of a review.
pub fn sort_review_human_rows(rows: Vec<TransactionRecord>) -> (r: Vec<TransactionRecord>)
    ensures
        r@ == in_review_order(rows@),
{
    let ghost all = rows@;
    let mut rest = rows;
    let mut list: Vec<ReviewRow> = Vec::new();
    let ghost mut i: int = 0;
    assert(rest@ =~= all.skip(0));
    while rest.len() > 0
        invariant
            0 <= i <= all.len(),
            rest@ == all.skip(i),
            list@ == review_rows(all).take(i),
        decreases rest.len(),
    {
        let row = rest.remove(0);
        assert(row == all[i]);
        assert(rest@ =~= all.skip(i + 1));
        list.push(ReviewRow { row });
        assert(list@ =~= review_rows(all).take(i + 1));
        proof {
            i = i + 1;
        }
    }
    assert(list@ =~= review_rows(all));
    let mut rest = sort(list);
    let ghost ordered = rest@;
    let mut out: Vec<TransactionRecord> = Vec::new();
    let ghost mut k: int = 0;
    assert(rest@ =~= ordered.skip(0));
    while rest.len() > 0
        invariant
            0 <= k <= ordered.len(),
            rest@ == ordered.skip(k),
            out@ == plain_rows(ordered).take(k),
        decreases rest.len(),
    {
        let r = rest.remove(0);
        assert(r == ordered[k]);
        assert(rest@ =~= ordered.skip(k + 1));
        out.push(r.row);
        assert(out@ =~= plain_rows(ordered).take(k + 1));
        proof {
            k = k + 1;
        }
    }
    assert(out@ =~= plain_rows(ordered));
    out
}

/// The first rows, at most `limit` of them.
pub open spec fn at_most(rows: Seq<TransactionRecord>, limit: int) -> Seq<TransactionRecord> {
    if rows.len() <= limit {
        rows
    } else {
        rows.take(limit)
    }
}

fn cut_rows(rows: Vec<TransactionRecord>, limit: usize) -> (r: Vec<TransactionRecord>)
    ensures
        r@ == at_most(rows@, limit as int),
{
    let ghost all = rows@;
    let mut out = rows;
    while out.len() > limit
        invariant
            at_most(all, limit as int) == at_most(out@, limit as int),
        decreases out.len(),
    {
        let ghost before = out@;
        out.pop();
        assert(out@ =~= before.take(before.len() - 1));
        proof {
            assert(before.take(limit as int) =~= out@.take(limit as int));
            if out@.len() == limit {
                assert(out@.take(limit as int) =~= out@);
            }
        }
    }
    out
}

/// The rows that a review keeps: those of the filters, at or above an amount.
pub open spec fn kept_rows(
    rows: Seq<TransactionRecord>,
    filters: ReviewFilters,
    least: Option<Amount>,
) -> Seq<TransactionRecord>
    decreases rows.len(),
{
    if rows.len() == 0 {
        Seq::empty()
    } else {
        let before = kept_rows(rows.drop_last(), filters, least);
        let row = rows.last();
        if filters.keeps(row) && (match least {
            Some(a) => size_of(row.amount) >= a.scaled(),
            None => true,
        }) {
            before.push(row)
        } else {
            before
        }
    }
}

/// The queue of a review.
pub open spec fn queue_of(
    rows: Seq<TransactionRecord>,
    filters: ReviewFilters,
    least: Option<Amount>,
    limit: int,
) -> Seq<TransactionRecord> {
    at_most(in_review_order(kept_rows(rows, filters, least)), limit)
}

/// The queue of a review, from the rows that were fetched. A least amount counts where
/// all transactions are shown.
pub fn review_queue(
    rows: Vec<TransactionRecord>,
    filters: &ReviewFilters,
    least: &Option<Amount>,
    limit: usize,
) -> (r: Vec<TransactionRecord>)
    ensures
        r@ == queue_of(rows@, *filters, *least, limit as int),
{
    let ghost all = rows@;
    let mut rest = rows;
    let mut kept: Vec<TransactionRecord> = Vec::new();
    let ghost mut i: int = 0;
    assert(rest@ =~= all.skip(0));
    assert(all.take(0) =~= Seq::<TransactionRecord>::empty());
    while rest.len() > 0
        invariant
            0 <= i <= all.len(),
            rest@ == all.skip(i),
            kept@ == kept_rows(all.take(i), *filters, *least),
        decreases rest.len(),
    {
        let row = rest.remove(0);
        proof {
            assert(row == all[i]);
            assert(rest@ =~= all.skip(i + 1));
            assert(all.take(i + 1).drop_last() =~= all.take(i));
        }
        let large = match least {
            Some(a) => !row.amount.abs().is_less(a),
            None => true,
        };
        if filters.matches(&row) && large {
            kept.push(row);
        }
        proof {
            i = i + 1;
        }
    }
    assert(all.take(i) =~= all);
    cut_rows(sort_review_human_rows(kept), limit)
}

proof fn lemma_kept_row(
    rows: Seq<TransactionRecord>,
    filters: ReviewFilters,
    least: Option<Amount>,
    x: TransactionRecord,
)
    requires
        kept_rows(rows, filters, least).contains(x),
    ensures
        rows.contains(x),
        filters.keeps(x),
    decreases rows.len(),
{
    if rows.len() > 0 {
        let before = kept_rows(rows.drop_last(), filters, least);
        if before.contains(x) {
            lemma_kept_row(rows.drop_last(), filters, least, x);
            let k = choose|k: int| 0 <= k < rows.drop_last().len() && rows.drop_last()[k] == x;
            assert(rows[k] == x);
        } else {
            let all = kept_rows(rows, filters, least);
            let k = choose|k: int| 0 <= k < all.len() && all[k] == x;
            if k < before.len() {
                assert(before[k] == x);
            }
            assert(rows[rows.len() - 1] == x);
        }
    }
}

/// The queue of a review holds rows that were fetched and that the filters keep, and no
/// more of them than asked for.
pub proof fn law_queue_keeps_to_filters(
    rows: Seq<TransactionRecord>,
    filters: ReviewFilters,
    least: Option<Amount>,
    limit: nat,
    i: int,
)
    requires
        0 <= i < queue_of(rows, filters, least, limit as int).len(),
    ensures
        queue_of(rows, filters, least, limit as int).len() <= limit,
        rows.contains(queue_of(rows, filters, least, limit as int)[i]),
        filters.keeps(queue_of(rows, filters, least, limit as int)[i]),
{
    let kept = kept_rows(rows, filters, least);
    let list = review_rows(kept);
    let x = queue_of(rows, filters, least, limit as int)[i];
    law_sorted(list);
    lemma_same_elements(sorted(list), list);
    assert(sorted(list)[i].row == x);
    assert(sorted(list).contains(sorted(list)[i]));
    let k = choose|k: int| 0 <= k < list.len() && list[k] == sorted(list)[i];
    assert(kept[k] == x);
    lemma_kept_row(rows, filters, least, x);
}

/// Without a filter every row is kept.
pub proof fn law_no_filter_keeps_all(filters: ReviewFilters, row: TransactionRecord)
    requires
        filters.narrows_nothing(),
    ensures
        filters.keeps(row),
{
}

/// The rows whose identifier did not come before.
pub open spec fn unseen_rows(rows: Seq<TransactionRecord>) -> Seq<TransactionRecord>
    decreases rows.len(),
{
    if rows.len() == 0 {
        Seq::empty()
    } else {
        let before = unseen_rows(rows.drop_last());
        if ids_of(before).contains(rows.last().transaction_id@) {
            before
        } else {
            before.push(rows.last())
        }
    }
}

pub open spec fn ids_of(rows: Seq<TransactionRecord>) -> Seq<Seq<char>> {
    rows.map_values(|r: TransactionRecord| r.transaction_id@)
}

/// The rows of several queues as one, each row once, until there are enough.
pub fn review_human_rows_all(rows: Vec<TransactionRecord>, limit: usize) -> (r: Vec<
    TransactionRecord,
>)
    ensures
        r@ == at_most(
            unseen_rows(rows@),
            if limit == 0 {
                1
            } else {
                limit as int
            },
        ),
{
    let ghost all = rows@;
    let ghost most: int = if limit == 0 {
        1
    } else {
        limit as int
    };
    let mut rest = rows;
    let mut out: Vec<TransactionRecord> = Vec::new();
    let mut seen: Vec<String> = Vec::new();
    let ghost mut i: int = 0;
    assert(rest@ =~= all.skip(0));
    assert(all.take(0) =~= Seq::<TransactionRecord>::empty());
    assert(texts(seen@) =~= ids_of(out@));
    while rest.len() > 0
        invariant
            0 <= i <= all.len(),
            rest@ == all.skip(i),
            out@ == unseen_rows(all.take(i)),
            texts(seen@) == ids_of(out@),
            all == rows@,
            i > 0 ==> out@.len() < limit,
            i == 0 ==> out@.len() == 0,
            most == (if limit == 0 {
                1
            } else {
                limit as int
            }),
        decreases rest.len(),
    {
        let row = rest.remove(0);
        proof {
            assert(row == all[i]);
            assert(rest@ =~= all.skip(i + 1));
            assert(all.take(i + 1).drop_last() =~= all.take(i));
        }
        let ghost had = out@;
        if !holds(&seen, row.transaction_id.as_str()) {
            push_text(&mut seen, row.transaction_id.clone());
            out.push(row);
            assert(ids_of(out@) =~= ids_of(had).push(row.transaction_id@));
        }
        proof {
            i = i + 1;
        }
        if out.len() >= limit {
            proof {
                lemma_unseen_grows(all, i);
                assert(out@.len() == most);
                assert(unseen_rows(all).take(most) =~= out@);
                if unseen_rows(all).len() == most {
                    assert(unseen_rows(all) =~= out@);
                }
            }
            return out;
        }
    }
    assert(all.take(i) =~= all);
    out
}

proof fn lemma_unseen_grows(rows: Seq<TransactionRecord>, k: int)
    requires
        0 <= k <= rows.len(),
    ensures
        unseen_rows(rows.take(k)).len() <= unseen_rows(rows).len(),
        unseen_rows(rows).take(unseen_rows(rows.take(k)).len() as int) == unseen_rows(rows.take(k)),
    decreases rows.len() - k,
{
    if k == rows.len() {
        assert(rows.take(k) =~= rows);
        assert(unseen_rows(rows).take(unseen_rows(rows).len() as int) =~= unseen_rows(rows));
    } else {
        lemma_unseen_grows(rows, k + 1);
        assert(rows.take(k + 1).drop_last() =~= rows.take(k));
        let a = unseen_rows(rows.take(k));
        let b = unseen_rows(rows.take(k + 1));
        assert(b.take(a.len() as int) =~= a);
        assert(unseen_rows(rows).take(a.len() as int) =~= unseen_rows(rows).take(
            b.len() as int,
        ).take(a.len() as int));
    }
}

/// The months of the rows.
pub open spec fn row_months(rows: Seq<TransactionRecord>) -> Seq<Seq<char>> {
    rows.map_values(|r: TransactionRecord| month_text(r.transaction_date))
}

/// The month of a day and those before it, as texts.
pub open spec fn months_until(today: Date, n: nat) -> Seq<Seq<char>> {
    Seq::new(
        n,
        |k: int|
            {
                let m = month_index(today.y(), today.m()) - k;
                plain_month_text(m / 12, m % 12 + 1)
            },
    )
}

/// A list from its end to its start.
pub open spec fn backwards(list: Seq<Seq<char>>) -> Seq<Seq<char>> {
    Seq::new(list.len(), |i: int| list[list.len() - 1 - i])
}

/// The months to choose from, the latest first: those of the rows, this month and the
/// twelve before it.
pub fn collect_available_months(rows: &Vec<TransactionRecord>, today: &Date) -> (r: Vec<String>)
    ensures
        texts(r@) == backwards(sorted_keys(row_months(rows@) + months_until(*today, 13))),
{
    today.known();
    let mut all: Vec<String> = Vec::new();
    let mut i: usize = 0;
    let ghost a = row_months(rows@);
    let ghost b = months_until(*today, 13);
    assert(texts(all@) =~= a.take(0));
    while i < rows.len()
        invariant
            i <= rows.len(),
            a == row_months(rows@),
            texts(all@) == a.take(i as int),
        decreases rows.len() - i,
    {
        push_text(&mut all, month_ref_for(&rows[i].transaction_date));
        i = i + 1;
        assert(texts(all@) =~= a.take(i as int));
    }
    let mut k: u32 = 0;
    assert(a.take(i as int) =~= a);
    assert(a + b.take(0) =~= a);
    while k < 13
        invariant
            k <= 13,
            today.valid(),
            b == months_until(*today, 13),
            texts(all@) == a + b.take(k as int),
        decreases 13 - k,
    {
        let ghost before = texts(all@);
        push_text(&mut all, months_back(today.year(), today.month(), k));
        k = k + 1;
        assert(texts(all@) =~= before.push(b[k - 1]));
        assert(texts(all@) =~= a + b.take(k as int));
    }
    assert(b.take(13) =~= b);
    let keys = distinct(&all);
    let ghost list = texts(keys@);
    let mut out: Vec<String> = Vec::new();
    let mut j: usize = keys.len();
    assert(texts(out@) =~= backwards(list).take(0));
    while j > 0
        invariant
            j <= keys.len(),
            list == texts(keys@),
            list.len() == keys@.len(),
            texts(out@) == backwards(list).take(keys.len() - j),
        decreases j,
    {
        let ghost before = texts(out@);
        push_text(&mut out, keys[j - 1].clone());
        j = j - 1;
        assert(texts(out@) =~= before.push(backwards(list)[keys.len() - j - 1]));
        assert(texts(out@) =~= backwards(list).take(keys.len() - j));
    }
    assert(texts(out@) =~= backwards(list));
    out
}

// ---------------------------------------------------------------------------
// The window of all transactions

/// A month as year and number, from its text.
pub open spec fn parsed_month(month: Seq<char>) -> Option<(int, int)> {
    let parts = parts_of(month, '-');
    if parts.len() == 2 {
        match (parsed_i32(parts[0]), parsed_u32(parts[1])) {
            (Some(y), Some(m)) => Some((y as int, m as int)),
            _ => None,
        }
    } else {
        None
    }
}

/// The date where there is such a one, else another.
pub open spec fn date_or(y: int, m: int, d: int, other: Date) -> Date {
    if valid_date(y, m, d) {
        date_of(y, m, d)
    } else {
        other
    }
}

/// The last day before a month where the calendar has it, else another day.
pub open spec fn eve_of(y: int, m: int, other: Date, last: Date) -> bool {
    if valid_date(y, m, 1) {
        let first = date_of(y, m, 1);
        if in_calendar(first.number() - 1) {
            last.valid() && last.number() == first.number() - 1
        } else {
            last == first
        }
    } else {
        last == other
    }
}

/// Whether the window is that of the month: the month itself, the last 90 days where
/// its text is no month, and the last three months where there is none.
pub open spec fn review_window_of(month: Option<Seq<char>>, today: Date, from: Date, to: Date) -> bool {
    match month {
        Some(text) => match parsed_month(text) {
            Some((y, m)) => {
                &&& from == date_or(y, m, 1, today)
                &&& if m == 12 {
                    eve_of(y + 1, 1, today, to)
                } else {
                    eve_of(y, m + 1, today, to)
                }
            },
            None => from.valid() && from.number() == today.number() - 90 && to == today,
        },
        None => {
            &&& from == (if today.m() <= 2 {
                date_or(today.y() - 1, today.m() + 10, 1, today)
            } else {
                date_or(today.y(), today.m() - 2, 1, today)
            })
            &&& to == today
        },
    }
}

fn make_date_or(y: i64, m: i64, other: &Date) -> (r: Date)
    ensures
        r == date_or(y as int, m as int, 1, *other),
{
    if y < i32::MIN as i64 || y > i32::MAX as i64 || m < 0 || m > 12 {
        return *other;
    }
    match Date::from_ymd_opt(y as i32, m as u32, 1) {
        Some(d) => {
            proof {
                lemma_date_of(y as int, m as int, 1);
                crate::date::lemma_same_date(d, date_of(y as int, m as int, 1));
            }
            d
        },
        None => *other,
    }
}

fn make_eve(y: i64, m: i64, other: &Date) -> (r: Date)
    ensures
        eve_of(y as int, m as int, *other, r),
{
    if y < i32::MIN as i64 || y > i32::MAX as i64 || m < 0 || m > 12 {
        return *other;
    }
    match Date::from_ymd_opt(y as i32, m as u32, 1) {
        Some(d) => {
            proof {
                lemma_date_of(y as int, m as int, 1);
                crate::date::lemma_same_date(d, date_of(y as int, m as int, 1));
            }
            match d.plus_days(-1) {
                Some(p) => {
                    proof {
                        lemma_day_in_calendar(p);
                    }
                    p
                },
                None => d,
            }
        },
        None => *other,
    }
}

/// The window of a review of all transactions.
pub fn review_window(month: &Option<String>, today: &Date) -> (r: (Date, Date))
    requires
        in_calendar(today.number() - 90),
    ensures
        review_window_of(opt_text(*month), *today, r.0, r.1),
{
    today.known();
    match month {
        Some(text) => {
            let parts = split_all(text.as_str(), '-');
            assert(texts(parts@).len() == parts@.len());
            if parts.len() == 2 {
                assert(texts(parts@)[0] == parts@[0]@ && texts(parts@)[1] == parts@[1]@);
                match (parse_i32(parts[0].as_str()), parse_u32(parts[1].as_str())) {
                    (Some(y), Some(m)) => {
                        let from = make_date_or(y as i64, m as i64, today);
                        let to = if m == 12 {
                            make_eve(y as i64 + 1, 1, today)
                        } else {
                            make_eve(y as i64, m as i64 + 1, today)
                        };
                        return (from, to);
                    },
                    _ => {},
                }
            }
            match today.plus_days(-90) {
                Some(from) => (from, *today),
                None => (*today, *today),
            }
        },
        None => {
            let y: i64 = today.year() as i64;
            let m: i64 = today.month() as i64;
            let from = if m <= 2 {
                make_date_or(y - 1, m + 10, today)
            } else {
                make_date_or(y, m - 2, today)
            };
            (from, *today)
        },
    }
}

// ---------------------------------------------------------------------------
// The time of a transaction

/// The hour and the minute of a time of RFC 3339, as `chrono` reads it.
pub uninterp spec fn rfc3339_clock(text: Seq<char>) -> Option<(u32, u32)>;

/// `chrono`'s `DateTime::parse_from_rfc3339`, and of what it reads the hour and the
/// minute.
#[verifier::external_body]
pub(crate) fn parse_clock(text: &str) -> (r: Option<(u32, u32)>)
    ensures
        r == rfc3339_clock(text@),
        match r {
            Some((h, m)) => h < 24 && m < 60,
            None => true,
        },
{
    match chrono::DateTime::parse_from_rfc3339(text) {
        Ok(t) => Some((chrono::Timelike::hour(&t), chrono::Timelike::minute(&t))),
        Err(_) => None,
    }
}

/// The first five characters behind a separator.
pub open spec fn short_rest(s: Seq<char>, c: char) -> Option<Seq<char>> {
    match split_at_char(s, c) {
        Some((_, rest)) => Some(
            if rest.len() <= 5 {
                rest
            } else {
                rest.take(5)
            },
        ),
        None => None,
    }
}

/// The time of day in a text, from what `chrono` reads in it.
pub open spec fn time_of(s: Seq<char>, clock: Option<(u32, u32)>) -> Seq<char> {
    match clock {
        Some((h, m)) => two_digits(h as int) + seq![':'] + two_digits(m as int),
        None => match short_rest(s, 'T') {
            Some(t) => t,
            None => match short_rest(s, ' ') {
                Some(t) => t,
                None => s,
            },
        },
    }
}

fn make_short_rest(s: &str, c: char) -> (r: Option<String>)
    ensures
        opt_text(r) == short_rest(s@, c),
{
    match split_once(s, c) {
        Some((_, rest)) => {
            let v = chars(rest.as_str());
            if v.len() <= 5 {
                Some(rest)
            } else {
                let part = crate::text::slice_chars(&v, 0, 5);
                assert(v@.subrange(0, 5) =~= v@.take(5));
                Some(from_chars(&part))
            }
        },
        None => None,
    }
}

/// The time of day in a text, from what `chrono` reads in it.
pub fn time_text(value: &str, clock: Option<(u32, u32)>) -> (r: String)
    ensures
        r@ == time_of(value@, clock),
{
    match clock {
        Some((h, m)) => {
            let mut out = crate::text::padded_digits(h as u128, 2);
            out.push(':');
            append_chars(&mut out, &crate::text::padded_digits(m as u128, 2));
            assert(out@ =~= two_digits(h as int) + seq![':'] + two_digits(m as int));
            from_chars(&out)
        },
        None => match make_short_rest(value, 'T') {
            Some(t) => t,
            None => match make_short_rest(value, ' ') {
                Some(t) => t,
                None => value.to_string(),
            },
        },
    }
}

/// The time of day in a text.
pub fn review_tui_time_only(value: &str) -> (r: String)
    ensures
        r@ == time_of(value@, rfc3339_clock(value@)),
{
    let clock = parse_clock(value);
    time_text(value, clock)
}

pub open spec fn raw_date_path() -> Seq<Seq<char>> {
    seq!["raw"@, "date"@]
}

pub open spec fn purchase_date_path() -> Seq<Seq<char>> {
    seq!["raw"@, "creditCardMetadata"@, "purchaseDate"@]
}

/// The time of a transaction in the feed.
pub open spec fn raw_time(metadata: Json) -> Option<Seq<char>> {
    match text_at(metadata, raw_date_path()) {
        Some(t) => Some(t),
        None => text_at(metadata, purchase_date_path()),
    }
}

/// The time of day of a transaction, where the feed tells it.
pub fn review_tui_raw_hour(row: &TransactionRecord) -> (r: Option<String>)
    ensures
        opt_text(r) == (match raw_time(row.metadata_json) {
            Some(t) => Some(time_of(t, rfc3339_clock(t))),
            None => None,
        }),
{
    let first = ["raw", "date"];
    assert(paths(first@) =~= raw_date_path());
    let found = match metadata_text(&row.metadata_json, &first) {
        Some(t) => Some(t),
        None => {
            let second = ["raw", "creditCardMetadata", "purchaseDate"];
            assert(paths(second@) =~= purchase_date_path());
            metadata_text(&row.metadata_json, &second)
        },
    };
    match found {
        Some(t) => Some(review_tui_time_only(t.as_str())),
        None => None,
    }
}

} // verus!
