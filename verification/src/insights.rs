//! What a closed month tells about the cards.

use crate::amount::{abs, limit, minus, Amount};
use crate::cards::{copy_amounts, row_amounts};
use crate::date::{
    date_of, default_closed_cards_month, iso_text, month_ref_for, month_start, month_text, parse_month_ref,
    shift_month, shifted_month, Date,
};
use crate::order::{sort, sorted, where_at, Ranked};
use crate::records::{
    detect_installment_marker, is_open_card_payment_status, is_subscription_row, merchant_key,
    merchant_key_for_card_row, open_status, row_marker, subscription, CardClosedTransactionRow,
};
use crate::sums::full_weight;
use crate::tally::{key_views, tallied, tally, Tally, TallyKey};
use crate::text::{
    lemma_precedes_asymmetric, lemma_precedes_total, lemma_precedes_transitive, less, precedes,
    same,
};
use vstd::prelude::*;

verus! {

/// What a card comes to in a month.
pub struct CardSummaryRow {
    pub month_ref: String,
    pub account_id: String,
    pub total_charges: Amount,
    pub open_amount: Amount,
}

/// The closed part of a card's month.
pub struct CardClosedAccountInsight {
    pub account_id: String,
    pub total_charges: Amount,
    pub open_amount: Amount,
    pub closed_amount: Amount,
    pub closed_transactions: usize,
}

impl Ranked for CardClosedAccountInsight {
    /// The larger closed amount first; equal amounts by account.
    open spec fn le(a: Self, b: Self) -> bool {
        a.closed_amount.scaled() > b.closed_amount.scaled() || (a.closed_amount.scaled()
            == b.closed_amount.scaled() && !precedes(b.account_id@, a.account_id@))
    }

    proof fn le_total(a: Self, b: Self) {
        if precedes(b.account_id@, a.account_id@) {
            lemma_precedes_asymmetric(b.account_id@, a.account_id@);
        }
    }

    proof fn le_transitive(a: Self, b: Self, c: Self) {
        let (x, y, z) = (a.account_id@, b.account_id@, c.account_id@);
        if precedes(z, x) {
            lemma_precedes_total(x, y);
            if precedes(x, y) {
                lemma_precedes_transitive(z, x, y);
            }
        }
    }

    fn may_precede(&self, other: &Self) -> (r: bool) {
        if other.closed_amount.is_less(&self.closed_amount) {
            true
        } else if self.closed_amount.is_less(&other.closed_amount) {
            false
        } else {
            !less(other.account_id.as_str(), self.account_id.as_str())
        }
    }
}

/// A merchant met in more than one month.
pub struct CardClosedRecurringInsight {
    pub tally: Tally,
    pub months_detected: usize,
}

pub struct CardClosedInsightsOutput {
    pub month_ref: String,
    pub accounts: Vec<CardClosedAccountInsight>,
    pub categories: Vec<Tally>,
    pub recurring: Vec<CardClosedRecurringInsight>,
    pub subscriptions: Vec<Tally>,
    pub closed_installments: Vec<Tally>,
    pub open_installments: Vec<Tally>,
}

// ---------------------------------------------------------------------------
// Months

/// The month that insights are about: the given one, else the month before today's.
pub open spec fn target_of(month: Option<&str>, today: Date) -> Option<Seq<char>> {
    match month {
        Some(m) => Some(m@),
        None => match shifted_month(today, -1) {
            Some(d) => Some(month_text(d)),
            None => None,
        },
    }
}

/// The months that the insights of a month look at: the month itself, then the two
/// before it.
pub fn insight_months(month: Option<&str>, today: &Date) -> (r: Result<Vec<String>, String>)
    ensures
        ({
            match r {
                Ok(v) => {
                    &&& v@.len() == 3
                    &&& target_of(month, *today) == Some(v@[0]@)
                    &&& exists|d: Date|
                        {
                            &&& d.valid()
                            &&& month_start(v@[0]@) == Some((d.y(), d.m(), d.d()))
                            &&& #[trigger] shifted_month(d, -1) is Some
                            &&& shifted_month(d, -2) is Some
                            &&& v@[1]@ == month_text(shifted_month(d, -1)->0)
                            &&& v@[2]@ == month_text(shifted_month(d, -2)->0)
                        }
                },
                Err(e) => match target_of(month, *today) {
                    None => e@ == "Falha ao calcular mês deslocado a partir de "@ + iso_text(
                        date_of(today.y(), today.m(), 1),
                    ),
                    Some(t) => (month_start(t) is None && e@ == "month inválido: "@ + t
                        + " (esperado YYYY-MM)"@) || exists|d: Date|
                        {
                            &&& d.valid()
                            &&& month_start(t) == Some((d.y(), d.m(), d.d()))
                            &&& (#[trigger] shifted_month(d, -1) is None || shifted_month(
                                d,
                                -2,
                            ) is None)
                            &&& e@ == "Falha ao calcular mês deslocado a partir de "@ + iso_text(d)
                        },
                },
            }
        }),
{
    let target = match month {
        Some(m) => m.to_string(),
        None => match default_closed_cards_month(today) {
            Ok(t) => t,
            Err(e) => {
                return Err(e);
            },
        },
    };
    let first = match parse_month_ref(target.as_str()) {
        Ok(d) => d,
        Err(e) => {
            return Err(e);
        },
    };
    let ghost d = first;
    let mut out: Vec<String> = Vec::new();
    out.push(target);
    match shift_month(&first, -1) {
        Ok(m) => {
            out.push(month_ref_for(&m));
        },
        Err(e) => {
            assert(shifted_month(d, -1) is None);
            return Err(e);
        },
    }
    assert(shifted_month(d, -1) is Some);
    match shift_month(&first, -2) {
        Ok(m) => {
            out.push(month_ref_for(&m));
        },
        Err(e) => {
            return Err(e);
        },
    }
    Ok(out)
}

// ---------------------------------------------------------------------------
// Keys

/// What rows are counted by.
pub enum InsightKind {
    Category,
    Recurring,
    Subscription,
    Installment,
    OpenInstallment,
}

pub open spec fn merchants_of(rows: Seq<CardClosedTransactionRow>) -> Seq<Seq<char>> {
    rows.map_values(|row: CardClosedTransactionRow| merchant_key(row))
}

/// In how many of the first `n` months the merchant occurs.
pub open spec fn months_with(
    months: Seq<Vec<CardClosedTransactionRow>>,
    n: int,
    merchant: Seq<char>,
) -> nat
    decreases n,
{
    if n <= 0 {
        0
    } else {
        months_with(months, n - 1, merchant) + (if merchants_of(months[n - 1]@).contains(merchant) {
            1nat
        } else {
            0nat
        })
    }
}

/// In how many months the merchant occurs.
pub open spec fn months_detected(
    months: Seq<Vec<CardClosedTransactionRow>>,
    merchant: Seq<char>,
) -> nat {
    months_with(months, months.len() as int, merchant)
}

/// The key under which a row is counted: its category; its merchant where that
/// occurs in two months or more; its merchant where it is a subscription; its
/// merchant and marker where it is an installment, or an open one.
pub open spec fn insight_key(
    kind: InsightKind,
    row: CardClosedTransactionRow,
    months: Seq<Vec<CardClosedTransactionRow>>,
) -> Option<(Seq<char>, Seq<char>)> {
    let merchant = merchant_key(row);
    let nothing = Seq::<char>::empty();
    match kind {
        InsightKind::Category => Some(
            (
                match row.category_id {
                    Some(c) => c@,
                    None => "sem-categoria"@,
                },
                nothing,
            ),
        ),
        InsightKind::Recurring => if months_detected(months, merchant) >= 2 {
            Some((merchant, nothing))
        } else {
            None
        },
        InsightKind::Subscription => if subscription(row) {
            Some((merchant, nothing))
        } else {
            None
        },
        InsightKind::Installment => match row_marker(row) {
            Some(m) => Some((merchant, m)),
            None => None,
        },
        InsightKind::OpenInstallment => match row_marker(row) {
            Some(m) if open_status(row.payment_status@) => Some((merchant, m)),
            _ => None,
        },
    }
}

pub open spec fn insight_keys(
    kind: InsightKind,
    rows: Seq<CardClosedTransactionRow>,
    months: Seq<Vec<CardClosedTransactionRow>>,
) -> Seq<Option<(Seq<char>, Seq<char>)>> {
    rows.map_values(|row: CardClosedTransactionRow| insight_key(kind, row, months))
}

fn merchant_occurs(rows: &Vec<CardClosedTransactionRow>, merchant: &str) -> (r: bool)
    ensures
        r == merchants_of(rows@).contains(merchant@),
{
    let mut i: usize = 0;
    while i < rows.len()
        invariant
            i <= rows.len(),
            forall|j: int| 0 <= j < i ==> #[trigger] merchants_of(rows@)[j] != merchant@,
        decreases rows.len() - i,
    {
        let key = merchant_key_for_card_row(&rows[i]);
        assert(merchants_of(rows@)[i as int] == key@);
        if same(key.as_str(), merchant) {
            return true;
        }
        i = i + 1;
    }
    false
}

/// In how many months the merchant occurs.
pub fn count_months(months: &Vec<Vec<CardClosedTransactionRow>>, merchant: &str) -> (r: usize)
    ensures
        r == months_detected(months@, merchant@),
        r <= months@.len(),
{
    let mut n: usize = 0;
    let mut i: usize = 0;
    while i < months.len()
        invariant
            i <= months.len(),
            n <= i,
            n == months_with(months@, i as int, merchant@),
        decreases months.len() - i,
    {
        if merchant_occurs(&months[i], merchant) {
            n = n + 1;
        }
        i = i + 1;
    }
    n
}

fn find_key(
    kind: &InsightKind,
    row: &CardClosedTransactionRow,
    months: &Vec<Vec<CardClosedTransactionRow>>,
) -> (r: Option<TallyKey>)
    ensures
        match r {
            Some(k) => insight_key(*kind, *row, months@) == Some(k@),
            None => insight_key(*kind, *row, months@) is None,
        },
{
    match kind {
        InsightKind::Category => {
            let name = match &row.category_id {
                Some(c) => c.clone(),
                None => "sem-categoria".to_string(),
            };
            let k = TallyKey { name, part: String::new() };
            assert(k@.1 =~= Seq::<char>::empty());
            Some(k)
        },
        InsightKind::Recurring => {
            let merchant = merchant_key_for_card_row(row);
            if count_months(months, merchant.as_str()) >= 2 {
                let k = TallyKey { name: merchant, part: String::new() };
                assert(k@.1 =~= Seq::<char>::empty());
                Some(k)
            } else {
                None
            }
        },
        InsightKind::Subscription => if is_subscription_row(row) {
            let k = TallyKey { name: merchant_key_for_card_row(row), part: String::new() };
            assert(k@.1 =~= Seq::<char>::empty());
            Some(k)
        } else {
            None
        },
        InsightKind::Installment => match detect_installment_marker(row) {
            Some(m) => Some(TallyKey { name: merchant_key_for_card_row(row), part: m }),
            None => None,
        },
        InsightKind::OpenInstallment => {
            if !is_open_card_payment_status(row.payment_status.as_str()) {
                return None;
            }
            match detect_installment_marker(row) {
                Some(m) => Some(TallyKey { name: merchant_key_for_card_row(row), part: m }),
                None => None,
            }
        },
    }
}

/// Tallies the rows of a month.
pub fn tally_rows(
    kind: InsightKind,
    rows: &Vec<CardClosedTransactionRow>,
    months: &Vec<Vec<CardClosedTransactionRow>>,
) -> (r: Vec<Tally>)
    requires
        full_weight(row_amounts(rows@)) <= limit(),
    ensures
        tallied(r@, insight_keys(kind, rows@, months@), row_amounts(rows@)),
{
    let ghost want = insight_keys(kind, rows@, months@);
    let mut keys: Vec<Option<TallyKey>> = Vec::new();
    let mut i: usize = 0;
    while i < rows.len()
        invariant
            i <= rows.len(),
            keys@.len() == i,
            want == insight_keys(kind, rows@, months@),
            forall|j: int| 0 <= j < i ==> #[trigger] key_views(keys@)[j] == want[j],
        decreases rows.len() - i,
    {
        let ghost before = key_views(keys@);
        let key = find_key(&kind, &rows[i], months);
        keys.push(key);
        assert forall|j: int| 0 <= j < i + 1 implies #[trigger] key_views(keys@)[j] == want[j] by {
            if j < i {
                assert(key_views(keys@)[j] == before[j]);
            }
        }
        i = i + 1;
    }
    let amounts = copy_amounts(rows);
    assert(key_views(keys@) =~= want);
    tally(&keys, &amounts)
}

/// The merchants met in two months or more.
pub open spec fn tells_recurring(
    list: Seq<CardClosedRecurringInsight>,
    rows: Seq<CardClosedTransactionRow>,
    months: Seq<Vec<CardClosedTransactionRow>>,
) -> bool {
    &&& tallied(
        list.map_values(|l: CardClosedRecurringInsight| l.tally),
        insight_keys(InsightKind::Recurring, rows, months),
        row_amounts(rows),
    )
    &&& forall|i: int|
        0 <= i < list.len() ==> (#[trigger] list[i]).months_detected == months_detected(
            months,
            list[i].tally.key.name@,
        )
}

fn recurring_merchants(
    rows: &Vec<CardClosedTransactionRow>,
    months: &Vec<Vec<CardClosedTransactionRow>>,
) -> (r: Vec<CardClosedRecurringInsight>)
    requires
        full_weight(row_amounts(rows@)) <= limit(),
    ensures
        tells_recurring(r@, rows@, months@),
{
    let mut rest = tally_rows(InsightKind::Recurring, rows, months);
    let ghost all = rest@;
    let n: usize = rest.len();
    let mut out: Vec<CardClosedRecurringInsight> = Vec::new();
    let mut i: usize = 0;
    while i < n
        invariant
            i <= n,
            n == all.len(),
            out@.len() == i,
            rest@ == all.skip(i as int),
            forall|j: int|
                0 <= j < i ==> (#[trigger] out@[j]).tally == all[j] && out@[j].months_detected
                    == months_detected(months@, all[j].key.name@),
        decreases n - i,
    {
        let tally = rest.remove(0);
        let found = count_months(months, tally.key.name.as_str());
        out.push(CardClosedRecurringInsight { tally, months_detected: found });
        i = i + 1;
        assert(rest@ =~= all.skip(i as int));
    }
    assert(out@.map_values(|l: CardClosedRecurringInsight| l.tally) =~= all);
    out
}

// ---------------------------------------------------------------------------
// Cards

/// The rows of an account.
pub open spec fn of_account(
    rows: Seq<CardClosedTransactionRow>,
    account: Seq<char>,
) -> spec_fn(int) -> bool {
    |i: int| rows[i].account_id@ == account
}

pub open spec fn closed_count(rows: Seq<CardClosedTransactionRow>, account: Seq<char>) -> nat {
    where_at(rows.len() as int, of_account(rows, account)).len()
}

/// The closed part of a card's month: what was charged less what is open, and how
/// many closed transactions the card has.
pub open spec fn account_insight(
    row: CardSummaryRow,
    closed: Seq<CardClosedTransactionRow>,
) -> CardClosedAccountInsight {
    CardClosedAccountInsight {
        account_id: row.account_id,
        total_charges: row.total_charges,
        open_amount: row.open_amount,
        closed_amount: minus(row.total_charges, row.open_amount),
        closed_transactions: closed_count(closed, row.account_id@) as usize,
    }
}

pub open spec fn account_insights(
    rows: Seq<CardSummaryRow>,
    closed: Seq<CardClosedTransactionRow>,
) -> Seq<CardClosedAccountInsight> {
    sorted(rows.map_values(|row: CardSummaryRow| account_insight(row, closed)))
}

fn count_closed(rows: &Vec<CardClosedTransactionRow>, account: &str) -> (r: usize)
    ensures
        r == closed_count(rows@, account@),
{
    let mut n: usize = 0;
    let mut i: usize = 0;
    while i < rows.len()
        invariant
            i <= rows.len(),
            n <= i,
            n == where_at(i as int, of_account(rows@, account@)).len(),
        decreases rows.len() - i,
    {
        if same(rows[i].account_id.as_str(), account) {
            n = n + 1;
        }
        i = i + 1;
    }
    n
}

fn closed_accounts(
    rows: &Vec<CardSummaryRow>,
    closed: &Vec<CardClosedTransactionRow>,
) -> (r: Vec<CardClosedAccountInsight>)
    requires
        forall|i: int|
            0 <= i < rows@.len() ==> abs(
                (#[trigger] rows@[i]).total_charges.scaled() - rows@[i].open_amount.scaled(),
            ) <= limit(),
    ensures
        r@ == account_insights(rows@, closed@),
{
    let ghost want = rows@.map_values(|row: CardSummaryRow| account_insight(row, closed@));
    let mut out: Vec<CardClosedAccountInsight> = Vec::new();
    let mut i: usize = 0;
    while i < rows.len()
        invariant
            i <= rows.len(),
            forall|k: int|
                0 <= k < rows@.len() ==> abs(
                    (#[trigger] rows@[k]).total_charges.scaled() - rows@[k].open_amount.scaled(),
                ) <= limit(),
            want == rows@.map_values(|row: CardSummaryRow| account_insight(row, closed@)),
            out@ == want.take(i as int),
        decreases rows.len() - i,
    {
        let row = &rows[i];
        let line = CardClosedAccountInsight {
            account_id: row.account_id.clone(),
            total_charges: row.total_charges,
            open_amount: row.open_amount,
            closed_amount: row.total_charges.subtracted(&row.open_amount),
            closed_transactions: count_closed(closed, row.account_id.as_str()),
        };
        assert(line == want[i as int]);
        out.push(line);
        i = i + 1;
        assert(out@ =~= want.take(i as int));
    }
    assert(out@ =~= want);
    sort(out)
}

/// What the closed month tells: of each card, category, subscription and
/// installment plan, and of the merchants that occur in more than one of the months.
/// The month's own closed rows are the first of `months`; `reportable` holds the rows
/// that still count toward the bill.
pub fn card_closed_insights(
    month_ref: &str,
    cards: &Vec<CardSummaryRow>,
    months: &Vec<Vec<CardClosedTransactionRow>>,
    reportable: &Vec<CardClosedTransactionRow>,
) -> (r: CardClosedInsightsOutput)
    requires
        months@.len() > 0,
        full_weight(row_amounts(months@[0]@)) <= limit(),
        full_weight(row_amounts(reportable@)) <= limit(),
        forall|i: int|
            0 <= i < cards@.len() ==> abs(
                (#[trigger] cards@[i]).total_charges.scaled() - cards@[i].open_amount.scaled(),
            ) <= limit(),
    ensures
        ({
            let closed = months@[0]@;
            let amounts = row_amounts(closed);
            &&& r.month_ref@ == month_ref@
            &&& r.accounts@ == account_insights(cards@, closed)
            &&& tallied(
                r.categories@,
                insight_keys(InsightKind::Category, closed, months@),
                amounts,
            )
            &&& tells_recurring(r.recurring@, closed, months@)
            &&& tallied(
                r.subscriptions@,
                insight_keys(InsightKind::Subscription, closed, months@),
                amounts,
            )
            &&& tallied(
                r.closed_installments@,
                insight_keys(InsightKind::Installment, closed, months@),
                amounts,
            )
            &&& tallied(
                r.open_installments@,
                insight_keys(InsightKind::OpenInstallment, reportable@, months@),
                row_amounts(reportable@),
            )
        }),
{
    let closed = &months[0];
    CardClosedInsightsOutput {
        month_ref: month_ref.to_string(),
        accounts: closed_accounts(cards, closed),
        categories: tally_rows(InsightKind::Category, closed, months),
        recurring: recurring_merchants(closed, months),
        subscriptions: tally_rows(InsightKind::Subscription, closed, months),
        closed_installments: tally_rows(InsightKind::Installment, closed, months),
        open_installments: tally_rows(InsightKind::OpenInstallment, reportable, months),
    }
}

} // verus!
