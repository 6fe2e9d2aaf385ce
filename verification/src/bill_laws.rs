//! What the bills of a month and their payments promise.

use crate::amount::{abs, exact_sum, Amount};
use crate::card_bills::{
    bill_of_tx, bill_rows, cycle_text, may_settle, on_bill_of, owner_agrees, settled_by,
    CashflowCardBillDetail,
};
use crate::cashflow::{
    arrives_on_card, content_of, gains, is_internal, losses, on_credit, CashflowCategoryGroup,
    GroupContent,
};
use crate::date::{law_shift_month_counts, month_text, Date};
use crate::month_report::{
    bill_totals, gathered, last_installment, paid_amounts, share_amounts, summary_total, tells_plan,
};
use crate::order::lemma_where_at;
use crate::places::{few, law_hundredths, law_minus_of_few_places, law_plus_of_few_places, room};
use crate::records::{opt_text, AccountRecord, TransactionRecord};
use crate::scenario::CashflowRow;
use crate::text::digits_value;
use crate::totals::{adds_exactly, gross};
use vstd::prelude::*;

verus! {

/// A purchase before the closing day falls on the bill of its month, one on that day or
/// behind it on the bill of the month after; without a closing day on that of its month.
pub proof fn law_purchase_falls_on_bill(date: Date, closing_day: Option<u32>)
    requires
        date.valid(),
    ensures
        closing_day is None ==> cycle_text(date, closing_day) == Some(month_text(date)),
        closing_day is Some && date.d() < closing_day->0 ==> cycle_text(date, closing_day) == Some(
            month_text(date),
        ),
        closing_day is Some && date.d() >= closing_day->0 ==> match cycle_text(date, closing_day) {
            Some(month) => exists|e: Date|
                {
                    &&& e.valid()
                    &&& 12 * e.y() + e.m() == 12 * date.y() + date.m() + 1
                    &&& month == #[trigger] month_text(e)
                },
            None => date.y() == crate::date::MAX_YEAR && date.m() == 12,
        },
{
    if closing_day is Some && date.d() >= closing_day->0 {
        match crate::date::shifted_month(date, 1) {
            Some(e) => {
                law_shift_month_counts(date, 1);
                assert(month_text(e) == cycle_text(date, closing_day)->0);
            },
            None => {
                let n = crate::date::month_index(date.y(), date.m()) + 1;
                assert(n % 12 + 1 >= 1 && n % 12 + 1 <= 12);
            },
        }
    }
}

/// The rows of a card's bill are those on the card, not internal and not a payment that
/// arrived, whose bill is that of the month; each once.
pub proof fn law_bill_holds_its_rows(
    rows: Seq<TransactionRecord>,
    accounts: Seq<AccountRecord>,
    internal: Seq<Seq<char>>,
    id: Seq<char>,
    month: Seq<char>,
    k: int,
)
    ensures
        bill_rows(rows, accounts, internal, id, month).contains(k) <==> {
            &&& 0 <= k < rows.len()
            &&& opt_text(rows[k].account_id) == Some(id)
            &&& on_credit(rows[k], accounts)
            &&& !is_internal(rows[k], internal)
            &&& !arrives_on_card(rows[k])
            &&& cycle_text(
                rows[k].transaction_date,
                crate::card_bills::closing_day_on(accounts, id),
            ) == Some(month)
        },
{
    let f = on_bill_of(rows, accounts, internal, id, month);
    let at = bill_rows(rows, accounts, internal, id, month);
    lemma_where_at(rows.len() as int, f);
    if at.contains(k) {
        let i = choose|i: int| 0 <= i < at.len() && at[i] == k;
        assert(f(at[i]));
    }
    if 0 <= k < rows.len() {
        assert(f(k) == (bill_of_tx(rows[k], accounts, internal) == Some((id, Some(month)))));
    }
}

/// Whether a quarter can be added to the total and taken from it without rounding.
pub open spec fn quarter_exact(total: Amount) -> bool {
    total.places() <= 26 && 125 * total.units() <= crate::amount::max_units()
}

/// Whether a payment may settle a bill by its size, its owner, and having settled no other:
/// within a quarter of the bill.
pub open spec fn could_settle(
    payment: TransactionRecord,
    owner: Seq<char>,
    total: Amount,
    used: Seq<Seq<char>>,
    accounts: Seq<AccountRecord>,
) -> bool {
    &&& 3 * total.scaled() <= 4 * abs(payment.amount.scaled()) <= 5 * total.scaled()
    &&& owner_agrees(payment, owner, accounts)
    &&& !used.contains(payment.transaction_id@)
}

/// A payment may settle a bill exactly where it is within a quarter of it, its owner
/// agrees and it settled no other.
pub proof fn law_may_settle(
    payment: TransactionRecord,
    owner: Seq<char>,
    total: Amount,
    used: Seq<Seq<char>>,
    accounts: Seq<AccountRecord>,
)
    requires
        quarter_exact(total),
    ensures
        may_settle(payment, owner, total, used, accounts) <==> could_settle(
            payment,
            owner,
            total,
            used,
            accounts,
        ),
{
    law_hundredths(total, 25);
}

/// What a bill is settled by could settle it, and of all the payments that could none lies
/// nearer to the start of the month; where nothing settles it, none could.
pub proof fn law_settled_by_nearest(
    txs: Seq<TransactionRecord>,
    at: Seq<int>,
    k: int,
    owner: Seq<char>,
    total: Amount,
    start: Date,
    used: Seq<Seq<char>>,
    accounts: Seq<AccountRecord>,
)
    requires
        quarter_exact(total),
        0 <= k <= at.len(),
    ensures
        match settled_by(txs, at, k, owner, total, start, used, accounts) {
            Some(p) => {
                &&& exists|i: int| 0 <= i < k && #[trigger] at[i] == p
                &&& could_settle(txs[p], owner, total, used, accounts)
                &&& forall|i: int|
                    0 <= i < k && could_settle(txs[#[trigger] at[i]], owner, total, used, accounts)
                        ==> days_between(txs[p], start) <= days_between(txs[at[i]], start)
            },
            None => forall|i: int|
                0 <= i < k ==> !could_settle(txs[#[trigger] at[i]], owner, total, used, accounts),
        },
    decreases k,
{
    if k > 0 {
        law_settled_by_nearest(txs, at, k - 1, owner, total, start, used, accounts);
        law_may_settle(txs[at[k - 1]], owner, total, used, accounts);
        let before = settled_by(txs, at, k - 1, owner, total, start, used, accounts);
        if let Some(p) = before {
            let i = choose|i: int| 0 <= i < k - 1 && #[trigger] at[i] == p;
            assert(at[i] == p);
        }
        assert(at[k - 1] == at[k - 1]);
    }
}

/// How many days lie between a payment and a day.
pub open spec fn days_between(tx: TransactionRecord, day: Date) -> int {
    let d = tx.transaction_date.number() - day.number();
    if d < 0 {
        -d
    } else {
        d
    }
}

// ---------------------------------------------------------------------------
// The summary of a month's bills

/// The bills come to what was paid for them, added up, where anything was; else to what
/// they ask. What was not paid does not count as paid.
pub proof fn law_summary_total(bills: Seq<CashflowCardBillDetail>)
    requires
        adds_exactly(paid_amounts(bills)),
        adds_exactly(bill_totals(bills)),
    ensures
        (exists|i: int| 0 <= i < bills.len() && (#[trigger] bills[i]).paid_amount.scaled() > 0)
            ==> summary_total(bills).scaled() == paid_sum(bills),
        (forall|i: int| 0 <= i < bills.len() ==> (#[trigger] bills[i]).paid_amount.scaled() <= 0)
            ==> summary_total(bills).scaled() == asked_sum(bills),
{
    lemma_paid(bills);
    lemma_asked(bills);
}

/// What was paid for bills, counted in the smallest step.
pub open spec fn paid_sum(bills: Seq<CashflowCardBillDetail>) -> int
    decreases bills.len(),
{
    if bills.len() == 0 {
        0
    } else {
        let paid = bills.last().paid_amount.scaled();
        paid_sum(bills.drop_last()) + (if paid > 0 {
            paid
        } else {
            0
        })
    }
}

/// What bills ask, counted in the smallest step.
pub open spec fn asked_sum(bills: Seq<CashflowCardBillDetail>) -> int
    decreases bills.len(),
{
    if bills.len() == 0 {
        0
    } else {
        asked_sum(bills.drop_last()) + bills.last().bill_total.scaled()
    }
}

proof fn lemma_paid(bills: Seq<CashflowCardBillDetail>)
    ensures
        exact_sum(paid_amounts(bills)) == paid_sum(bills),
        paid_sum(bills) >= 0,
        paid_sum(bills) > 0 <==> exists|i: int|
            0 <= i < bills.len() && (#[trigger] bills[i]).paid_amount.scaled() > 0,
    decreases bills.len(),
{
    if bills.len() > 0 {
        let t = bills.drop_last();
        lemma_paid(t);
        let last = bills.len() - 1;
        let all = paid_amounts(bills);
        assert(bills[last] == bills.last());
        if bills.last().paid_amount.scaled() > 0 {
            assert(all.drop_last() =~= paid_amounts(t));
        }
        if paid_sum(t) > 0 {
            let i = choose|i: int| 0 <= i < t.len() && (#[trigger] t[i]).paid_amount.scaled() > 0;
            assert(bills[i] == t[i]);
        }
        if exists|i: int| 0 <= i < bills.len() && (#[trigger] bills[i]).paid_amount.scaled() > 0 {
            let i = choose|i: int|
                0 <= i < bills.len() && (#[trigger] bills[i]).paid_amount.scaled() > 0;
            if i < last {
                assert(t[i] == bills[i]);
            }
        }
    }
}

proof fn lemma_asked(bills: Seq<CashflowCardBillDetail>)
    ensures
        exact_sum(bill_totals(bills)) == asked_sum(bills),
    decreases bills.len(),
{
    if bills.len() > 0 {
        lemma_asked(bills.drop_last());
        assert(bill_totals(bills).drop_last() =~= bill_totals(bills.drop_last()));
    }
}

/// What is planned of a month comes to what its groups come to.
pub proof fn law_plan_comes_to_groups(
    month: Seq<char>,
    r: CashflowRow,
    groups: Seq<CashflowCategoryGroup>,
    p: nat,
)
    requires
        tells_plan(month, r, groups),
        forall|i: int| 0 <= i < groups.len() ==> (#[trigger] groups[i]).subtotal.in_range(),
        adds_exactly(gains(groups)),
        adds_exactly(losses(groups)),
        few(r.income, p),
        few(r.expenses, p),
        abs(r.income.scaled()) + abs(r.expenses.scaled()) <= room(p),
    ensures
        r.net.scaled() == exact_sum(crate::cash_laws::subtotals(groups)),
        r.net.scaled() == r.income.scaled() - r.expenses.scaled(),
{
    crate::cash_laws::law_gains_less_losses(groups);
    law_minus_of_few_places(r.income, r.expenses, p);
}

/// What the shares of a category come to, counted in the smallest step.
pub open spec fn share_sum(shares: Seq<(Seq<char>, GroupContent)>, key: Seq<char>) -> int
    decreases shares.len(),
{
    if shares.len() == 0 {
        0
    } else {
        share_sum(shares.drop_last(), key) + (if shares.last().0 == key {
            shares.last().1.subtotal.scaled()
        } else {
            0
        })
    }
}

/// Shares gathered by category come to what the shares of each category come to.
pub proof fn law_gathered_shares(shares: Seq<(Seq<char>, GroupContent)>, key: Seq<char>, p: nat)
    requires
        p <= 28,
        forall|i: int| 0 <= i < shares.len() ==> few((#[trigger] shares[i]).1.subtotal, p),
        gross(share_amounts(shares)) <= room(p),
    ensures
        content_of(gathered(shares), key).subtotal.scaled() == share_sum(shares, key),
        few(content_of(gathered(shares), key).subtotal, p),
        abs(share_sum(shares, key)) <= gross(share_amounts(shares)),
    decreases shares.len(),
{
    crate::places::lemma_zero();
    if shares.len() > 0 {
        let t = shares.drop_last();
        assert forall|i: int| 0 <= i < t.len() implies few((#[trigger] t[i]).1.subtotal, p) by {
            assert(t[i] == shares[i]);
        }
        assert(share_amounts(shares).drop_last() =~= share_amounts(t));
        let last = shares[shares.len() - 1];
        assert(share_amounts(shares).last() == last.1.subtotal);
        law_gathered_shares(t, key, p);
        if last.0 == key {
            law_plus_of_few_places(content_of(gathered(t), key).subtotal, last.1.subtotal, p);
        }
    }
}

/// A marker is that of the last installment exactly where the number before the slash is
/// the number behind it, and not zero.
pub proof fn law_last_installment(marker: Seq<char>, i: int)
    requires
        0 < i < marker.len() - 1,
        marker[i] == '/',
        crate::text::all_digits(marker.take(i)),
        crate::text::all_digits(marker.skip(i + 1)),
        digits_value(marker.take(i)) <= u32::MAX,
        digits_value(marker.skip(i + 1)) <= u32::MAX,
    ensures
        last_installment(marker) <==> 0 < digits_value(marker.take(i)) && digits_value(
            marker.take(i),
        ) == digits_value(marker.skip(i + 1)),
{
    assert forall|j: int| 0 <= j < i implies marker[j] != '/' by {
        assert(marker.take(i)[j] == marker[j]);
    }
    crate::text::lemma_first_index_unique(marker, '/', i);
    assert(marker.take(i)[0] != '+');
    assert(marker.skip(i + 1)[0] != '+');
}

} // verus!
