//! What learning a card's closing day and telling of its bills promise.

use crate::amount::{abs, exact_sum, sum_of};
use crate::cards::{
    bills_with_rows, configured_day, configured_due_day, count_of, firsts, inferred_day, is_mode,
    latest, latest_purchase, row_amounts, shown_members, shown_totals, suggested_days, tag_ids,
    tagged, tells_bill, Bill, BillState, CardsAccountReport, CardsMode,
};
use crate::date::{law_dates_ordered_by_number, Date};
use crate::metadata::{closing_day_of, day_of_value, member};
use crate::places::lemma_magnitude;
use crate::records::{row_marker, AccountRecord, CardClosedTransactionRow, TransactionRecord};
use crate::seqs::{lemma_contains_last, lemma_filtered};
use crate::sums::picked;
use crate::totals::adds_exactly;
use vstd::prelude::*;

verus! {

// ---------------------------------------------------------------------------
// Closing days

proof fn lemma_count(days: Seq<int>, d: int)
    ensures
        count_of(days, d) == days.to_multiset().count(d),
    decreases days.len(),
{
    days.to_multiset_ensures();
    if days.len() > 0 {
        let t = days.drop_last();
        lemma_count(t, d);
        t.to_multiset_ensures();
        assert(days =~= t.push(days.last()));
        assert(days.to_multiset() =~= t.to_multiset().insert(days.last()));
    }
}

proof fn lemma_mode_exists(days: Seq<int>, n: int) -> (d: int)
    requires
        0 < n <= days.len(),
    ensures
        exists|i: int| 0 <= i < n && #[trigger] days[i] == d,
        forall|i: int|
            0 <= i < n ==> count_of(days, #[trigger] days[i]) < count_of(days, d) || (count_of(
                days,
                days[i],
            ) == count_of(days, d) && d <= days[i]),
    decreases n,
{
    if n == 1 {
        assert(days[0] == days[0]);
        days[0]
    } else {
        let d = lemma_mode_exists(days, n - 1);
        let e = days[n - 1];
        let i = choose|i: int| 0 <= i < n - 1 && #[trigger] days[i] == d;
        if count_of(days, e) > count_of(days, d) || (count_of(days, e) == count_of(days, d) && e
            < d) {
            assert(days[n - 1] == e);
            e
        } else {
            assert(days[i] == d);
            d
        }
    }
}

/// The closing day that tagged bills suggest is suggested by one of them; no day is
/// suggested more often, and none as often that comes earlier in the month. Fewer than two
/// bills suggest none.
pub proof fn law_inferred_day(rows: Seq<CardClosedTransactionRow>, account: Seq<char>, e: int)
    ensures
        ({
            let days = suggested_days(tagged(rows, account));
            match inferred_day(rows, account) {
                Some(d) => {
                    &&& days.len() >= 2
                    &&& days.contains(d)
                    &&& days.to_multiset().count(e) <= days.to_multiset().count(d)
                    &&& days.to_multiset().count(e) == days.to_multiset().count(d) ==> d <= e
                },
                None => days.len() < 2,
            }
        }),
{
    let days = suggested_days(tagged(rows, account));
    if days.len() >= 2 {
        let d = lemma_mode_exists(days, days.len() as int);
        let i = choose|i: int| 0 <= i < days.len() && #[trigger] days[i] == d;
        assert(is_mode(days, d)) by {
            lemma_counted(days, d);
            assert(days.contains(days[i]));
            assert forall|x: int|
                (#[trigger] count_of(days, x)) < count_of(days, d) || (count_of(days, x)
                    == count_of(days, d) && d <= x) by {
                lemma_counted(days, x);
                if days.contains(x) {
                    let k = choose|k: int| 0 <= k < days.len() && days[k] == x;
                    assert(count_of(days, days[k]) == count_of(days, x));
                }
            }
        }
        let got = inferred_day(rows, account)->0;
        assert(is_mode(days, got));
        lemma_counted(days, got);
        lemma_count(days, got);
        lemma_count(days, e);
        assert(count_of(days, e) < count_of(days, got) || (count_of(days, e) == count_of(days, got)
            && got <= e));
    }
}

proof fn lemma_counted(days: Seq<int>, d: int)
    ensures
        count_of(days, d) > 0 <==> days.contains(d),
    decreases days.len(),
{
    if days.len() > 0 {
        lemma_counted(days.drop_last(), d);
        lemma_contains_last(days, d);
    }
}

/// A bill suggests the day two days after its last purchase, at most the twenty-eighth; each
/// bill suggests one day.
pub proof fn law_bills_suggest_days(tags: Seq<(Seq<char>, Date)>, i: int)
    requires
        0 <= i < suggested_days(tags).len(),
        latest(tags, firsts(tag_ids(tags))[i]) is Some,
        latest(tags, firsts(tag_ids(tags))[i])->0.valid(),
    ensures
        suggested_days(tags).len() == firsts(tag_ids(tags)).len(),
        ({
            let last = latest(tags, firsts(tag_ids(tags))[i])->0;
            let day = suggested_days(tags)[i];
            &&& 1 <= day <= 28
            &&& last.d() <= 26 ==> day == last.d() + 2
            &&& last.d() > 26 ==> day == 28
        }),
{
}

/// The texts without repetition are the texts, none of them twice.
pub proof fn law_firsts(keys: Seq<Seq<char>>, key: Seq<char>)
    ensures
        firsts(keys).no_duplicates(),
        firsts(keys).contains(key) <==> keys.contains(key),
    decreases keys.len(),
{
    if keys.len() > 0 {
        let t = keys.drop_last();
        law_firsts(t, key);
        lemma_contains_last(keys, key);
        let (a, b) = (firsts(t), firsts(keys));
        if b.len() > a.len() {
            assert(b.drop_last() =~= a);
            lemma_contains_last(b, key);
            assert forall|i: int, j: int|
                0 <= i < b.len() && 0 <= j < b.len() && i != j implies b[i] != b[j] by {
                if i < a.len() && j < a.len() {
                    assert(a[i] == b[i] && a[j] == b[j]);
                } else if i < a.len() {
                    assert(a[i] == b[i]);
                    assert(a.contains(a[i]));
                } else {
                    assert(a[j] == b[j]);
                    assert(a.contains(a[j]));
                }
            }
        } else {
            law_firsts(t, keys.last());
        }
    }
}

/// The configured closing day is that of a record of the account, and no later record of
/// the account has one; the same of the due day.
pub proof fn law_configured_days(accounts: Seq<AccountRecord>, account: Seq<char>)
    ensures
        configured_day(accounts, account) matches Some(d) ==> exists|i: int|
            {
                &&& 0 <= i < accounts.len()
                &&& (#[trigger] accounts[i]).account_id@ == account
                &&& closing_day_of(accounts[i].metadata_json) == Some(d)
                &&& forall|j: int|
                    i < j < accounts.len() && (#[trigger] accounts[j]).account_id@ == account
                        ==> closing_day_of(accounts[j].metadata_json) is None
            },
        configured_day(accounts, account) is None ==> forall|j: int|
            0 <= j < accounts.len() && (#[trigger] accounts[j]).account_id@ == account
                ==> closing_day_of(accounts[j].metadata_json) is None,
        configured_due_day(accounts, account) matches Some(d) ==> exists|i: int|
            {
                &&& 0 <= i < accounts.len()
                &&& (#[trigger] accounts[i]).account_id@ == account
                &&& day_of_value(member(accounts[i].metadata_json, "billing_due_day"@)) == Some(d)
            },
    decreases accounts.len(),
{
    if accounts.len() > 0 {
        let t = accounts.drop_last();
        let last = accounts.len() - 1;
        law_configured_days(t, account);
        assert(accounts[last] == accounts.last());
        if accounts[last].account_id@ == account && closing_day_of(
            accounts[last].metadata_json,
        ) is Some {
        } else if configured_day(t, account) is Some {
            let d = configured_day(t, account)->0;
            let i = choose|i: int|
                {
                    &&& 0 <= i < t.len()
                    &&& (#[trigger] t[i]).account_id@ == account
                    &&& closing_day_of(t[i].metadata_json) == Some(d)
                    &&& forall|j: int|
                        i < j < t.len() && (#[trigger] t[j]).account_id@ == account
                            ==> closing_day_of(t[j].metadata_json) is None
                };
            assert(accounts[i] == t[i]);
            assert forall|j: int|
                i < j < accounts.len() && (#[trigger] accounts[j]).account_id@ == account implies closing_day_of(
                accounts[j].metadata_json,
            ) is None by {
                if j < last {
                    assert(t[j] == accounts[j]);
                }
            }
        } else {
            assert forall|j: int|
                0 <= j < accounts.len() && (#[trigger] accounts[j]).account_id@ == account implies closing_day_of(
                accounts[j].metadata_json,
            ) is None by {
                if j < last {
                    assert(t[j] == accounts[j]);
                }
            }
        }
        if let Some(d) = configured_due_day(t, account) {
            let i = choose|i: int|
                {
                    &&& 0 <= i < t.len()
                    &&& (#[trigger] t[i]).account_id@ == account
                    &&& day_of_value(member(t[i].metadata_json, "billing_due_day"@)) == Some(d)
                };
            assert(accounts[i] == t[i]);
        }
    }
}

// ---------------------------------------------------------------------------
// Telling of bills

/// The rows of a bill that are shown are its rows, or those of them that are installments.
pub proof fn law_shown_members(
    rows: Seq<CardClosedTransactionRow>,
    members: Seq<int>,
    k: int,
)
    ensures
        shown_members(rows, members, false).contains(k) <==> members.contains(k),
        shown_members(rows, members, true).contains(k) <==> members.contains(k) && row_marker(
            rows[k],
        ) is Some,
{
    lemma_filtered(members, |i: int| row_marker(rows[i]) is Some, k);
}

/// A line of a report tells of its account, counts the rows that are shown, and comes to
/// what they come to without the sign; a bill that is called paid tells the day of its
/// payment, and no other does.
pub proof fn law_line_tells_bill(
    line: CardsAccountReport,
    b: Bill,
    accounts: Seq<AccountRecord>,
    rows: Seq<CardClosedTransactionRow>,
    payments: Seq<TransactionRecord>,
    mode: CardsMode,
    today: Date,
    installments_only: bool,
)
    requires
        tells_bill(line, b, accounts, rows, payments, mode, today, installments_only),
        adds_exactly(
            picked(row_amounts(rows), shown_members(rows, b.members, installments_only)),
        ),
        sum_of(
            picked(row_amounts(rows), shown_members(rows, b.members, installments_only)),
        ).in_range(),
    ensures
        line.account_id@ == b.account,
        line.transaction_count == shown_members(rows, b.members, installments_only).len(),
        line.status.total.scaled() == abs(
            exact_sum(picked(row_amounts(rows), shown_members(rows, b.members, installments_only))),
        ),
        line.status.close_date == (match b.close_date {
            Some(d) => d,
            None => b.max_date,
        }),
        line.status.paid_on is Some <==> line.status.state == BillState::Paid,
{
    lemma_magnitude(
        sum_of(picked(row_amounts(rows), shown_members(rows, b.members, installments_only))),
    );
}

/// The latest purchase of some bills is that of one of them, and none has a later one.
pub proof fn law_latest_purchase(bills: Seq<Bill>, j: int)
    requires
        0 <= j < bills.len(),
        forall|i: int| 0 <= i < bills.len() ==> (#[trigger] bills[i]).max_date.valid(),
    ensures
        latest_purchase(bills) is Some,
        bills[j].max_date.number() <= latest_purchase(bills)->0.number(),
        exists|i: int|
            0 <= i < bills.len() && (#[trigger] bills[i]).max_date == latest_purchase(bills)->0,
    decreases bills.len(),
{
    let t = bills.drop_last();
    let last = bills.len() - 1;
    assert(bills[last] == bills.last());
    if t.len() > 0 {
        assert forall|i: int| 0 <= i < t.len() implies (#[trigger] t[i]).max_date.valid() by {
            assert(t[i] == bills[i]);
        }
        law_latest_purchase(t, if j < last { j } else { 0 });
        let i = choose|i: int|
            0 <= i < t.len() && (#[trigger] t[i]).max_date == latest_purchase(t)->0;
        assert(bills[i] == t[i]);
        if j < last {
            assert(t[j] == bills[j]);
        }
        law_dates_ordered_by_number(latest_purchase(t)->0, bills[last].max_date);
        assert(bills[i].max_date == latest_purchase(bills)->0 || bills[last].max_date
            == latest_purchase(bills)->0);
    } else {
        assert(latest_purchase(t) is None);
        assert(bills[last].max_date == latest_purchase(bills)->0);
    }
}

/// A bill is left out only where installments alone are shown and it has none.
pub proof fn law_bills_with_rows(
    bills: Seq<Bill>,
    rows: Seq<CardClosedTransactionRow>,
    installments_only: bool,
    b: Bill,
)
    ensures
        bills_with_rows(bills, rows, installments_only).contains(b) <==> bills.contains(b) && (
        !installments_only || exists|k: int| #[trigger]
            b.members.contains(k) && row_marker(rows[k]) is Some),
{
    let f = |b: Bill|
        !installments_only || shown_members(rows, b.members, installments_only).len() > 0;
    lemma_filtered(bills, f, b);
    let shown = shown_members(rows, b.members, true);
    if shown.len() > 0 {
        law_shown_members(rows, b.members, shown[0]);
        assert(shown.contains(shown[0]));
    }
    if exists|k: int| #[trigger] b.members.contains(k) && row_marker(rows[k]) is Some {
        let k = choose|k: int| #[trigger] b.members.contains(k) && row_marker(rows[k]) is Some;
        law_shown_members(rows, b.members, k);
        assert(shown.contains(k));
    }
}

/// The grand total of a report is what its bills come to.
pub proof fn law_grand_total(
    bills: Seq<Bill>,
    rows: Seq<CardClosedTransactionRow>,
    installments_only: bool,
)
    requires
        adds_exactly(shown_totals(bills, rows, installments_only)),
        forall|i: int|
            0 <= i < bills.len() ==> sum_of(
                picked(
                    row_amounts(rows),
                    shown_members(rows, (#[trigger] bills[i]).members, installments_only),
                ),
            ).in_range(),
    ensures
        sum_of(shown_totals(bills, rows, installments_only)).scaled() == bill_sum(
            bills,
            rows,
            installments_only,
        ),
{
    lemma_grand(bills, rows, installments_only);
}

/// What bills come to, each without its sign, counted in the smallest step.
pub open spec fn bill_sum(
    bills: Seq<Bill>,
    rows: Seq<CardClosedTransactionRow>,
    installments_only: bool,
) -> int
    decreases bills.len(),
{
    if bills.len() == 0 {
        0
    } else {
        bill_sum(bills.drop_last(), rows, installments_only) + abs(
            sum_of(
                picked(
                    row_amounts(rows),
                    shown_members(rows, bills.last().members, installments_only),
                ),
            ).scaled(),
        )
    }
}

proof fn lemma_grand(
    bills: Seq<Bill>,
    rows: Seq<CardClosedTransactionRow>,
    installments_only: bool,
)
    requires
        forall|i: int|
            0 <= i < bills.len() ==> sum_of(
                picked(
                    row_amounts(rows),
                    shown_members(rows, (#[trigger] bills[i]).members, installments_only),
                ),
            ).in_range(),
    ensures
        exact_sum(shown_totals(bills, rows, installments_only)) == bill_sum(
            bills,
            rows,
            installments_only,
        ),
    decreases bills.len(),
{
    if bills.len() > 0 {
        let t = bills.drop_last();
        assert forall|i: int| 0 <= i < t.len() implies sum_of(
            picked(
                row_amounts(rows),
                shown_members(rows, (#[trigger] t[i]).members, installments_only),
            ),
        ).in_range() by {
            assert(t[i] == bills[i]);
        }
        lemma_grand(t, rows, installments_only);
        assert(shown_totals(bills, rows, installments_only).drop_last() =~= shown_totals(
            t,
            rows,
            installments_only,
        ));
        assert(bills[bills.len() - 1] == bills.last());
        lemma_magnitude(
            sum_of(
                picked(
                    row_amounts(rows),
                    shown_members(rows, bills.last().members, installments_only),
                ),
            ),
        );
    }
}

} // verus!
