//! What the choice of a card's bill and its state promise, by the days themselves.

use crate::amount::{abs, max_units, minus};
use crate::amount::{plus, Amount};
use crate::cards::{
    account_bills, accounts_of, bill_of, bill_view, bills_of_rows, closing_date_of, cycle_of,
    due_number, first_latest, ids_of_account, in_account, last_closed, last_latest, latest, latest_day,
    members_of, month_behind, next_to_close, on_bill, payment_of, picked_bill, report_bills,
    shown_bills, state_of, tolerance_of, Bill, BillState, CardsMode,
};
use crate::date::{
    date_of, law_dates_ordered_by_number, lemma_date_of, month_text, valid_date, Date,
};
use crate::order::{law_sorted_keys, lemma_where_at, sorted_keys, where_at};
use crate::places::{
    law_hundredths, lemma_magnitude,
};
use crate::records::{AccountRecord, CardClosedTransactionRow, TransactionRecord};
use vstd::prelude::*;

verus! {

/// Whether the days of the bills are days of the calendar.
pub open spec fn dated(bills: Seq<Bill>) -> bool {
    forall|i: int|
        0 <= i < bills.len() ==> (#[trigger] bills[i]).max_date.valid() && (bills[i].close_date
            is Some ==> bills[i].close_date->0.valid())
}

/// Whether the bill closes on the day with that number or before it.
pub open spec fn closes_by(b: Bill, day: int) -> bool {
    b.close_date is Some && b.close_date->0.number() <= day
}

/// Whether the bill is known to close after the day with that number.
pub open spec fn closes_after(b: Bill, day: int) -> bool {
    b.close_date is Some && b.close_date->0.number() > day
}

/// Looking back, the bill that is shown closed by today where any did, and none of those
/// that closed by today closed later.
pub proof fn law_closed_bill_is_latest(bills: Seq<Bill>, today: Date, month: Seq<char>, j: int)
    requires
        dated(bills),
        today.valid(),
        0 <= j < bills.len(),
        closes_by(bills[j], today.number()),
    ensures
        ({
            let p = picked_bill(bills, CardsMode::Closed, today, month);
            &&& p is Some
            &&& 0 <= p->0 < bills.len()
            &&& closes_by(bills[p->0], today.number())
            &&& bills[j].close_date->0.number() <= bills[p->0].close_date->0.number()
            &&& bills[j].close_date->0.number() == bills[p->0].close_date->0.number() ==> j <= p->0
        }),
{
    lemma_last_closed(bills, today, j);
}

proof fn lemma_last_closed(bills: Seq<Bill>, today: Date, j: int)
    requires
        dated(bills),
        today.valid(),
    ensures
        last_closed(bills, today) is Some ==> 0 <= last_closed(bills, today)->0 < bills.len()
            && closes_by(bills[last_closed(bills, today)->0], today.number()),
        0 <= j < bills.len() && closes_by(bills[j], today.number()) ==> last_closed(
            bills,
            today,
        ) is Some && bills[j].close_date->0.number() <= bills[last_closed(
            bills,
            today,
        )->0].close_date->0.number() && (bills[j].close_date->0.number() == bills[last_closed(
            bills,
            today,
        )->0].close_date->0.number() ==> j <= last_closed(bills, today)->0),
    decreases bills.len(),
{
    if bills.len() > 0 {
        let t = bills.drop_last();
        assert forall|i: int| 0 <= i < t.len() implies (#[trigger] t[i]).max_date.valid() && (
        t[i].close_date is Some ==> t[i].close_date->0.valid()) by {
            assert(t[i] == bills[i]);
        }
        lemma_last_closed(t, today, j);
        let last = bills.len() - 1;
        assert(bills.last() == bills[last]);
        if bills[last].close_date is Some {
            law_dates_ordered_by_number(today, bills[last].close_date->0);
            let before = last_closed(t, today);
            if before is Some {
                assert(t[before->0] == bills[before->0]);
                law_dates_ordered_by_number(bills[last].close_date->0, bills[before->0].close_date->0);
            }
        }
        if 0 <= j < t.len() {
            assert(t[j] == bills[j]);
        }
        if let Some(b) = last_closed(t, today) {
            assert(t[b] == bills[b]);
        }
    }
}

/// Looking ahead, the bill that is shown closes after today where any is known to, and
/// none of those that close after today closes earlier.
pub proof fn law_next_bill_closes_first(bills: Seq<Bill>, today: Date, month: Seq<char>, j: int)
    requires
        dated(bills),
        today.valid(),
        0 <= j < bills.len(),
        closes_after(bills[j], today.number()),
    ensures
        ({
            let p = picked_bill(bills, CardsMode::Next, today, month);
            &&& p is Some
            &&& 0 <= p->0 < bills.len()
            &&& closes_after(bills[p->0], today.number())
            &&& bills[p->0].close_date->0.number() <= bills[j].close_date->0.number()
            &&& bills[j].close_date->0.number() == bills[p->0].close_date->0.number() ==> p->0 <= j
        }),
{
    lemma_next_to_close(bills, today, j);
}

proof fn lemma_next_to_close(bills: Seq<Bill>, today: Date, j: int)
    requires
        dated(bills),
        today.valid(),
    ensures
        next_to_close(bills, today) is Some ==> 0 <= next_to_close(bills, today)->0 < bills.len()
            && closes_after(bills[next_to_close(bills, today)->0], today.number()),
        0 <= j < bills.len() && closes_after(bills[j], today.number()) ==> next_to_close(
            bills,
            today,
        ) is Some && bills[next_to_close(bills, today)->0].close_date->0.number()
            <= bills[j].close_date->0.number() && (bills[j].close_date->0.number()
            == bills[next_to_close(bills, today)->0].close_date->0.number() ==> next_to_close(
            bills,
            today,
        )->0 <= j),
    decreases bills.len(),
{
    if bills.len() > 0 {
        let t = bills.drop_last();
        assert forall|i: int| 0 <= i < t.len() implies (#[trigger] t[i]).max_date.valid() && (
        t[i].close_date is Some ==> t[i].close_date->0.valid()) by {
            assert(t[i] == bills[i]);
        }
        lemma_next_to_close(t, today, j);
        let last = bills.len() - 1;
        assert(bills.last() == bills[last]);
        if bills[last].close_date is Some {
            law_dates_ordered_by_number(today, bills[last].close_date->0);
            let before = next_to_close(t, today);
            if before is Some {
                assert(t[before->0] == bills[before->0]);
                law_dates_ordered_by_number(bills[last].close_date->0, bills[before->0].close_date->0);
            }
        }
        if 0 <= j < t.len() {
            assert(t[j] == bills[j]);
        }
        if let Some(b) = next_to_close(t, today) {
            assert(t[b] == bills[b]);
        }
    }
}

/// Looking back with no bill closed by today, the bill with the latest purchase counts as
/// open: the one shown has the latest purchase of all the others. A single bill is shown
/// itself.
pub proof fn law_bill_before_the_open_one(bills: Seq<Bill>, today: Date, month: Seq<char>)
    requires
        dated(bills),
        today.valid(),
        bills.len() > 0,
        forall|i: int| 0 <= i < bills.len() ==> !closes_by(#[trigger] bills[i], today.number()),
    ensures
        ({
            let p = picked_bill(bills, CardsMode::Closed, today, month);
            &&& p is Some
            &&& 0 <= p->0 < bills.len()
            &&& bills.len() > 1 ==> exists|top: int|
                {
                    &&& 0 <= top < bills.len()
                    &&& top != p->0
                    &&& forall|j: int|
                        0 <= j < bills.len() ==> (#[trigger] bills[j]).max_date.number() <= (
                        #[trigger] bills[top]).max_date.number()
                    &&& forall|j: int|
                        0 <= j < bills.len() && j != top ==> (
                        #[trigger] bills[j]).max_date.number() <= bills[p->0].max_date.number()
                }
        }),
{
    lemma_last_closed(bills, today, 0);
    lemma_first_latest(bills, -1);
    let top = first_latest(bills, -1)->0;
    lemma_first_latest(bills, top);
    assert(bills[top].max_date.number() <= bills[top].max_date.number());
    let p = picked_bill(bills, CardsMode::Closed, today, month)->0;
    if bills.len() > 1 {
        assert(p != top);
        assert(bills[p].max_date.number() <= bills[top].max_date.number());
    }
}

proof fn lemma_first_latest(bills: Seq<Bill>, skip: int)
    requires
        dated(bills),
    ensures
        first_latest(bills, skip) is Some ==> 0 <= first_latest(bills, skip)->0 < bills.len()
            && first_latest(bills, skip)->0 != skip,
        forall|j: int|
            #![trigger bills[j]]
            0 <= j < bills.len() && j != skip ==> first_latest(bills, skip) is Some
                && bills[j].max_date.number() <= bills[first_latest(bills, skip)->0].max_date.number(),
        bills.len() > 0 && skip != 0 ==> first_latest(bills, skip) is Some,
        bills.len() > 1 ==> first_latest(bills, skip) is Some,
    decreases bills.len(),
{
    if bills.len() > 0 {
        let t = bills.drop_last();
        let last = bills.len() - 1;
        assert forall|i: int| 0 <= i < t.len() implies (#[trigger] t[i]).max_date.valid() && (
        t[i].close_date is Some ==> t[i].close_date->0.valid()) by {
            assert(t[i] == bills[i]);
        }
        lemma_first_latest(t, skip);
        let before = first_latest(t, skip);
        if before is Some {
            assert(t[before->0] == bills[before->0]);
            law_dates_ordered_by_number(bills[before->0].max_date, bills[last].max_date);
        }
        assert forall|j: int|
            #![trigger bills[j]]
            0 <= j < bills.len() && j != skip implies first_latest(bills, skip) is Some
            && bills[j].max_date.number() <= bills[first_latest(bills, skip)->0].max_date.number() by {
            if j < last {
                assert(t[j] == bills[j]);
            }
        }
    }
}

/// Looking ahead with no bill known to close after today, the bill shown has the latest
/// purchase of all, and is the last of several.
pub proof fn law_open_bill_has_latest_purchase(
    bills: Seq<Bill>,
    today: Date,
    month: Seq<char>,
    j: int,
)
    requires
        dated(bills),
        today.valid(),
        0 <= j < bills.len(),
        forall|i: int| 0 <= i < bills.len() ==> !closes_after(#[trigger] bills[i], today.number()),
    ensures
        ({
            let p = picked_bill(bills, CardsMode::Next, today, month);
            &&& p is Some
            &&& 0 <= p->0 < bills.len()
            &&& bills[j].max_date.number() <= bills[p->0].max_date.number()
            &&& bills[j].max_date.number() == bills[p->0].max_date.number() ==> j <= p->0
        }),
{
    lemma_next_to_close(bills, today, 0);
    lemma_last_latest(bills, j);
}

proof fn lemma_last_latest(bills: Seq<Bill>, j: int)
    requires
        dated(bills),
    ensures
        bills.len() > 0 ==> last_latest(bills) is Some && 0 <= last_latest(bills)->0 < bills.len(),
        0 <= j < bills.len() ==> bills[j].max_date.number() <= bills[last_latest(
            bills,
        )->0].max_date.number() && (bills[j].max_date.number() == bills[last_latest(
            bills,
        )->0].max_date.number() ==> j <= last_latest(bills)->0),
    decreases bills.len(),
{
    if bills.len() > 0 {
        let t = bills.drop_last();
        let last = bills.len() - 1;
        assert forall|i: int| 0 <= i < t.len() implies (#[trigger] t[i]).max_date.valid() && (
        t[i].close_date is Some ==> t[i].close_date->0.valid()) by {
            assert(t[i] == bills[i]);
        }
        lemma_last_latest(t, j);
        if t.len() > 0 {
            let before = last_latest(t);
            assert(t[before->0] == bills[before->0]);
            assert(bills.last() == bills[last]);
            law_dates_ordered_by_number(bills[last].max_date, bills[before->0].max_date);
        }
        if 0 <= j < t.len() {
            assert(t[j] == bills[j]);
        }
    }
}

/// For a given month the first bill is shown that closes in it, or that has its last
/// purchase in it where no closing day is known; none only where there is no such bill.
pub proof fn law_bill_of_the_month(bills: Seq<Bill>, today: Date, month: Seq<char>)
    ensures
        match picked_bill(bills, CardsMode::Specific, today, month) {
            Some(p) => {
                &&& 0 <= p < bills.len()
                &&& match bills[p].close_date {
                    Some(d) => month_text(d) == month,
                    None => month_text(bills[p].max_date) == month,
                }
                &&& forall|j: int|
                    0 <= j < p ==> !falls_in(#[trigger] bills[j], month)
            },
            None => forall|j: int| 0 <= j < bills.len() ==> !falls_in(#[trigger] bills[j], month),
        },
    decreases bills.len(),
{
    if bills.len() > 0 {
        let t = bills.drop_last();
        law_bill_of_the_month(t, today, month);
        assert forall|j: int| 0 <= j < t.len() implies t[j] == #[trigger] bills[j] by {}
    }
}

/// Whether the bill closes in the month, or has its last purchase in it where no closing
/// day is known.
pub open spec fn falls_in(b: Bill, month: Seq<char>) -> bool {
    ||| b.close_date is Some && month_text(b.close_date->0) == month
    ||| b.close_date is None && month_text(b.max_date) == month
}

// ---------------------------------------------------------------------------
// A report over all accounts

/// The bills of an account, and the rows on them.
proof fn lemma_account_bills(
    rows: Seq<CardClosedTransactionRow>,
    bills: Seq<Seq<char>>,
    account: Seq<char>,
)
    requires
        bills.len() == rows.len(),
    ensures
        ({
            let list = account_bills(rows, bills, account);
            &&& forall|i: int|
                0 <= i < list.len() ==> (#[trigger] list[i]).account == account
                    && list[i].close_date == closing_date_of(list[i].bill_id)
                    && list[i] == bill_view(rows, bills, account, list[i].bill_id)
            &&& forall|k: int|
                0 <= k < rows.len() && (#[trigger] rows[k]).account_id@ == account ==> exists|i: int|
                    0 <= i < list.len() && (#[trigger] list[i]).bill_id == bills[k]
        }),
{
    let ids = ids_of_account(rows, bills, account);
    let f = in_account(rows, account);
    let at = where_at(rows.len() as int, f);
    law_sorted_keys(ids);
    lemma_where_at(rows.len() as int, f);
    let list = account_bills(rows, bills, account);
    assert forall|k: int|
        0 <= k < rows.len() && (#[trigger] rows[k]).account_id@ == account implies exists|i: int|
        0 <= i < list.len() && (#[trigger] list[i]).bill_id == bills[k] by {
        assert(f(k));
        let q = choose|q: int| 0 <= q < at.len() && at[q] == k;
        assert(ids[q] == bills[k]);
        assert(sorted_keys(ids).contains(bills[k]));
        let i = choose|i: int| 0 <= i < sorted_keys(ids).len() && sorted_keys(ids)[i] == bills[k];
        assert(list[i].bill_id == bills[k]);
    }
}

/// Each bill of a report is the one picked for its account.
proof fn lemma_shown(
    rows: Seq<CardClosedTransactionRow>,
    bills: Seq<Seq<char>>,
    mode: CardsMode,
    today: Date,
    month: Seq<char>,
    accounts: Seq<Seq<char>>,
    i: int,
) -> (a: int)
    requires
        0 <= i < shown_bills(rows, bills, mode, today, month, accounts).len(),
    ensures
        0 <= a < accounts.len(),
        ({
            let b = shown_bills(rows, bills, mode, today, month, accounts)[i];
            &&& b.account == accounts[a]
            &&& is_picked(b, account_bills(rows, bills, accounts[a]), mode, today, month)
        }),
    decreases accounts.len(),
{
    let t = accounts.drop_last();
    let before = shown_bills(rows, bills, mode, today, month, t);
    if i < before.len() {
        lemma_shown(rows, bills, mode, today, month, t, i)
    } else {
        let list = account_bills(rows, bills, accounts.last());
        lemma_picks_in_range(list, mode, today, month);
        accounts.len() - 1
    }
}

/// Each account with a bill to show is in the report.
proof fn lemma_account_shown(
    rows: Seq<CardClosedTransactionRow>,
    bills: Seq<Seq<char>>,
    mode: CardsMode,
    today: Date,
    month: Seq<char>,
    accounts: Seq<Seq<char>>,
    a: int,
) -> (i: int)
    requires
        0 <= a < accounts.len(),
        picked_bill(account_bills(rows, bills, accounts[a]), mode, today, month) is Some,
    ensures
        0 <= i < shown_bills(rows, bills, mode, today, month, accounts).len(),
        shown_bills(rows, bills, mode, today, month, accounts)[i].account == accounts[a],
    decreases accounts.len(),
{
    let t = accounts.drop_last();
    let before = shown_bills(rows, bills, mode, today, month, t);
    if a < t.len() {
        lemma_account_shown(rows, bills, mode, today, month, t, a)
    } else {
        let list = account_bills(rows, bills, accounts.last());
        lemma_picks_in_range(list, mode, today, month);
        before.len() as int
    }
}

/// Whether what is picked is one of the bills.
spec fn picks_in_range(list: Seq<Bill>, mode: CardsMode, today: Date, month: Seq<char>) -> bool {
    picked_bill(list, mode, today, month) is Some ==> 0 <= picked_bill(
        list,
        mode,
        today,
        month,
    )->0 < list.len()
}

spec fn is_picked(
    b: Bill,
    list: Seq<Bill>,
    mode: CardsMode,
    today: Date,
    month: Seq<char>,
) -> bool {
    &&& picked_bill(list, mode, today, month) is Some
    &&& 0 <= picked_bill(list, mode, today, month)->0 < list.len()
    &&& b == list[picked_bill(list, mode, today, month)->0]
}

proof fn lemma_picks_in_range(list: Seq<Bill>, mode: CardsMode, today: Date, month: Seq<char>)
    ensures
        picks_in_range(list, mode, today, month),
    decreases list.len(),
{
    if mode == CardsMode::Specific {
        law_bill_of_the_month(list, today, month);
    } else {
        lemma_indices(list, today, -1);
        if first_latest(list, -1) is Some {
            lemma_indices(list, today, first_latest(list, -1)->0);
        }
    }
}

proof fn lemma_indices(list: Seq<Bill>, today: Date, skip: int)
    ensures
        last_closed(list, today) is Some ==> 0 <= last_closed(list, today)->0 < list.len(),
        next_to_close(list, today) is Some ==> 0 <= next_to_close(list, today)->0 < list.len(),
        first_latest(list, skip) is Some ==> 0 <= first_latest(list, skip)->0 < list.len(),
        last_latest(list) is Some ==> 0 <= last_latest(list)->0 < list.len(),
        list.len() > 0 ==> last_latest(list) is Some,
    decreases list.len(),
{
    if list.len() > 0 {
        lemma_indices(list.drop_last(), today, skip);
    }
}

/// Whether the days on which the rows' bills close, and the days of the rows, are days
/// of the calendar.
pub open spec fn bills_dated(
    accounts: Seq<AccountRecord>,
    rows: Seq<CardClosedTransactionRow>,
) -> bool {
    forall|k: int|
        0 <= k < rows.len() ==> (#[trigger] rows[k]).transaction_date.valid() && (closing_date_of(
            bill_of(accounts, rows, rows[k]),
        ) is Some ==> closing_date_of(bill_of(accounts, rows, rows[k]))->0.valid())
}

/// Whether the bill holds exactly the account's rows that belong to it, and closes when
/// its identifier says.
pub open spec fn holds_its_rows(
    b: Bill,
    accounts: Seq<AccountRecord>,
    rows: Seq<CardClosedTransactionRow>,
) -> bool {
    &&& forall|k: int| #[trigger]
        b.members.contains(k) <==> (0 <= k < rows.len() && rows[k].account_id@ == b.account
            && bill_of(accounts, rows, rows[k]) == b.bill_id)
    &&& forall|i: int, j: int|
        0 <= i < j < b.members.len() ==> #[trigger] b.members[i] < #[trigger] b.members[j]
    &&& b.close_date == closing_date_of(b.bill_id)
    &&& b.members.len() > 0
}

/// A bill of a report holds exactly the rows of its account that belong to it, each once.
pub proof fn law_report_bills_hold_their_rows(
    accounts: Seq<AccountRecord>,
    rows: Seq<CardClosedTransactionRow>,
    mode: CardsMode,
    today: Date,
    month: Seq<char>,
    i: int,
)
    requires
        0 <= i < report_bills(accounts, rows, mode, today, month).len(),
    ensures
        holds_its_rows(report_bills(accounts, rows, mode, today, month)[i], accounts, rows),
{
    let bills = bills_of_rows(accounts, rows);
    let names = sorted_keys(accounts_of(rows));
    lemma_shown(rows, bills, mode, today, month, names, i);
    let b = report_bills(accounts, rows, mode, today, month)[i];
    lemma_account_bills(rows, bills, b.account);
    lemma_bill_holds_its_rows(accounts, rows, b.account, b.bill_id);
    let list = account_bills(rows, bills, b.account);
    let p = picked_bill(list, mode, today, month)->0;
    let ids = ids_of_account(rows, bills, b.account);
    law_sorted_keys(ids);
    let f = in_account(rows, b.account);
    lemma_where_at(rows.len() as int, f);
    assert(sorted_keys(ids)[p] == b.bill_id);
    assert(sorted_keys(ids).contains(b.bill_id));
    let q = choose|q: int| 0 <= q < ids.len() && ids[q] == b.bill_id;
    let k = where_at(rows.len() as int, f)[q];
    assert(f(k));
    assert(b.members.contains(k));
}

proof fn lemma_bill_holds_its_rows(
    accounts: Seq<AccountRecord>,
    rows: Seq<CardClosedTransactionRow>,
    account: Seq<char>,
    id: Seq<char>,
)
    ensures
        ({
            let m = members_of(rows, bills_of_rows(accounts, rows), account, id);
            &&& forall|k: int| #[trigger]
                m.contains(k) <==> (0 <= k < rows.len() && rows[k].account_id@ == account
                    && bill_of(accounts, rows, rows[k]) == id)
            &&& forall|i: int, j: int| 0 <= i < j < m.len() ==> #[trigger] m[i] < #[trigger] m[j]
        }),
{
    let bills = bills_of_rows(accounts, rows);
    let f = on_bill(rows, bills, account, id);
    let m = members_of(rows, bills, account, id);
    lemma_where_at(rows.len() as int, f);
    assert forall|k: int| #[trigger]
        m.contains(k) <==> (0 <= k < rows.len() && rows[k].account_id@ == account && bill_of(
            accounts,
            rows,
            rows[k],
        ) == id) by {
        if m.contains(k) {
            let i = choose|i: int| 0 <= i < m.len() && m[i] == k;
            assert(f(m[i]));
        }
        if 0 <= k < rows.len() && rows[k].account_id@ == account && bill_of(
            accounts,
            rows,
            rows[k],
        ) == id {
            assert(f(k));
        }
    }
}

/// The latest day of some rows is the day of one of them, and none of them is later.
pub proof fn law_latest_day(rows: Seq<CardClosedTransactionRow>, at: Seq<int>, i: int)
    requires
        0 <= i < at.len(),
        forall|k: int| 0 <= k < at.len() ==> rows[#[trigger] at[k]].transaction_date.valid(),
    ensures
        rows[at[i]].transaction_date.number() <= latest_day(rows, at).number(),
        exists|k: int|
            0 <= k < at.len() && rows[#[trigger] at[k]].transaction_date == latest_day(rows, at),
    decreases at.len(),
{
    if at.len() > 1 {
        let t = at.drop_last();
        assert forall|k: int| 0 <= k < t.len() implies rows[#[trigger] t[k]].transaction_date.valid() by {
            assert(t[k] == at[k]);
        }
        let last = at.len() - 1;
        law_latest_day(rows, t, if i < last { i } else { 0 });
        let k = choose|k: int|
            0 <= k < t.len() && rows[#[trigger] t[k]].transaction_date == latest_day(rows, t);
        assert(at[k] == t[k]);
        assert(at.last() == at[last]);
        if i < last {
            assert(t[i] == at[i]);
        }
        law_dates_ordered_by_number(latest_day(rows, t), rows[at[last]].transaction_date);
        assert(rows[at[k]].transaction_date == latest_day(rows, at)
            || rows[at[last]].transaction_date == latest_day(rows, at));
    } else {
        assert(rows[at[0]].transaction_date == latest_day(rows, at));
    }
}

proof fn lemma_bills_dated(
    accounts: Seq<AccountRecord>,
    rows: Seq<CardClosedTransactionRow>,
    account: Seq<char>,
)
    requires
        bills_dated(accounts, rows),
    ensures
        dated(account_bills(rows, bills_of_rows(accounts, rows), account)),
{
    let bills = bills_of_rows(accounts, rows);
    let ids = ids_of_account(rows, bills, account);
    let list = account_bills(rows, bills, account);
    let f = in_account(rows, account);
    let at = where_at(rows.len() as int, f);
    law_sorted_keys(ids);
    lemma_where_at(rows.len() as int, f);
    assert forall|i: int| 0 <= i < list.len() implies (#[trigger] list[i]).max_date.valid() && (
    list[i].close_date is Some ==> list[i].close_date->0.valid()) by {
        let id = sorted_keys(ids)[i];
        assert(sorted_keys(ids).contains(id));
        let q = choose|q: int| 0 <= q < ids.len() && ids[q] == id;
        let k = at[q];
        assert(f(k));
        assert(bills[k] == bill_of(accounts, rows, rows[k]));
        lemma_bill_holds_its_rows(accounts, rows, account, id);
        let m = members_of(rows, bills, account, id);
        assert(m.contains(k));
        let w = choose|w: int| 0 <= w < m.len() && m[w] == k;
        assert forall|x: int| 0 <= x < m.len() implies rows[#[trigger] m[x]].transaction_date.valid() by {
            assert(m.contains(m[x]));
        }
        law_latest_day(rows, m, w);
        let x = choose|x: int|
            0 <= x < m.len() && rows[#[trigger] m[x]].transaction_date == latest_day(rows, m);
        assert(m.contains(m[x]));
    }
}

/// Every account with a purchase has one bill in a report, but for a given month, where
/// it may have none.
pub proof fn law_report_shows_every_account(
    accounts: Seq<AccountRecord>,
    rows: Seq<CardClosedTransactionRow>,
    mode: CardsMode,
    today: Date,
    month: Seq<char>,
    k: int,
)
    requires
        0 <= k < rows.len(),
        mode != CardsMode::Specific,
    ensures
        exists|i: int|
            0 <= i < report_bills(accounts, rows, mode, today, month).len() && (
            #[trigger] report_bills(accounts, rows, mode, today, month)[i]).account
                == rows[k].account_id@,
{
    let bills = bills_of_rows(accounts, rows);
    let names = sorted_keys(accounts_of(rows));
    law_sorted_keys(accounts_of(rows));
    assert(accounts_of(rows)[k] == rows[k].account_id@);
    assert(names.contains(rows[k].account_id@));
    let a = choose|a: int| 0 <= a < names.len() && names[a] == rows[k].account_id@;
    lemma_account_bills(rows, bills, names[a]);
    let list = account_bills(rows, bills, names[a]);
    crate::cards::law_account_with_bills_is_shown(list, mode, today, month);
    let i = lemma_account_shown(rows, bills, mode, today, month, names, a);
    assert(report_bills(accounts, rows, mode, today, month)[i].account == rows[k].account_id@);
}

/// Looking back, no purchase of an account belongs to a bill that closed by today and
/// after the one that a report shows for the account.
pub proof fn law_report_shows_last_closed(
    accounts: Seq<AccountRecord>,
    rows: Seq<CardClosedTransactionRow>,
    today: Date,
    month: Seq<char>,
    i: int,
    k: int,
)
    requires
        bills_dated(accounts, rows),
        today.valid(),
        0 <= i < report_bills(accounts, rows, CardsMode::Closed, today, month).len(),
        0 <= k < rows.len(),
        rows[k].account_id@ == report_bills(
            accounts,
            rows,
            CardsMode::Closed,
            today,
            month,
        )[i].account,
        closing_date_of(bill_of(accounts, rows, rows[k])) is Some,
        closing_date_of(bill_of(accounts, rows, rows[k]))->0.number() <= today.number(),
    ensures
        ({
            let b = report_bills(accounts, rows, CardsMode::Closed, today, month)[i];
            &&& b.close_date is Some
            &&& closing_date_of(bill_of(accounts, rows, rows[k]))->0.number()
                <= b.close_date->0.number() <= today.number()
        }),
{
    let j = lemma_report_bill(accounts, rows, CardsMode::Closed, today, month, i, k);
    let b = report_bills(accounts, rows, CardsMode::Closed, today, month)[i];
    let list = account_bills(rows, bills_of_rows(accounts, rows), b.account);
    law_closed_bill_is_latest(list, today, month, j);
}

/// Looking ahead, no purchase of an account belongs to a bill that closes after today and
/// before the one that a report shows for the account.
pub proof fn law_report_shows_next_to_close(
    accounts: Seq<AccountRecord>,
    rows: Seq<CardClosedTransactionRow>,
    today: Date,
    month: Seq<char>,
    i: int,
    k: int,
)
    requires
        bills_dated(accounts, rows),
        today.valid(),
        0 <= i < report_bills(accounts, rows, CardsMode::Next, today, month).len(),
        0 <= k < rows.len(),
        rows[k].account_id@ == report_bills(
            accounts,
            rows,
            CardsMode::Next,
            today,
            month,
        )[i].account,
        closing_date_of(bill_of(accounts, rows, rows[k])) is Some,
        closing_date_of(bill_of(accounts, rows, rows[k]))->0.number() > today.number(),
    ensures
        ({
            let b = report_bills(accounts, rows, CardsMode::Next, today, month)[i];
            &&& b.close_date is Some
            &&& today.number() < b.close_date->0.number() <= closing_date_of(
                bill_of(accounts, rows, rows[k]),
            )->0.number()
        }),
{
    let j = lemma_report_bill(accounts, rows, CardsMode::Next, today, month, i, k);
    let b = report_bills(accounts, rows, CardsMode::Next, today, month)[i];
    let list = account_bills(rows, bills_of_rows(accounts, rows), b.account);
    law_next_bill_closes_first(list, today, month, j);
}

proof fn lemma_report_bill(
    accounts: Seq<AccountRecord>,
    rows: Seq<CardClosedTransactionRow>,
    mode: CardsMode,
    today: Date,
    month: Seq<char>,
    i: int,
    k: int,
) -> (j: int)
    requires
        bills_dated(accounts, rows),
        0 <= i < report_bills(accounts, rows, mode, today, month).len(),
        0 <= k < rows.len(),
        rows[k].account_id@ == report_bills(accounts, rows, mode, today, month)[i].account,
    ensures
        ({
            let b = report_bills(accounts, rows, mode, today, month)[i];
            let list = account_bills(rows, bills_of_rows(accounts, rows), b.account);
            &&& dated(list)
            &&& is_picked(b, list, mode, today, month)
            &&& 0 <= j < list.len()
            &&& list[j].close_date == closing_date_of(bill_of(accounts, rows, rows[k]))
        }),
{
    let bills = bills_of_rows(accounts, rows);
    let names = sorted_keys(accounts_of(rows));
    lemma_shown(rows, bills, mode, today, month, names, i);
    let b = report_bills(accounts, rows, mode, today, month)[i];
    lemma_bills_dated(accounts, rows, b.account);
    lemma_account_bills(rows, bills, b.account);
    let list = account_bills(rows, bills, b.account);
    let j = choose|j: int| 0 <= j < list.len() && (#[trigger] list[j]).bill_id == bills[k];
    assert(bills[k] == bill_of(accounts, rows, rows[k]));
    j
}

// ---------------------------------------------------------------------------
// Cycles

/// The cycle of a purchase closes on the account's closing day next after it: the same
/// day of the month before is not after the purchase.
pub proof fn law_cycle_is_the_next(date: Date, closing_day: int)
    requires
        date.valid(),
        1 <= closing_day <= 28,
    ensures
        ({
            let (y, m) = cycle_of(date, closing_day);
            let (py, pm) = if m == 1 {
                (y - 1, 12int)
            } else {
                (y, m - 1)
            };
            &&& 1 <= m <= 12
            &&& (date.y(), date.m()) == (y, m) ==> date.d() < closing_day
            &&& (date.y(), date.m()) != (y, m) ==> (date.y(), date.m()) == (py, pm) && date.d()
                >= closing_day
        }),
{
}

/// The latest day of a tagged bill is that of one of its purchases, and none is later.
pub proof fn law_latest_of_bill(tags: Seq<(Seq<char>, Date)>, id: Seq<char>, i: int)
    requires
        0 <= i < tags.len(),
        tags[i].0 == id,
        forall|k: int| 0 <= k < tags.len() ==> (#[trigger] tags[k]).1.valid(),
    ensures
        latest(tags, id) is Some,
        tags[i].1.number() <= latest(tags, id)->0.number(),
        exists|k: int|
            0 <= k < tags.len() && (#[trigger] tags[k]).0 == id && Some(tags[k].1) == latest(
                tags,
                id,
            ),
    decreases tags.len(),
{
    let t = tags.drop_last();
    let last = tags.len() - 1;
    assert forall|k: int| 0 <= k < t.len() implies (#[trigger] t[k]).1.valid() by {
        assert(t[k] == tags[k]);
    }
    assert(tags.last() == tags[last]);
    if i < last {
        assert(t[i] == tags[i]);
        law_latest_of_bill(t, id, i);
        let k = choose|k: int|
            0 <= k < t.len() && (#[trigger] t[k]).0 == id && Some(t[k].1) == latest(t, id);
        assert(tags[k] == t[k]);
        law_dates_ordered_by_number(latest(t, id)->0, tags[last].1);
        assert(Some(tags[k].1) == latest(tags, id) || Some(tags[last].1) == latest(tags, id));
    } else {
        lemma_latest_comes_from(t, id);
        if latest(t, id) is Some {
            let k = choose|k: int|
                0 <= k < t.len() && (#[trigger] t[k]).0 == id && Some(t[k].1) == latest(t, id);
            assert(tags[k] == t[k]);
            law_dates_ordered_by_number(latest(t, id)->0, tags[last].1);
            assert(Some(tags[k].1) == latest(tags, id) || Some(tags[last].1) == latest(tags, id));
        } else {
            assert(Some(tags[last].1) == latest(tags, id));
        }
    }
}

proof fn lemma_latest_comes_from(tags: Seq<(Seq<char>, Date)>, id: Seq<char>)
    ensures
        latest(tags, id) is Some ==> exists|k: int|
            0 <= k < tags.len() && (#[trigger] tags[k]).0 == id && Some(tags[k].1) == latest(
                tags,
                id,
            ),
    decreases tags.len(),
{
    if tags.len() > 0 {
        let t = tags.drop_last();
        lemma_latest_comes_from(t, id);
        if latest(t, id) is Some {
            let k = choose|k: int|
                0 <= k < t.len() && (#[trigger] t[k]).0 == id && Some(t[k].1) == latest(t, id);
            assert(tags[k] == t[k]);
        }
        assert(tags.last() == tags[tags.len() - 1]);
    }
}

// ---------------------------------------------------------------------------
// Payments and states

/// Whether a tenth can be added to the total and taken from it without rounding.
pub open spec fn tenth_exact(total: Amount) -> bool {
    total.places() <= 26 && 110 * total.units() <= max_units()
}

/// A tenth of a total is a tenth of it.
pub proof fn law_tenth(total: Amount)
    requires
        tenth_exact(total),
    ensures
        10 * tolerance_of(total).scaled() == total.scaled(),
        minus(total, tolerance_of(total)).scaled() == total.scaled() - tolerance_of(
            total,
        ).scaled(),
        plus(total, tolerance_of(total)).scaled() == total.scaled() + tolerance_of(total).scaled(),
{
    law_hundredths(total, 10);
}

/// Whether a transaction may be the payment of a bill by its sign, its day and its size:
/// money going out, not more than a week before the bill closes, and within a tenth of
/// the bill.
pub open spec fn could_pay(tx: TransactionRecord, close: Date, total: Amount) -> bool {
    &&& tx.amount.scaled() < 0
    &&& close.number() - 7 <= tx.transaction_date.number()
    &&& 9 * total.scaled() <= -10 * tx.amount.scaled() <= 11 * total.scaled()
}

/// What a bill is said to be paid by goes out, not more than a week before the bill
/// closes, within a tenth of it.
pub proof fn law_payment_fits_bill(txs: Seq<TransactionRecord>, close: Date, total: Amount)
    requires
        tenth_exact(total),
        forall|i: int| 0 <= i < txs.len() ==> (#[trigger] txs[i]).amount.in_range(),
    ensures
        payment_of(txs, close, total) is Some ==> 0 <= payment_of(txs, close, total)->0
            < txs.len() && could_pay(txs[payment_of(txs, close, total)->0], close, total),
    decreases txs.len(),
{
    if txs.len() > 0 {
        let t = txs.drop_last();
        assert forall|i: int| 0 <= i < t.len() implies (#[trigger] t[i]).amount.in_range() by {
            assert(t[i] == txs[i]);
        }
        law_payment_fits_bill(t, close, total);
        law_tenth(total);
        lemma_magnitude(txs[txs.len() - 1].amount);
    }
}

/// No transaction that can pay a bill lies nearer to its closing than the one it is said to
/// be paid by; where it is said to be paid by none, none can.
pub proof fn law_payment_is_nearest(
    txs: Seq<TransactionRecord>,
    close: Date,
    total: Amount,
    j: int,
)
    requires
        tenth_exact(total),
        crate::date::in_calendar(close.number() - 7),
        0 <= j < txs.len(),
        txs[j].amount.in_range(),
        crate::cards::pays_bill(txs[j]),
        could_pay(txs[j], close, total),
    ensures
        payment_of(txs, close, total) is Some,
        ({
            let p = payment_of(txs, close, total)->0;
            let near = abs(txs[p].transaction_date.number() - close.number());
            let other = abs(txs[j].transaction_date.number() - close.number());
            near < other || (near == other && p <= j)
        }),
    decreases txs.len(),
{
    let t = txs.drop_last();
    law_tenth(total);
    lemma_magnitude(txs[j].amount);
    assert(crate::cards::may_pay(txs[j], close, total));
    lemma_payment_index(t, close, total);
    if let Some(b) = payment_of(t, close, total) {
        assert(t[b] == txs[b]);
    }
    if j < t.len() {
        assert(t[j] == txs[j]);
        law_payment_is_nearest(t, close, total, j);
    }
}

proof fn lemma_payment_index(txs: Seq<TransactionRecord>, close: Date, total: Amount)
    ensures
        payment_of(txs, close, total) is Some ==> 0 <= payment_of(txs, close, total)->0
            < txs.len(),
    decreases txs.len(),
{
    if txs.len() > 0 {
        lemma_payment_index(txs.drop_last(), close, total);
    }
}

/// The state of a bill by the days: where the report looks back, a bill that has not
/// closed is open; one that has is paid where a payment was found; without one it is
/// overdue exactly from the day after it falls due.
pub proof fn law_bill_state(
    today: Date,
    close: Date,
    due_day: Option<u32>,
    total: Amount,
    payments: Seq<TransactionRecord>,
)
    requires
        today.valid(),
        close.valid(),
    ensures
        ({
            let s = state_of(CardsMode::Closed, today, close, due_day, total, payments);
            let paid = payment_of(payments, close, total) is Some;
            &&& s == BillState::Paid <==> close.number() <= today.number() && paid
            &&& s == BillState::Overdue <==> close.number() <= today.number() && !paid
                && due_number(close, due_day) < today.number()
            &&& s == BillState::Open <==> today.number() < close.number() || (!paid
                && today.number() <= due_number(close, due_day))
        }),
        state_of(CardsMode::Specific, today, close, due_day, total, payments) == state_of(
            CardsMode::Closed,
            today,
            close,
            due_day,
            total,
            payments,
        ),
        state_of(CardsMode::Next, today, close, due_day, total, payments) == BillState::Partial,
{
    law_dates_ordered_by_number(today, close);
}

/// Without a due day a bill falls due a week after it closes.
pub proof fn law_due_a_week_later(close: Date)
    requires
        crate::date::in_calendar(close.number() + 7),
    ensures
        due_number(close, None) == close.number() + 7,
{
}

/// With a due day a bill falls due on the first such day after it closes: no day with that
/// number in its month lies between the two.
pub proof fn law_due_day_is_the_next(close: Date, due_day: u32, other: Date)
    requires
        close.valid(),
        1 <= due_day <= 28,
        other.valid(),
        other.d() == due_day,
        close.number() < other.number(),
        valid_date(month_behind(close.y(), close.m()).0, month_behind(close.y(), close.m()).1, 1),
    ensures
        close.number() < due_number(close, Some(due_day)) <= other.number(),
{
    crate::cards::law_due_day_is_kept(close, due_day);
    let d = choose|d: Date|
        {
            &&& d.valid()
            &&& #[trigger] d.number() == due_number(close, Some(due_day))
            &&& d.d() == due_day
            &&& close.before(d)
        };
    law_dates_ordered_by_number(close, d);
    law_dates_ordered_by_number(close, other);
    law_dates_ordered_by_number(other, d);
    let (y, m) = if close.d() < due_day {
        (close.y(), close.m())
    } else {
        month_behind(close.y(), close.m())
    };
    lemma_date_of(y, m, due_day as int);
    let e = date_of(y, m, due_day as int);
    assert(e.y() == y && e.m() == m && e.d() == due_day);
    law_dates_ordered_by_number(e, d);
    law_dates_ordered_by_number(other, e);
}

} // verus!
