//! What messages promise: percentages, bars, due days and what is listed.

use crate::amount::{
    exact_sum, from_signed, lemma_made, made, magnitude, minus, one, quotient, Amount,
};
use crate::bill_text::{feed_classified, feed_positions, CardEntry};
use crate::card_text::{charges, first_of, left_to_pay, NamedRow};
use crate::date::{law_dates_ordered_by_number, lemma_date_of, month_length, Date};
use crate::human::{bar_text, full_cells};
use crate::insights::CardSummaryRow;
use crate::order::lemma_where_at;
use crate::places::lemma_negated;
use crate::pulse::{excess_percent, ForecastRecord, PulseData};
use crate::pulse_text::{
    account_of, actions, cycle_month, due_date_of, due_day_text, due_label, open_card_lines,
    upcoming_lines,
};
use crate::ranking::share_of;
use crate::records::AccountRecord;
use crate::seqs::sum_by;
use crate::sums::lemma_whole;
use crate::terminal::{change_of, whole_share};
use vstd::prelude::*;

verus! {

// ---------------------------------------------------------------------------
// Percentages and bars

/// An amount that is so many times another, written with as many places.
pub open spec fn is_multiple(part: Amount, whole: Amount, n: int) -> bool {
    &&& part.in_range() && whole.in_range()
    &&& whole.units() > 0
    &&& part.units() == n * whole.units()
    &&& part.places() == whole.places()
    &&& part.sign() == whole.sign()
    &&& 0 < n
    &&& 100 * n <= i64::MAX
}

/// What is so many times another amount is that many hundreds of percent of it.
pub proof fn law_share_of_multiple(part: Amount, whole: Amount, n: int)
    requires
        is_multiple(part, whole, n),
    ensures
        share_of(part, whole).scaled() == 100 * n * one(),
        share_of(part, whole).places() == 0,
        share_of(part, whole).signed() == 100 * n,
{
    lemma_multiple_quotient(part, whole, n);
    lemma_made(false, n as nat, 0);
    lemma_made(false, 100, 0);
    lemma_made(false, (n * 100) as nat, 0);
    lemma_whole(100 * n);
    let q = quotient(part, whole);
    assert(q.units() * 100 == n * 100);
    assert(share_of(part, whole) == made(false, (n * 100) as nat, 0));
    assert(from_signed(100 * n, 0) == made(false, (100 * n) as nat, 0));
}

proof fn lemma_multiple_quotient(part: Amount, whole: Amount, n: int)
    requires
        is_multiple(part, whole, n),
    ensures
        quotient(part, whole) == made(false, n as nat, 0),
{
    let (u, w) = (part.units() as int, whole.units() as int);
    assert(u > 0) by (nonlinear_arith)
        requires
            u == n * w,
            n > 0,
            w > 0,
    ;
    assert(u % w == 0 && u / w == n) by {
        vstd::arithmetic::div_mod::lemma_mod_multiples_basic(n, w);
        vstd::arithmetic::div_mod::lemma_div_multiples_vanish(n, w);
        assert(n * w == w * n) by (nonlinear_arith);
    }
    assert(part.units() % whole.units() == 0);
    assert(part.units() / whole.units() == n);
}

/// What is so many times the usual is over it by that many hundreds of percent.
pub proof fn law_excess_percent_of_multiple(over: Amount, usual: Amount, n: int)
    requires
        is_multiple(over, usual, n),
        usual.scaled() > 0,
    ensures
        excess_percent(over, usual) == 100 * n,
{
    lemma_multiple_quotient(over, usual, n);
    law_share_of_multiple(over, usual, n);
}

/// Where an amount is larger than that of the month before by so many times the latter, the
/// change is that many hundreds of percent.
pub proof fn law_change_of_multiple(current: Amount, previous: Amount, n: int)
    requires
        is_multiple(minus(magnitude(current), magnitude(previous)), magnitude(previous), n),
    ensures
        change_of(current, previous).scaled() == 100 * n * one(),
{
    law_share_of_multiple(minus(magnitude(current), magnitude(previous)), magnitude(previous), n);
}

/// A part that is so many times the total, sign aside, is that many hundreds of percent of
/// it, as a whole number.
pub proof fn law_whole_share_of_multiple(part: Amount, total: Amount, n: int)
    requires
        is_multiple(magnitude(part), magnitude(total), n),
        total.scaled() != 0,
    ensures
        whole_share(part, total) == 100 * n,
{
    law_share_of_multiple(magnitude(part), magnitude(total), n);
}

/// A bar has ten cells, the full ones first: as many as there are tens in the percentage,
/// none below zero and all from a hundred on.
pub proof fn law_bar(percent: int, i: int)
    requires
        0 <= i < 10,
    ensures
        bar_text(percent).len() == 10,
        0 <= full_cells(percent) <= 10,
        0 <= percent < 100 ==> 10 * full_cells(percent) <= percent < 10 * (full_cells(percent) + 1),
        percent >= 100 ==> full_cells(percent) == 10,
        percent < 0 ==> full_cells(percent) == 0,
        bar_text(percent)[i] == (if i < full_cells(percent) {
            '█'
        } else {
            '░'
        }),
{
}

// ---------------------------------------------------------------------------
// The pulse

/// A card's bill of a cycle is due in that month: on the configured day, or on the last day
/// of a shorter month.
pub proof fn law_due_date(accounts: Seq<AccountRecord>, id: Seq<char>, cycle: Seq<char>)
    requires
        due_date_of(accounts, id, cycle) is Some,
    ensures
        ({
            let due = due_date_of(accounts, id, cycle)->0;
            let (y, m) = cycle_month(cycle)->0;
            let day = due_day_text(account_of(accounts, id)->0)->0;
            &&& due.valid()
            &&& due.y() == y && due.m() == m
            &&& 1 <= day <= 31
            &&& due.d() <= day
            &&& day <= month_length(y, m) ==> due.d() == day
            &&& day > month_length(y, m) ==> due.d() == month_length(y, m)
        }),
{
    let (y, m) = cycle_month(cycle)->0;
    let day = due_day_text(account_of(accounts, id)->0)->0;
    let d = if day <= month_length(y, m) {
        day as int
    } else {
        month_length(y, m)
    };
    lemma_date_of(y, m, d);
}

/// A bill that is due today is not called past.
pub proof fn law_due_label(due: Date, today: Date)
    requires
        due.valid(),
        today.valid(),
    ensures
        due_label(due, today) == (if due.number() < today.number() {
            "venceu"@
        } else {
            "vence"@
        }) + " "@ + crate::human::short_date_text(due),
{
    law_dates_ordered_by_number(due, today);
}

/// The account that an identifier names is the first with it.
pub proof fn law_account_of(accounts: Seq<AccountRecord>, id: Seq<char>)
    ensures
        match account_of(accounts, id) {
            Some(a) => a.account_id@ == id && accounts.contains(a),
            None => forall|i: int|
                0 <= i < accounts.len() ==> (#[trigger] accounts[i]).account_id@ != id,
        },
    decreases accounts.len(),
{
    if accounts.len() > 0 {
        assert(accounts.contains(accounts[0]));
        if accounts[0].account_id@ != id {
            let t = accounts.drop_first();
            law_account_of(t, id);
            match account_of(t, id) {
                Some(a) => {
                    let k = choose|k: int| 0 <= k < t.len() && t[k] == a;
                    assert(accounts[k + 1] == a);
                },
                None => {
                    assert forall|i: int| 0 <= i < accounts.len() implies (
                    #[trigger] accounts[i]).account_id@ != id by {
                        if i > 0 {
                            assert(t[i - 1] == accounts[i]);
                        }
                    }
                },
            }
        }
    }
}

/// A card has a line exactly where something is open on it.
pub proof fn law_open_cards(data: PulseData, n: int)
    requires
        0 <= n <= data.cards@.len(),
    ensures
        open_card_lines(data, n).len() == sum_by(
            data.cards@.take(n),
            |c: CardSummaryRow| if c.open_amount.scaled() > 0 {
                1int
            } else {
                0
            },
        ),
    decreases n,
{
    if n > 0 {
        law_open_cards(data, n - 1);
        assert(data.cards@.take(n).drop_last() =~= data.cards@.take(n - 1));
    }
}

/// Of what is due six are listed at the most, and how many are left out is told.
pub proof fn law_upcoming_lines(list: Seq<ForecastRecord>, total: Amount)
    ensures
        list.len() == 0 ==> upcoming_lines(list, total).len() == 0,
        0 < list.len() <= 6 ==> upcoming_lines(list, total).len() == 2 + list.len(),
        list.len() > 6 ==> upcoming_lines(list, total).len() == 9 && upcoming_lines(list, total)[8]
            == "  _… mais "@ + crate::text::digits((list.len() - 6) as nat) + " compromissos_"@,
{
}

/// There is something to do for each budget that alerts, and where anything has no
/// category.
pub proof fn law_actions(data: PulseData)
    ensures
        actions(data).len() == data.budget_alerts@.len() + (if data.uncategorized_count > 0 {
            1int
        } else {
            0
        }),
{
}

// ---------------------------------------------------------------------------
// Cards

/// What was charged on the cards, as money that left, and what is left to pay come to what
/// the rows come to, with the other sign.
pub proof fn law_charges(rows: Seq<CardSummaryRow>, left: Seq<NamedRow>)
    requires
        forall|i: int| 0 <= i < rows.len() ==> (#[trigger] rows[i]).total_charges.in_range(),
        forall|i: int| 0 <= i < left.len() ==> (#[trigger] left[i]).amount.in_range(),
    ensures
        exact_sum(charges(rows)) == -sum_by(rows, |r: CardSummaryRow| r.total_charges.scaled()),
        exact_sum(left_to_pay(left)) == -sum_by(left, |r: NamedRow| r.amount.scaled()),
    decreases rows.len() + left.len(),
{
    if rows.len() > 0 {
        let t = rows.drop_last();
        assert forall|i: int| 0 <= i < t.len() implies (#[trigger] t[i]).total_charges.in_range() by {
            assert(t[i] == rows[i]);
        }
        law_charges(t, left);
        assert(charges(rows).drop_last() =~= charges(t));
        assert(rows[rows.len() - 1] == rows.last());
        lemma_negated(rows.last().total_charges);
    } else if left.len() > 0 {
        let t = left.drop_last();
        assert forall|i: int| 0 <= i < t.len() implies (#[trigger] t[i]).amount.in_range() by {
            assert(t[i] == left[i]);
        }
        law_charges(rows, t);
    }
    if left.len() > 0 {
        let t = left.drop_last();
        assert forall|i: int| 0 <= i < t.len() implies (#[trigger] t[i]).amount.in_range() by {
            assert(t[i] == left[i]);
        }
        if rows.len() == 0 {
            assert(left_to_pay(left).drop_last() =~= left_to_pay(t));
            assert(left[left.len() - 1] == left.last());
            lemma_negated(left.last().amount);
        }
    }
}

/// Of a list at most so many are shown, from its start.
pub proof fn law_first_of<T>(s: Seq<T>, n: int)
    requires
        n >= 0,
    ensures
        first_of(s, n).len() == (if s.len() < n {
            s.len() as int
        } else {
            n
        }),
        forall|i: int| 0 <= i < first_of(s, n).len() ==> #[trigger] first_of(s, n)[i] == s[i],
{
}

/// The purchases that the feed classified are those with a category that has no colon.
pub proof fn law_feed_classified(entries: Seq<CardEntry>, k: int)
    requires
        0 <= k < entries.len(),
    ensures
        feed_positions(entries).contains(k) <==> (entries[k].category_id is Some
            && entries[k].category_id->0@.len() > 0 && !entries[k].category_id->0@.contains(':')),
{
    let f = |i: int| feed_classified(entries[i]);
    lemma_where_at(entries.len() as int, f);
    let at = feed_positions(entries);
    assert(f(k) == feed_classified(entries[k]));
    if at.contains(k) {
        let i = choose|i: int| 0 <= i < at.len() && at[i] == k;
        assert(f(at[i]));
    }
}

} // verus!
