//! What a closing plan promises, in scaled units and in days.

use crate::amount::{abs, from_signed, minus, one, plus, times, zero, Amount};
use crate::date::{valid_date, Date};
use crate::order::{law_sorted, lemma_same_elements, sorted, Ranked};
use crate::places::{
    few, law_minus_exact, law_minus_of_few_places, law_plus_of_few_places, law_quotient_exact,
    law_tenths, lemma_zero, room, shares,
};
use crate::pulse::{
    alerts_of, at_least_zero, closed_months, closed_rows, closing_status, days_left_of, excess_of,
    excesses, expected_spend, known_net, last_day_of, projected_net, to_brake, usual, variable_rest,
    visible, weekly_allowance, weeks_left_of, CategoryMean, CategoryOverspend, CategorySpend,
    BudgetStatusRow, ClosingStatus, MonthlySpendRow, PulseData,
};
use crate::scenario::CashflowRow;
use vstd::prelude::*;

verus! {

/// What is known to be left of a month, counted in the smallest step: the income so far or
/// the usual income, whichever is larger, less what went out and what is planned.
pub open spec fn left_of_month(data: PulseData) -> int {
    let (now, then) = (data.mtd.income.scaled(), data.baseline_t3m.income.scaled());
    (if now < then {
        then
    } else {
        now
    }) - data.mtd.expenses.scaled() - data.upcoming_total.scaled()
}

/// Whether the amounts of a month have at most `p` places and are small enough to be added
/// without rounding.
pub open spec fn month_of_few_places(data: PulseData, p: nat) -> bool {
    &&& few(data.mtd.income, p)
    &&& few(data.mtd.expenses, p)
    &&& few(data.baseline_t3m.income, p)
    &&& few(data.baseline_t3m.expenses, p)
    &&& few(data.upcoming_total, p)
    &&& 4 * (abs(data.mtd.income.scaled()) + abs(data.mtd.expenses.scaled()) + abs(
        data.baseline_t3m.income.scaled(),
    ) + abs(data.baseline_t3m.expenses.scaled()) + abs(data.upcoming_total.scaled())) <= room(p)
}

/// What a month comes to by what is known is the income so far, raised to the usual one,
/// less what went out and what is planned.
pub proof fn law_known_net(data: PulseData, p: nat)
    requires
        month_of_few_places(data, p),
    ensures
        known_net(data).scaled() == left_of_month(data),
        few(known_net(data), p),
{
    let gap = minus(data.baseline_t3m.income, data.mtd.income);
    law_minus_of_few_places(data.baseline_t3m.income, data.mtd.income, p);
    lemma_zero();
    let more = at_least_zero(gap);
    law_plus_of_few_places(data.mtd.income, more, p);
    law_plus_of_few_places(data.mtd.expenses, data.upcoming_total, p);
    law_minus_of_few_places(
        plus(data.mtd.income, more),
        plus(data.mtd.expenses, data.upcoming_total),
        p,
    );
}

/// Where a weekly allowance is told, spending it in each of the weeks left uses up what is
/// known to be left and no more, but for the rounding of each week's share. It is told
/// exactly where something is left.
pub proof fn law_weekly_allowance(data: PulseData, p: nat)
    requires
        month_of_few_places(data, p),
        shares(known_net(data), weeks_left_of(data.today)),
    ensures
        match weekly_allowance(data) {
            Some(week) => {
                &&& left_of_month(data) > 0
                &&& week.scaled() >= 0
                &&& abs(weeks_left_of(data.today) * week.scaled() - left_of_month(data))
                    <= weeks_left_of(data.today) * one()
            },
            None => left_of_month(data) <= 0,
        },
{
    law_known_net(data, p);
    lemma_zero();
    let n = weeks_left_of(data.today);
    if weekly_allowance(data) is Some {
        let share = crate::amount::quotient(known_net(data), from_signed(n, 0));
        if share.scaled() <= 0 {
            assert(n * share.scaled() <= n * 0) by (nonlinear_arith)
                requires
                    n >= 0,
                    share.scaled() <= 0,
            ;
            assert(n * 0 == 0) by (nonlinear_arith);
        }
    }
}

/// Where what is left can be divided by the weeks, the weekly allowance uses it up to the
/// last cent.
pub proof fn law_weekly_allowance_exact(data: PulseData, p: nat)
    requires
        month_of_few_places(data, p),
        left_of_month(data) > 0,
        data.today.valid(),
        known_net(data).units() % weeks_left_of(data.today) as nat == 0,
    ensures
        weekly_allowance(data) is Some,
        weeks_left_of(data.today) * weekly_allowance(data)->0.scaled() == left_of_month(data),
{
    law_known_net(data, p);
    assert(1 <= weeks_left_of(data.today) <= 5);
    let n = weeks_left_of(data.today);
    law_quotient_exact(known_net(data), n);
    let share = crate::amount::quotient(known_net(data), from_signed(n, 0));
    if share.scaled() <= 0 {
        assert(n * share.scaled() <= 0) by (nonlinear_arith)
            requires
                n >= 0,
                share.scaled() <= 0,
        ;
    }
}

/// The days left end with the month: the last of them is a day of it, the one behind is
/// not.
pub proof fn law_days_left_end_month(d: Date)
    requires
        d.valid(),
    ensures
        days_left_of(d) >= 0,
        valid_date(d.y(), d.m(), d.d() + days_left_of(d)),
        !valid_date(d.y(), d.m(), d.d() + days_left_of(d) + 1),
{
}

/// The weeks left hold all the days left, with no week to spare; there is always one.
pub proof fn law_weeks_hold_days(d: Date)
    ensures
        weeks_left_of(d) >= 1,
        7 * weeks_left_of(d) >= days_left_of(d),
        days_left_of(d) > 0 ==> 7 * (weeks_left_of(d) - 1) < days_left_of(d),
        days_left_of(d) <= 0 ==> weeks_left_of(d) == 1,
{
}

/// Where the days of the month divide what is not planned of the usual expenses, the rest
/// of the month takes as large a part of it as the days left are of the month.
pub proof fn law_variable_rest(data: PulseData, p: nat)
    requires
        month_of_few_places(data, p),
        data.today.valid(),
        data.baseline_t3m.expenses.scaled() > data.upcoming_total.scaled(),
        minus(data.baseline_t3m.expenses, data.upcoming_total).units() % last_day_of(
            data.today,
        ) as nat == 0,
    ensures
        last_day_of(data.today) * variable_rest(data).scaled() == days_left_of(data.today) * (
        data.baseline_t3m.expenses.scaled() - data.upcoming_total.scaled()),
{
    law_minus_of_few_places(data.baseline_t3m.expenses, data.upcoming_total, p);
    let free = minus(data.baseline_t3m.expenses, data.upcoming_total);
    let (n, k) = (last_day_of(data.today), days_left_of(data.today));
    law_quotient_exact(free, n);
    let day = crate::amount::quotient(free, from_signed(n, 0));
    lemma_day_units(free, n, k);
    crate::places::law_multiple_exact(day, k);
    assert(n * (k * day.scaled()) == k * (n * day.scaled())) by (nonlinear_arith);
}

proof fn lemma_day_units(free: Amount, n: int, k: int)
    requires
        free.in_range(),
        1 <= n <= 31,
        0 <= k < n,
        free.units() % n as nat == 0,
    ensures
        crate::amount::quotient(free, from_signed(n, 0)).units() * k
            <= crate::amount::max_units(),
{
    broadcast use crate::amount::lemma_made;

    lemma_zero();
    let u = free.units() as int;
    let w = u / n;
    assert(w * k <= u && 0 <= w <= u) by (nonlinear_arith)
        requires
            u % n == 0,
            w == u / n,
            0 <= k < n,
            u >= 0,
    ;
    assert(0 * k == 0) by (nonlinear_arith);
    assert(free.units() / n as nat == w);
    if free.units() != 0 {
        assert(crate::amount::quotient(free, from_signed(n, 0)).units() == w);
    }
}

/// With nothing of the usual expenses unplanned, the rest of the month takes nothing.
pub proof fn law_no_variable_rest(data: PulseData, p: nat)
    requires
        month_of_few_places(data, p),
        data.baseline_t3m.expenses.scaled() <= data.upcoming_total.scaled(),
    ensures
        variable_rest(data).scaled() == 0,
        projected_net(data).scaled() == left_of_month(data),
{
    broadcast use crate::amount::lemma_made;

    law_minus_of_few_places(data.baseline_t3m.expenses, data.upcoming_total, p);
    law_known_net(data, p);
    lemma_zero();
    law_minus_of_few_places(known_net(data), zero(), p);
}

/// A month is on track where what is known, less the rest of it at the usual pace, is not
/// below zero; tight where only what is known is not; stretched where that is below zero.
pub proof fn law_status_by_amounts(data: PulseData, p: nat)
    requires
        month_of_few_places(data, p),
        crate::amount::sum_fits(known_net(data), crate::amount::negated(variable_rest(data))),
        variable_rest(data).in_range(),
        variable_rest(data).scaled() >= 0,
    ensures
        projected_net(data).scaled() == left_of_month(data) - variable_rest(data).scaled(),
        closing_status(data) == ClosingStatus::OnTrack <==> left_of_month(data) >= variable_rest(
            data,
        ).scaled(),
        closing_status(data) == ClosingStatus::Stretched <==> left_of_month(data) < 0,
{
    law_known_net(data, p);
    law_minus_exact(known_net(data), variable_rest(data));
}

// ---------------------------------------------------------------------------
// What to brake

/// What is usual for a category is what the first line with its name tells.
pub proof fn law_usual(means: Seq<CategoryMean>, id: Seq<char>)
    ensures
        match usual(means, id) {
            Some(b) => exists|i: int|
                {
                    &&& 0 <= i < means.len()
                    &&& (#[trigger] means[i]).category_id@ == id
                    &&& means[i].amount == b
                    &&& forall|j: int| 0 <= j < i ==> (#[trigger] means[j]).category_id@ != id
                },
            None => forall|i: int|
                0 <= i < means.len() ==> (#[trigger] means[i]).category_id@ != id,
        },
    decreases means.len(),
{
    if means.len() > 0 && means[0].category_id@ != id {
        let t = means.drop_first();
        law_usual(t, id);
        match usual(t, id) {
            Some(b) => {
                let i = choose|i: int|
                    {
                        &&& 0 <= i < t.len()
                        &&& (#[trigger] t[i]).category_id@ == id
                        &&& t[i].amount == b
                        &&& forall|j: int| 0 <= j < i ==> (#[trigger] t[j]).category_id@ != id
                    };
                assert(means[i + 1] == t[i]);
                assert forall|j: int| 0 <= j < i + 1 implies (#[trigger] means[j]).category_id@
                    != id by {
                    if j > 0 {
                        assert(t[j - 1] == means[j]);
                    }
                }
            },
            None => {
                assert forall|j: int| 0 <= j < means.len() implies (
                #[trigger] means[j]).category_id@ != id by {
                    if j > 0 {
                        assert(t[j - 1] == means[j]);
                    }
                }
            },
        }
    } else if means.len() > 0 {
        assert(means[0].category_id@ == id);
    }
}

/// A category is to brake exactly where what it comes to is above what is usual by a tenth
/// of that, and by fifty; the excess is the difference.
pub proof fn law_excess(s: CategorySpend, means: Seq<CategoryMean>, today: Date, b: Amount)
    requires
        usual(means, s.category_id@) == Some(b),
        b.in_range(),
        b.scaled() > 0,
        b.places() <= 27,
        11 * b.units() <= crate::amount::max_units(),
        expected_spend(s, today).in_range(),
        crate::amount::sum_fits(expected_spend(s, today), crate::amount::negated(b)),
    ensures
        ({
            let e = expected_spend(s, today).scaled();
            &&& excess_of(s, means, today) is Some <==> 10 * e >= 11 * b.scaled() && e - b.scaled()
                >= 50 * one()
            &&& excess_of(s, means, today) matches Some(x) ==> x.over.scaled() == e - b.scaled()
                && x.mtd == s.amount && x.category_id == s.category_id
        }),
{
    law_minus_exact(expected_spend(s, today), b);
    law_tenths(b, 11);
    crate::sums::lemma_whole(50);
    crate::amount::lemma_zero_scaled(b);
}

/// A category with nothing usual is never to brake.
pub proof fn law_no_excess_without_usual(s: CategorySpend, means: Seq<CategoryMean>, today: Date)
    requires
        usual(means, s.category_id@) is None,
    ensures
        excess_of(s, means, today) is None,
{
}

/// A category with three expenses or more is expected to go on at its pace: as many days as
/// are past are to the month as what it took is to what it comes to. With fewer it comes to
/// what it took.
pub proof fn law_expected_spend(s: CategorySpend, today: Date)
    requires
        s.amount.in_range(),
        today.valid(),
        s.amount.units() * last_day_of(today) <= crate::amount::max_units(),
        (s.amount.units() * last_day_of(today) as nat) % today.d() as nat == 0,
    ensures
        s.count >= 3 ==> today.d() * expected_spend(s, today).scaled() == last_day_of(today)
            * s.amount.scaled(),
        s.count < 3 ==> expected_spend(s, today) == s.amount,
{
    broadcast use crate::amount::lemma_made;

    let n = last_day_of(today);
    lemma_zero();
    crate::places::law_multiple_exact(s.amount, n);
    let m = times(s.amount, from_signed(n, 0));
    assert(m.units() % today.d() as nat == 0) by {
        if s.amount.units() == 0 {
            assert(m.units() == 0);
            assert(0nat % today.d() as nat == 0);
        } else {
            assert(m.units() == s.amount.units() * n as nat);
        }
    }
    law_quotient_exact(m, today.d());
}

/// What to brake are excesses, three at the most, the largest first; none that is left out
/// is larger than one that is listed.
pub proof fn law_braked_are_largest(data: PulseData, i: int, j: int)
    requires
        0 <= j < to_brake(data).len(),
        0 <= i < excesses(
            data.current_by_category@,
            data.baseline_by_category@,
            data.today,
        ).len(),
    ensures
        ({
            let all = excesses(data.current_by_category@, data.baseline_by_category@, data.today);
            let top = to_brake(data);
            &&& top.len() == (if all.len() < 3 {
                all.len() as int
            } else {
                3
            })
            &&& all.contains(top[j])
            &&& top.contains(all[i]) || all[i].over.scaled() <= top[j].over.scaled()
            &&& forall|k: int| 0 <= k < j ==> (#[trigger] top[k]).over.scaled()
                >= top[j].over.scaled()
        }),
{
    let all = excesses(data.current_by_category@, data.baseline_by_category@, data.today);
    let list = sorted(all);
    let top = to_brake(data);
    law_sorted(all);
    lemma_same_elements(all, list);
    assert(list.contains(list[j]));
    assert(all.contains(all[i]));
    let k = choose|k: int| 0 <= k < list.len() && list[k] == all[i];
    if k < top.len() {
        assert(top[k] == all[i]);
    } else {
        assert(Ranked::le(list[j], list[k]));
    }
    assert forall|k: int| 0 <= k < j implies (#[trigger] top[k]).over.scaled()
        >= top[j].over.scaled() by {
        assert(Ranked::le(list[k], list[j]));
    }
}

/// The excesses are those of the categories, each of which has its excess among them.
pub proof fn law_every_excess_is_found(
    spends: Seq<CategorySpend>,
    means: Seq<CategoryMean>,
    today: Date,
)
    ensures
        forall|e: CategoryOverspend| #[trigger]
            excesses(spends, means, today).contains(e) <==> exists|i: int|
                0 <= i < spends.len() && excess_of(#[trigger] spends[i], means, today) == Some(e),
    decreases spends.len(),
{
    if spends.len() > 0 {
        let t = spends.drop_last();
        law_every_excess_is_found(t, means, today);
        let (a, b) = (excesses(t, means, today), excesses(spends, means, today));
        let last = spends.len() - 1;
        assert forall|e: CategoryOverspend| #[trigger] b.contains(e) <==> exists|i: int|
            0 <= i < spends.len() && excess_of(#[trigger] spends[i], means, today) == Some(e) by {
            if b.contains(e) {
                let k = choose|k: int| 0 <= k < b.len() && b[k] == e;
                if k < a.len() {
                    assert(a[k] == e);
                    assert(a.contains(e));
                    let i = choose|i: int|
                        0 <= i < t.len() && excess_of(#[trigger] t[i], means, today) == Some(e);
                    assert(spends[i] == t[i]);
                } else {
                    assert(excess_of(spends[last], means, today) == Some(e));
                }
            }
            if exists|i: int|
                0 <= i < spends.len() && excess_of(#[trigger] spends[i], means, today) == Some(e) {
                let i = choose|i: int|
                    0 <= i < spends.len() && excess_of(#[trigger] spends[i], means, today) == Some(
                        e,
                    );
                if i < last {
                    assert(t[i] == spends[i]);
                    assert(a.contains(e));
                    let k = choose|k: int| 0 <= k < a.len() && a[k] == e;
                    assert(b[k] == e);
                } else {
                    assert(b[b.len() - 1] == e);
                }
            }
        }
    }
}

// ---------------------------------------------------------------------------
// Gathering

/// The months that a month is compared with are other months, at most three; where there
/// are fewer than three, every other month is among them, and none is passed over for one
/// behind it.
pub proof fn law_closed_months(rows: Seq<CashflowRow>, month: Seq<char>, i: int)
    requires
        0 <= i < rows.len(),
        rows[i].month_ref@ != month,
    ensures
        closed_months(rows, month).len() <= 3,
        closed_months(rows, month).contains(rows[i]) || closed_rows(rows, i, month).len() == 3,
        forall|j: int|
            0 <= j < closed_months(rows, month).len() ==> (
            #[trigger] closed_months(rows, month)[j]).month_ref@ != month && rows.contains(
                closed_months(rows, month)[j],
            ),
{
    lemma_closed_rows(rows, rows.len() as int, month, i);
}

proof fn lemma_closed_rows(rows: Seq<CashflowRow>, k: int, month: Seq<char>, i: int)
    requires
        0 <= k <= rows.len(),
        0 <= i < rows.len(),
        rows[i].month_ref@ != month,
    ensures
        closed_rows(rows, k, month).len() <= 3,
        i < k ==> closed_rows(rows, k, month).contains(rows[i]) || closed_rows(
            rows,
            i,
            month,
        ).len() == 3,
        forall|j: int|
            0 <= j < closed_rows(rows, k, month).len() ==> (
            #[trigger] closed_rows(rows, k, month)[j]).month_ref@ != month && rows.contains(
                closed_rows(rows, k, month)[j],
            ),
    decreases k,
{
    if k > 0 {
        lemma_closed_rows(rows, k - 1, month, i);
        let (a, b) = (closed_rows(rows, k - 1, month), closed_rows(rows, k, month));
        assert(rows.contains(rows[k - 1]));
        if i < k - 1 && a.contains(rows[i]) {
            let j = choose|j: int| 0 <= j < a.len() && a[j] == rows[i];
            assert(b[j] == rows[i]);
        }
        if i == k - 1 && a.len() < 3 {
            assert(b[b.len() - 1] == rows[i]);
        }
        assert forall|j: int| 0 <= j < b.len() implies (#[trigger] b[j]).month_ref@ != month
            && rows.contains(b[j]) by {
            if j < a.len() {
                assert(a[j] == b[j]);
            }
        }
    }
}

/// The rows of internal categories are left out, and no others.
pub proof fn law_visible_rows(rows: Seq<MonthlySpendRow>, internal: Seq<Seq<char>>, r: MonthlySpendRow)
    ensures
        visible(rows, internal).contains(r) <==> rows.contains(r) && !internal.contains(
            r.category_id@,
        ),
    decreases rows.len(),
{
    if rows.len() > 0 {
        let t = rows.drop_last();
        law_visible_rows(t, internal, r);
        crate::seqs::lemma_contains_last(rows, r);
        let (a, b) = (visible(t, internal), visible(rows, internal));
        if !internal.contains(rows.last().category_id@) {
            assert(b.drop_last() =~= a);
            crate::seqs::lemma_contains_last(b, r);
        }
    }
}

/// The budgets that are told of are those that alert or are used to four fifths, and no
/// others.
pub proof fn law_alerts(rows: Seq<BudgetStatusRow>, b: BudgetStatusRow)
    ensures
        alerts_of(rows).contains(b) <==> rows.contains(b) && (b.alert || b.usage_pct.scaled() >= 80
            * one()),
    decreases rows.len(),
{
    crate::sums::lemma_whole(80);
    if rows.len() > 0 {
        let t = rows.drop_last();
        law_alerts(t, b);
        crate::seqs::lemma_contains_last(rows, b);
        let (x, y) = (alerts_of(t), alerts_of(rows));
        if y.len() > x.len() {
            assert(y.drop_last() =~= x);
            crate::seqs::lemma_contains_last(y, b);
        }
    }
}

} // verus!
