//! The pulse of a month: how it is closing, what to brake, what is coming up.

use crate::amount::{
    abs, from_signed, limit, max_units, minus, one, plus, quotient, rounded, sum_of, times, zero,
    Amount,
};
use crate::date::{days_in_month, month_length, Date};
use crate::insights::CardSummaryRow;
use crate::order::{as_ints, group_by_key, group_keys, groups_of, lemma_group_keys, positions, sort, sorted, sorted_keys, Ranked};
use crate::records::AccountRecord;
use crate::scenario::{expenses, incomes, CashflowRow};
use crate::summary::holds;
use crate::sums::{
    full_weight, lemma_whole, mean, mean_of, modest, picked, scaled_by, shared_by, total_at,
    total_of_all,
};
use crate::text::{same, texts};
use vstd::prelude::*;

verus! {

/// What was spent on a category, and how often.
pub struct CategorySpend {
    pub category_id: String,
    pub amount: Amount,
    pub count: i64,
}

/// What a category usually takes in a month.
pub struct CategoryMean {
    pub category_id: String,
    pub amount: Amount,
}

/// A planned payment.
pub struct ForecastRecord {
    pub forecast_id: String,
    pub description: String,
    pub amount: Amount,
    pub due_date: Option<Date>,
}

/// How far a budget is used.
pub struct BudgetStatusRow {
    pub category_id: String,
    pub usage_pct: Amount,
    pub alert: bool,
}

/// Everything that a pulse tells of.
pub struct PulseData {
    pub today: Date,
    /// What came in and went out this month so far.
    pub mtd: CashflowRow,
    /// The mean of the last three closed months.
    pub baseline_t3m: CashflowRow,
    /// What was spent this month so far, by category.
    pub current_by_category: Vec<CategorySpend>,
    /// What the last three closed months took on the mean, by category.
    pub baseline_by_category: Vec<CategoryMean>,
    /// The planned payments of the rest of the month.
    pub upcoming: Vec<ForecastRecord>,
    pub upcoming_total: Amount,
    pub cards: Vec<CardSummaryRow>,
    pub accounts: Vec<AccountRecord>,
    pub budget_alerts: Vec<BudgetStatusRow>,
    pub uncategorized_count: i64,
}

pub open spec fn spend_names(list: Seq<CategorySpend>) -> Seq<Seq<char>> {
    list.map_values(|s: CategorySpend| s.category_id@)
}

pub open spec fn mean_names(list: Seq<CategoryMean>) -> Seq<Seq<char>> {
    list.map_values(|m: CategoryMean| m.category_id@)
}

impl PulseData {
    /// Whether no category is told of twice.
    pub open spec fn sound(self) -> bool {
        &&& spend_names(self.current_by_category@).no_duplicates()
        &&& mean_names(self.baseline_by_category@).no_duplicates()
    }
}

// ---------------------------------------------------------------------------
// The closing plan

/// How a month is closing.
#[derive(Clone, Copy, Debug, PartialEq, Eq, Structural)]
pub enum ClosingStatus {
    /// It closes at zero or above at the usual pace.
    OnTrack,
    /// It closes below zero, unless variable expenses are braked.
    Tight,
    /// It closes below zero even without any variable expense.
    Stretched,
}

/// A category that runs above its mean.
pub struct CategoryOverspend {
    pub category_id: String,
    pub mtd: Amount,
    pub over: Amount,
    pub over_pct: i64,
}

impl Ranked for CategoryOverspend {
    /// The largest excess first.
    open spec fn le(a: Self, b: Self) -> bool {
        a.over.scaled() >= b.over.scaled()
    }

    proof fn le_total(a: Self, b: Self) {
    }

    proof fn le_transitive(a: Self, b: Self, c: Self) {
    }

    fn may_precede(&self, other: &Self) -> (r: bool) {
        !self.over.is_less(&other.over)
    }
}

/// What needs to brake, and how much a week may take, to close at zero or above.
pub struct ClosingPlan {
    pub projected_eom_net: Amount,
    pub days_left: u32,
    pub weeks_left: u32,
    pub max_weekly_variable_for_zero: Option<Amount>,
    pub categories_to_brake: Vec<CategoryOverspend>,
    pub status: ClosingStatus,
}

/// The amount, or zero where it is below.
pub open spec fn at_least_zero(a: Amount) -> Amount {
    if a.scaled() > 0 {
        a
    } else {
        zero()
    }
}

fn floor_zero(a: Amount) -> (r: Amount)
    ensures
        r == at_least_zero(a),
        r.scaled() == larger(a.scaled(), 0),
        abs(r.scaled()) <= abs(a.scaled()),
{
    if a.is_above_zero() {
        a
    } else {
        let none = Amount::none();
        none.known();
        proof {
            broadcast use crate::amount::lemma_made;

            crate::amount::lemma_zero_scaled(none);
        }
        none
    }
}

pub open spec fn last_day_of(d: Date) -> int {
    month_length(d.y(), d.m())
}

pub open spec fn days_left_of(d: Date) -> int {
    last_day_of(d) - d.d()
}

/// The weeks that are left: what remains counts as a whole week, and there is at
/// least one.
pub open spec fn weeks_left_of(d: Date) -> int {
    if days_left_of(d) <= 0 {
        1
    } else {
        (days_left_of(d) + 6) / 7
    }
}

/// What the month comes to by what is known: what came in and is still expected,
/// less what went out and is planned.
pub open spec fn known_net(data: PulseData) -> Amount {
    let expected = at_least_zero(minus(data.baseline_t3m.income, data.mtd.income));
    minus(
        plus(data.mtd.income, expected),
        plus(data.mtd.expenses, data.upcoming_total),
    )
}

/// What the rest of the month takes at the usual pace, beyond what is planned.
pub open spec fn variable_rest(data: PulseData) -> Amount {
    let unplanned = at_least_zero(minus(data.baseline_t3m.expenses, data.upcoming_total));
    times(
        quotient(unplanned, from_signed(last_day_of(data.today), 0)),
        from_signed(days_left_of(data.today), 0),
    )
}

pub open spec fn projected_net(data: PulseData) -> Amount {
    minus(known_net(data), variable_rest(data))
}

pub open spec fn closing_status(data: PulseData) -> ClosingStatus {
    if projected_net(data).scaled() >= 0 {
        ClosingStatus::OnTrack
    } else if known_net(data).scaled() >= 0 {
        ClosingStatus::Tight
    } else {
        ClosingStatus::Stretched
    }
}

pub open spec fn weekly_allowance(data: PulseData) -> Option<Amount> {
    if known_net(data).scaled() > 0 {
        Some(
            at_least_zero(
                quotient(known_net(data), from_signed(weeks_left_of(data.today), 0)),
            ),
        )
    } else {
        None
    }
}

/// What a category usually takes.
pub open spec fn usual(means: Seq<CategoryMean>, id: Seq<char>) -> Option<Amount>
    decreases means.len(),
{
    if means.len() == 0 {
        None
    } else if means[0].category_id@ == id {
        Some(means[0].amount)
    } else {
        usual(means.drop_first(), id)
    }
}

/// What a category comes to at the end of the month: at the same pace where there
/// were three expenses or more, else what it took so far.
pub open spec fn expected_spend(s: CategorySpend, today: Date) -> Amount {
    if s.count >= 3 {
        quotient(
            times(s.amount, from_signed(last_day_of(today), 0)),
            from_signed(today.d(), 0),
        )
    } else {
        s.amount
    }
}

/// The excess as a percentage of what is usual.
pub open spec fn excess_percent(over: Amount, usual: Amount) -> i64 {
    if usual.scaled() > 0 {
        let p = rounded(times(quotient(over, usual), from_signed(100, 0)), 0);
        if i64::MIN <= p.signed() <= i64::MAX {
            p.signed() as i64
        } else {
            0
        }
    } else {
        0
    }
}

/// The excess of a category, where what is expected is above what is usual by a tenth
/// or more and by fifty or more.
pub open spec fn excess_of(s: CategorySpend, means: Seq<CategoryMean>, today: Date) -> Option<
    CategoryOverspend,
> {
    match usual(means, s.category_id@) {
        Some(b) if b.units() != 0 => {
            let expected = expected_spend(s, today);
            let over = minus(expected, b);
            if expected.scaled() >= times(b, from_signed(11, 1)).scaled() && over.scaled()
                >= from_signed(50, 0).scaled() {
                Some(
                    CategoryOverspend {
                        category_id: s.category_id,
                        mtd: s.amount,
                        over,
                        over_pct: excess_percent(over, b),
                    },
                )
            } else {
                None
            }
        },
        _ => None,
    }
}

/// The excesses of the categories.
pub open spec fn excesses(
    spends: Seq<CategorySpend>,
    means: Seq<CategoryMean>,
    today: Date,
) -> Seq<CategoryOverspend>
    decreases spends.len(),
{
    if spends.len() == 0 {
        Seq::empty()
    } else {
        let rest = excesses(spends.drop_last(), means, today);
        match excess_of(spends.last(), means, today) {
            Some(e) => rest.push(e),
            None => rest,
        }
    }
}

/// The three largest excesses.
pub open spec fn to_brake(data: PulseData) -> Seq<CategoryOverspend> {
    let all = sorted(
        excesses(data.current_by_category@, data.baseline_by_category@, data.today),
    );
    if all.len() <= 3 {
        all
    } else {
        all.take(3)
    }
}

/// The larger of two numbers.
pub open spec fn larger(a: int, b: int) -> int {
    if a >= b {
        a
    } else {
        b
    }
}

/// Whether no step toward what is known and what is projected can leave the range of
/// amounts. Each sum may be rounded by one.
pub open spec fn net_fits(
    income: Amount,
    expenses: Amount,
    usual_income: Amount,
    usual_expenses: Amount,
    upcoming: Amount,
) -> bool {
    let inflow = larger(income.scaled(), usual_income.scaled());
    let outflow = expenses.scaled() + upcoming.scaled();
    let unplanned = usual_expenses.scaled() - upcoming.scaled();
    &&& abs(usual_income.scaled() - income.scaled()) <= limit()
    &&& abs(inflow) + one() <= limit()
    &&& abs(outflow) <= limit()
    &&& abs(unplanned) <= limit()
    &&& abs(inflow - outflow) + abs(unplanned) + 40 * one() <= limit()
}

/// Whether no step of the plan can leave the range of amounts.
pub open spec fn plan_fits(data: PulseData) -> bool {
    &&& net_fits(
        data.mtd.income,
        data.mtd.expenses,
        data.baseline_t3m.income,
        data.baseline_t3m.expenses,
        data.upcoming_total,
    )
    &&& forall|i: int|
        0 <= i < data.current_by_category@.len() ==> spend_fits(
            #[trigger] data.current_by_category@[i],
            data.baseline_by_category@,
            data.today,
        )
}

/// The most that is computed with on the way to what a category comes to: what it took,
/// times the days of the month where it is paced.
pub open spec fn paced(s: CategorySpend, today: Date) -> int {
    if s.count >= 3 {
        last_day_of(today) * abs(s.amount.scaled())
    } else {
        abs(s.amount.scaled())
    }
}

/// Whether no step toward the excess of a category can leave the range of amounts. The
/// percentage needs that what is spent is not too many times what is usual.
pub open spec fn spend_fits(s: CategorySpend, means: Seq<CategoryMean>, today: Date) -> bool {
    match usual(means, s.category_id@) {
        Some(b) => b.units() != 0 ==> {
            let top = paced(s, today);
            let x = abs(b.scaled());
            &&& top + x + 3 * one() <= limit()
            &&& 11 * x <= 10 * limit()
            &&& b.scaled() > 0 ==> 100 * (top + 2 * x + 4 * one()) <= (max_units() - 1) * x
        },
        None => true,
    }
}

fn find_usual(means: &Vec<CategoryMean>, id: &str) -> (r: Option<Amount>)
    ensures
        r == usual(means@, id@),
{
    let mut i: usize = 0;
    assert(means@.skip(0) =~= means@);
    while i < means.len()
        invariant
            i <= means.len(),
            usual(means@, id@) == usual(means@.skip(i as int), id@),
        decreases means.len() - i,
    {
        assert(means@.skip(i as int).drop_first() =~= means@.skip(i + 1));
        if same(means[i].category_id.as_str(), id) {
            return Some(means[i].amount);
        }
        i = i + 1;
    }
    None
}

fn find_expected(s: &CategorySpend, today: &Date) -> (r: Amount)
    requires
        paced(*s, *today) + 2 * one() <= limit(),
    ensures
        r == expected_spend(*s, *today),
        abs(r.scaled()) <= paced(*s, *today) + 2 * one(),
{
    if s.count >= 3 {
        today.known();
        let last = days_in_month(today);
        let whole = scaled_by(&s.amount, last);
        shared_by(&whole, today.day())
    } else {
        s.amount
    }
}

fn find_percent(over: &Amount, usual: &Amount) -> (r: i64)
    requires
        usual.units() != 0,
        usual.scaled() > 0 ==> 100 * (abs(over.scaled()) + abs(usual.scaled())) <= (max_units() - 1)
            * abs(usual.scaled()),
    ensures
        r == excess_percent(*over, *usual),
{
    if !usual.is_above_zero() {
        return 0;
    }
    let share = over.divided(usual);
    let hundred = Amount::new(100, 0);
    proof {
        lemma_whole(100);
        let q = abs(share.scaled());
        let b = abs(usual.scaled());
        let o = abs(over.scaled());
        assert(100 * q <= max_units() * one()) by (nonlinear_arith)
            requires
                q * b <= (o + b) * one(),
                100 * (o + b) <= (max_units() - 1) * b,
                b > 0,
                one() > 0,
                o >= 0,
        ;
        assert(q * (100 * one()) <= limit() * one()) by (nonlinear_arith)
            requires
                100 * q <= limit(),
                one() >= 0,
        ;
    }
    let product = share.multiplied(&hundred);
    product.known();
    proof {
        crate::amount::lemma_rounded(product, 0);
    }
    match product.round_dp(0).to_i64() {
        Some(n) => n,
        None => 0,
    }
}

fn find_excess(s: &CategorySpend, means: &Vec<CategoryMean>, today: &Date) -> (r: Option<
    CategoryOverspend,
>)
    requires
        spend_fits(*s, means@, *today),
    ensures
        r == excess_of(*s, means@, *today),
{
    let b = match find_usual(means, s.category_id.as_str()) {
        Some(b) => b,
        None => {
            return None;
        },
    };
    if b.is_zero() {
        return None;
    }
    let expected = find_expected(s, today);
    let factor = Amount::new(11, 1);
    proof {
        broadcast use crate::amount::lemma_made;

        crate::amount::lemma_one();
        assert(crate::amount::pow10(28) == 10 * crate::amount::pow10(27));
        assert(factor.scaled() == 11 * crate::amount::pow10(27));
        assert(10 * factor.scaled() == 11 * one());
        let x = abs(b.scaled());
        let f = factor.scaled();
        assert(x * f <= limit() * one()) by (nonlinear_arith)
            requires
                10 * f == 11 * one(),
                11 * x <= 10 * limit(),
                x >= 0,
                one() > 0,
        ;
    }
    let threshold = b.multiplied(&factor);
    let over = expected.subtracted(&b);
    let least = Amount::new(50, 0);
    if !expected.is_less(&threshold) && !over.is_less(&least) {
        let over_pct = find_percent(&over, &b);
        Some(
            CategoryOverspend {
                category_id: s.category_id.clone(),
                mtd: s.amount,
                over,
                over_pct,
            },
        )
    } else {
        None
    }
}

fn find_excesses(data: &PulseData) -> (r: Vec<CategoryOverspend>)
    requires
        plan_fits(*data),
    ensures
        r@ == to_brake(*data),
{
    let spends = &data.current_by_category;
    let mut out: Vec<CategoryOverspend> = Vec::new();
    let mut i: usize = 0;
    assert(spends@.take(0) =~= Seq::<CategorySpend>::empty());
    while i < spends.len()
        invariant
            i <= spends.len(),
            spends@ == data.current_by_category@,
            plan_fits(*data),
            out@ == excesses(
                spends@.take(i as int),
                data.baseline_by_category@,
                data.today,
            ),
        decreases spends.len() - i,
    {
        assert(spends@.take(i + 1).drop_last() =~= spends@.take(i as int));
        assert(spend_fits(
            data.current_by_category@[i as int],
            data.baseline_by_category@,
            data.today,
        ));
        match find_excess(&spends[i], &data.baseline_by_category, &data.today) {
            Some(e) => {
                out.push(e);
            },
            None => {},
        }
        i = i + 1;
    }
    assert(spends@.take(i as int) =~= spends@);
    let mut all = sort(out);
    if all.len() > 3 {
        all.truncate(3);
        assert(all@ =~= to_brake(*data));
    }
    all
}

#[verifier::rlimit(40)]
fn find_known_net(
    income: Amount,
    expenses: Amount,
    usual_income: Amount,
    usual_expenses: Amount,
    upcoming: Amount,
) -> (r: Amount)
    requires
        net_fits(income, expenses, usual_income, usual_expenses, upcoming),
    ensures
        r == minus(
            plus(income, at_least_zero(minus(usual_income, income))),
            plus(expenses, upcoming),
        ),
        abs(r.scaled()) + abs(usual_expenses.scaled() - upcoming.scaled()) + 36 * one() <= limit(),
        abs(
            r.scaled() - (larger(income.scaled(), usual_income.scaled()) - expenses.scaled()
                - upcoming.scaled()),
        ) <= 4 * one(),
{
    let gap = usual_income.subtracted(&income);
    let expected = floor_zero(gap);
    let outflow = expenses.added(&upcoming);
    let inflow = income.added(&expected);
    inflow.subtracted(&outflow)
}

fn find_variable_rest(today: &Date, usual_expenses: Amount, upcoming: Amount) -> (r: Amount)
    requires
        abs(usual_expenses.scaled() - upcoming.scaled()) + 40 * one() <= limit(),
    ensures
        r == times(
            quotient(
                at_least_zero(minus(usual_expenses, upcoming)),
                from_signed(last_day_of(*today), 0),
            ),
            from_signed(days_left_of(*today), 0),
        ),
        r.scaled() >= 0,
        abs(r.scaled()) <= abs(usual_expenses.scaled() - upcoming.scaled()) + 34 * one(),
        abs(
            last_day_of(*today) * r.scaled() - days_left_of(*today) * larger(
                usual_expenses.scaled() - upcoming.scaled(),
                0,
            ),
        ) <= (days_left_of(*today) + 2) * last_day_of(*today) * one(),
{
    let last = days_in_month(today);
    today.known();
    let left: u32 = last - today.day();
    let gap = usual_expenses.subtracted(&upcoming);
    let unplanned = floor_zero(gap);
    let daily = shared_by(&unplanned, last);
    proof {
        let d = abs(daily.scaled());
        assert(left * d <= last * d && last * one() <= 31 * one()) by (nonlinear_arith)
            requires
                left <= last <= 31,
                d >= 0,
                one() > 0,
        ;
    }
    let r = scaled_by(&daily, left);
    proof {
        lemma_rest(
            last as int,
            left as int,
            daily.scaled(),
            unplanned.scaled(),
            larger(usual_expenses.scaled() - upcoming.scaled(), 0),
            r.scaled(),
        );
    }
    r
}

/// What roundings can add up to on the way to the rest of the month.
proof fn lemma_rest(last: int, left: int, daily: int, unplanned: int, exact: int, r: int)
    requires
        0 <= left < last,
        abs(last * daily - unplanned) <= last * one(),
        abs(unplanned - exact) <= one(),
        abs(r - left * daily) <= one(),
    ensures
        abs(last * r - left * exact) <= (left + 2) * last * one(),
{
    let (x, y, z) = (last * daily - unplanned, unplanned - exact, r - left * daily);
    let o = one();
    assert(last * r - left * exact == last * z + left * x + left * y) by (nonlinear_arith)
        requires
            x == last * daily - unplanned,
            y == unplanned - exact,
            z == r - left * daily,
    ;
    assert(-(last * o) <= last * z <= last * o) by (nonlinear_arith)
        requires
            -o <= z <= o,
            last >= 0,
    ;
    assert(-(left * (last * o)) <= left * x <= left * (last * o)) by (nonlinear_arith)
        requires
            -(last * o) <= x <= last * o,
            left >= 0,
    ;
    assert(-(last * o) <= left * y <= last * o) by (nonlinear_arith)
        requires
            -o <= y <= o,
            0 <= left <= last,
            o >= 0,
    ;
    assert((left + 2) * last * o == left * (last * o) + 2 * (last * o)) by (nonlinear_arith);
}

/// How the month is closing, what needs to brake, and how much a week may take. The
/// month is never expected to close above what is known, so it is stretched whenever
/// that is below zero.
pub fn compute_closing_plan(data: &PulseData) -> (r: ClosingPlan)
    requires
        plan_fits(*data),
    ensures
        r.projected_eom_net == projected_net(*data),
        r.days_left == days_left_of(data.today),
        r.weeks_left == weeks_left_of(data.today),
        r.max_weekly_variable_for_zero == weekly_allowance(*data),
        r.categories_to_brake@ == to_brake(*data),
        r.status == closing_status(*data),
        r.projected_eom_net.scaled() <= known_net(*data).scaled(),
        r.status == ClosingStatus::Stretched <==> known_net(*data).scaled() < 0,
        abs(
            known_net(*data).scaled() - (larger(
                data.mtd.income.scaled(),
                data.baseline_t3m.income.scaled(),
            ) - data.mtd.expenses.scaled() - data.upcoming_total.scaled()),
        ) <= 4 * one(),
        match r.max_weekly_variable_for_zero {
            Some(week) => {
                &&& week.scaled() >= 0
                &&& abs(r.weeks_left * week.scaled() - known_net(*data).scaled()) <= r.weeks_left
                    * one()
            },
            None => known_net(*data).scaled() <= 0,
        },
        abs(
            last_day_of(data.today) * (known_net(*data).scaled() - r.projected_eom_net.scaled())
                - r.days_left * larger(
                data.baseline_t3m.expenses.scaled() - data.upcoming_total.scaled(),
                0,
            ),
        ) <= (r.days_left + 3) * last_day_of(data.today) * one(),
{
    let last = days_in_month(&data.today);
    data.today.known();
    let days_left: u32 = last - data.today.day();
    let weeks_left: u32 = if days_left == 0 {
        1
    } else {
        (days_left + 6) / 7
    };
    let known = find_known_net(
        data.mtd.income,
        data.mtd.expenses,
        data.baseline_t3m.income,
        data.baseline_t3m.expenses,
        data.upcoming_total,
    );
    let rest = find_variable_rest(
        &data.today,
        data.baseline_t3m.expenses,
        data.upcoming_total,
    );
    let net = known.subtracted(&rest);
    proof {
        let (n, o) = (last as int, one());
        let gap = known.scaled() - rest.scaled() - net.scaled();
        let exact = larger(data.baseline_t3m.expenses.scaled() - data.upcoming_total.scaled(), 0);
        assert(n * (known.scaled() - net.scaled()) == n * rest.scaled() + n * gap)
            by (nonlinear_arith)
            requires
                gap == known.scaled() - rest.scaled() - net.scaled(),
        ;
        assert(-(n * o) <= n * gap <= n * o) by (nonlinear_arith)
            requires
                -o <= gap <= o,
                n >= 0,
        ;
        assert((days_left + 3) * n * o == (days_left + 2) * n * o + n * o) by (nonlinear_arith);
    }
    let weekly = if known.is_above_zero() {
        Some(floor_zero(shared_by(&known, weeks_left)))
    } else {
        None
    };
    let status = if !net.is_below_zero() {
        ClosingStatus::OnTrack
    } else if !known.is_below_zero() {
        ClosingStatus::Tight
    } else {
        ClosingStatus::Stretched
    };
    ClosingPlan {
        projected_eom_net: net,
        days_left,
        weeks_left,
        max_weekly_variable_for_zero: weekly,
        categories_to_brake: find_excesses(data),
        status,
    }
}

/// A month that is on track closes at zero or above; one that is stretched does not
/// even before any variable expense.
pub proof fn law_status_tells_net(data: PulseData)
    ensures
        closing_status(data) == ClosingStatus::OnTrack <==> projected_net(data).scaled() >= 0,
        closing_status(data) == ClosingStatus::Stretched ==> known_net(data).scaled() < 0,
        closing_status(data) == ClosingStatus::Tight ==> projected_net(data).scaled() < 0
            && known_net(data).scaled() >= 0,
{
}

proof fn lemma_excess_names(spends: Seq<CategorySpend>, means: Seq<CategoryMean>, today: Date)
    requires
        spend_names(spends).no_duplicates(),
    ensures
        forall|k: int|
            0 <= k < excesses(spends, means, today).len() ==> spend_names(spends).contains(
                (#[trigger] excesses(spends, means, today)[k]).category_id@,
            ),
        forall|i: int, j: int|
            0 <= i < j < excesses(spends, means, today).len() ==> (#[trigger] excesses(
                spends,
                means,
                today,
            )[i]).category_id@ != (#[trigger] excesses(spends, means, today)[j]).category_id@,
    decreases spends.len(),
{
    if spends.len() > 0 {
        let head = spends.drop_last();
        let n = head.len() as int;
        let names = spend_names(spends);
        assert(spend_names(head) =~= names.drop_last());
        assert forall|i: int, j: int|
            0 <= i < n && 0 <= j < n && i != j implies spend_names(head)[i] != spend_names(
            head,
        )[j] by {
            assert(names[i] != names[j]);
        }
        lemma_excess_names(head, means, today);
        let before = excesses(head, means, today);
        let all = excesses(spends, means, today);
        assert(names[n] == spends.last().category_id@);
        assert forall|k: int| 0 <= k < all.len() implies names.contains(
            (#[trigger] all[k]).category_id@,
        ) by {
            if k < before.len() {
                assert(all[k] == before[k]);
                let i = choose|i: int|
                    0 <= i < n && spend_names(head)[i] == before[k].category_id@;
                assert(names[i] == before[k].category_id@);
            }
        }
        assert forall|i: int, j: int| 0 <= i < j < all.len() implies (
        #[trigger] all[i]).category_id@ != (#[trigger] all[j]).category_id@ by {
            assert(all[i] == before[i]);
            if j < before.len() {
                assert(all[j] == before[j]);
            } else {
                let k = choose|k: int|
                    0 <= k < n && spend_names(head)[k] == before[i].category_id@;
                assert(names[k] != names[n]);
            }
        }
    }
}

/// No category is listed twice among those to brake.
pub proof fn law_braked_once(data: PulseData)
    requires
        data.sound(),
    ensures
        forall|i: int, j: int|
            0 <= i < j < to_brake(data).len() ==> (#[trigger] to_brake(data)[i]).category_id@ != (
            #[trigger] to_brake(data)[j]).category_id@,
{
    let found = excesses(data.current_by_category@, data.baseline_by_category@, data.today);
    lemma_excess_names(data.current_by_category@, data.baseline_by_category@, data.today);
    assert(found.no_duplicates());
    let all = sorted(found);
    crate::order::law_sorted(found);
    crate::order::lemma_same_elements(found, all);
    assert forall|i: int, j: int| 0 <= i < j < all.len() implies (
    #[trigger] all[i]).category_id@ != (#[trigger] all[j]).category_id@ by {
        assert(all.contains(all[i]) && all.contains(all[j]));
        let a = choose|a: int| 0 <= a < found.len() && found[a] == all[i];
        let b = choose|b: int| 0 <= b < found.len() && found[b] == all[j];
        assert(all[i] != all[j]);
        if a < b {
            assert(found[a].category_id@ != found[b].category_id@);
        } else {
            assert(found[b].category_id@ != found[a].category_id@);
        }
    }
}

// ---------------------------------------------------------------------------
// Gathering

/// What a category took in a month on an account.
pub struct MonthlySpendRow {
    pub month_ref: String,
    pub category_id: String,
    pub expenses: Amount,
    pub expense_count: i64,
}

/// What the store answers when a pulse is gathered.
pub struct PulseReplies {
    pub internal_categories: Vec<String>,
    /// The cash flow of this month and the months before it, the latest first.
    pub cashflow: Vec<CashflowRow>,
    /// What this month's categories took.
    pub monthly_spend: Vec<MonthlySpendRow>,
    /// What the categories of the last three closed months took.
    pub closed_spend: Vec<MonthlySpendRow>,
    pub upcoming: Vec<ForecastRecord>,
    pub cards: Vec<CardSummaryRow>,
    pub accounts: Vec<AccountRecord>,
    pub budgets: Vec<BudgetStatusRow>,
    pub uncategorized_count: i64,
}

/// The days for which planned payments are asked: tomorrow to the end of the month.
pub fn upcoming_window(today: &Date) -> (r: Option<(Date, Date)>)
    ensures
        match r {
            Some((first, last)) => {
                &&& today.d() < last_day_of(*today)
                &&& first.valid()
                &&& first.number() == today.number() + 1
                &&& last == crate::date::date_of(today.y(), today.m(), last_day_of(*today))
            },
            None => today.d() == last_day_of(*today),
        },
{
    today.known();
    let last = days_in_month(today);
    if today.day() == last {
        return None;
    }
    let first = Date::from_ymd_opt(today.year(), today.month(), today.day() + 1);
    let end = Date::from_ymd_opt(today.year(), today.month(), last);
    proof {
        broadcast use crate::date::lemma_date_of;

    }
    match (first, end) {
        (Some(a), Some(b)) => Some((a, b)),
        _ => None,
    }
}

/// The first row of the month.
pub open spec fn row_of_month(rows: Seq<CashflowRow>, month: Seq<char>) -> Option<CashflowRow>
    decreases rows.len(),
{
    if rows.len() == 0 {
        None
    } else if rows[0].month_ref@ == month {
        Some(rows[0])
    } else {
        row_of_month(rows.drop_first(), month)
    }
}

/// Whether the row is that of the month; a month without one has zeros.
pub open spec fn is_mtd(row: CashflowRow, rows: Seq<CashflowRow>, month: Seq<char>) -> bool {
    match row_of_month(rows, month) {
        Some(found) => row == found,
        None => row.month_ref@ == month && row.income == zero() && row.expenses == zero() && row.net
            == zero() && row.expense_reduction == zero() && row.opening_balance is None
            && row.closing_balance is None,
    }
}

fn copy_row(row: &CashflowRow) -> (r: CashflowRow)
    ensures
        r == *row,
{
    CashflowRow {
        month_ref: row.month_ref.clone(),
        income: row.income,
        expenses: row.expenses,
        expense_reduction: row.expense_reduction,
        net: row.net,
        opening_balance: row.opening_balance,
        closing_balance: row.closing_balance,
    }
}

fn find_mtd(rows: &Vec<CashflowRow>, month: &str) -> (r: CashflowRow)
    ensures
        is_mtd(r, rows@, month@),
{
    let mut i: usize = 0;
    assert(rows@.skip(0) =~= rows@);
    while i < rows.len()
        invariant
            i <= rows.len(),
            row_of_month(rows@, month@) == row_of_month(rows@.skip(i as int), month@),
        decreases rows.len() - i,
    {
        assert(rows@.skip(i as int).drop_first() =~= rows@.skip(i + 1));
        if same(rows[i].month_ref.as_str(), month) {
            return copy_row(&rows[i]);
        }
        i = i + 1;
    }
    CashflowRow {
        month_ref: month.to_string(),
        income: Amount::none(),
        expenses: Amount::none(),
        expense_reduction: Amount::none(),
        net: Amount::none(),
        opening_balance: None,
        closing_balance: None,
    }
}

/// The first three rows of other months, among the first `k`.
pub open spec fn closed_rows(rows: Seq<CashflowRow>, k: int, month: Seq<char>) -> Seq<CashflowRow>
    decreases k,
{
    if k <= 0 {
        Seq::empty()
    } else {
        let before = closed_rows(rows, k - 1, month);
        if before.len() < 3 && rows[k - 1].month_ref@ != month {
            before.push(rows[k - 1])
        } else {
            before
        }
    }
}

/// The closed months that a pulse compares with.
pub open spec fn closed_months(rows: Seq<CashflowRow>, month: Seq<char>) -> Seq<CashflowRow> {
    closed_rows(rows, rows.len() as int, month)
}

/// Whether the row is the mean of the closed months.
pub open spec fn is_baseline(row: CashflowRow, closed: Seq<CashflowRow>) -> bool {
    &&& row.month_ref@ == "T3M"@
    &&& row.expense_reduction == zero()
    &&& row.opening_balance is None
    &&& row.closing_balance is None
    &&& if closed.len() == 0 {
        row.income == zero() && row.expenses == zero() && row.net == zero()
    } else {
        row.income == mean_of(incomes(closed)) && row.expenses == mean_of(expenses(closed))
            && row.net == minus(row.income, row.expenses)
    }
}

fn find_baseline(rows: &Vec<CashflowRow>, month: &str) -> (r: CashflowRow)
    requires
        modest(incomes(closed_months(rows@, month@))),
        modest(expenses(closed_months(rows@, month@))),
        2 * (full_weight(incomes(closed_months(rows@, month@))) + full_weight(
            expenses(closed_months(rows@, month@)),
        ) + 2 * one()) <= limit(),
    ensures
        is_baseline(r, closed_months(rows@, month@)),
{
    let mut income: Vec<Amount> = Vec::new();
    let mut expense: Vec<Amount> = Vec::new();
    let mut i: usize = 0;
    assert(incomes(closed_rows(rows@, 0, month@)) =~= income@);
    assert(expenses(closed_rows(rows@, 0, month@)) =~= expense@);
    while i < rows.len()
        invariant
            i <= rows.len(),
            income@ == incomes(closed_rows(rows@, i as int, month@)),
            expense@ == expenses(closed_rows(rows@, i as int, month@)),
            income@.len() <= 3,
        decreases rows.len() - i,
    {
        let ghost before = closed_rows(rows@, i as int, month@);
        if income.len() < 3 && !same(rows[i].month_ref.as_str(), month) {
            income.push(rows[i].income);
            expense.push(rows[i].expenses);
            assert(closed_rows(rows@, i + 1, month@) == before.push(rows@[i as int]));
            assert(income@ =~= incomes(before.push(rows@[i as int])));
            assert(expense@ =~= expenses(before.push(rows@[i as int])));
        }
        i = i + 1;
    }
    let (a, b, n) = if income.len() == 0 {
        (Amount::none(), Amount::none(), Amount::none())
    } else {
        let a = mean(&income);
        let b = mean(&expense);
        (a, b, a.subtracted(&b))
    };
    CashflowRow {
        month_ref: "T3M".to_string(),
        income: a,
        expenses: b,
        expense_reduction: Amount::none(),
        net: n,
        opening_balance: None,
        closing_balance: None,
    }
}

/// The rows of categories that are not internal.
pub open spec fn visible(rows: Seq<MonthlySpendRow>, internal: Seq<Seq<char>>) -> Seq<
    MonthlySpendRow,
>
    decreases rows.len(),
{
    if rows.len() == 0 {
        Seq::empty()
    } else if internal.contains(rows.last().category_id@) {
        visible(rows.drop_last(), internal)
    } else {
        visible(rows.drop_last(), internal).push(rows.last())
    }
}

pub open spec fn spend_ids(rows: Seq<MonthlySpendRow>) -> Seq<Seq<char>> {
    rows.map_values(|r: MonthlySpendRow| r.category_id@)
}

pub open spec fn spend_amounts(rows: Seq<MonthlySpendRow>) -> Seq<Amount> {
    rows.map_values(|r: MonthlySpendRow| r.expenses)
}

/// How many expenses the rows at the positions stand for.
pub open spec fn count_at(rows: Seq<MonthlySpendRow>, at: Seq<int>) -> int
    decreases at.len(),
{
    if at.len() == 0 {
        0
    } else {
        count_at(rows, at.drop_last()) + rows[at.last()].expense_count
    }
}

/// Whether the counts can be added.
pub open spec fn counts_fit(rows: Seq<MonthlySpendRow>) -> bool {
    &&& rows.len() <= 0x7fff_ffff
    &&& forall|i: int|
        0 <= i < rows.len() ==> 0 <= (#[trigger] rows[i]).expense_count <= 0x7fff_ffff
}

/// What each category took and how often, ordered by category.
pub open spec fn is_spend_by_category(
    list: Seq<CategorySpend>,
    rows: Seq<MonthlySpendRow>,
) -> bool {
    let ids = sorted_keys(spend_ids(rows));
    &&& list.len() == ids.len()
    &&& forall|i: int|
        0 <= i < ids.len() ==> {
            let at = positions(spend_ids(rows), ids[i]);
            &&& (#[trigger] list[i]).category_id@ == ids[i]
            &&& list[i].amount == sum_of(picked(spend_amounts(rows), at))
            &&& list[i].count == count_at(rows, at)
        }
}

/// What each category took in a month on the mean of three, ordered by category.
pub open spec fn is_mean_by_category(list: Seq<CategoryMean>, rows: Seq<MonthlySpendRow>) -> bool {
    let ids = sorted_keys(spend_ids(rows));
    &&& list.len() == ids.len()
    &&& forall|i: int|
        0 <= i < ids.len() ==> {
            let at = positions(spend_ids(rows), ids[i]);
            &&& (#[trigger] list[i]).category_id@ == ids[i]
            &&& list[i].amount == quotient(
                sum_of(picked(spend_amounts(rows), at)),
                from_signed(3, 0),
            )
        }
}

fn find_visible(rows: &Vec<MonthlySpendRow>, internal: &Vec<String>) -> (r: Vec<MonthlySpendRow>)
    ensures
        r@ == visible(rows@, texts(internal@)),
{
    let mut out: Vec<MonthlySpendRow> = Vec::new();
    let mut i: usize = 0;
    assert(rows@.take(0) =~= Seq::<MonthlySpendRow>::empty());
    while i < rows.len()
        invariant
            i <= rows.len(),
            out@ == visible(rows@.take(i as int), texts(internal@)),
        decreases rows.len() - i,
    {
        assert(rows@.take(i + 1).drop_last() =~= rows@.take(i as int));
        if !holds(internal, rows[i].category_id.as_str()) {
            out.push(
                MonthlySpendRow {
                    month_ref: rows[i].month_ref.clone(),
                    category_id: rows[i].category_id.clone(),
                    expenses: rows[i].expenses,
                    expense_count: rows[i].expense_count,
                },
            );
        }
        i = i + 1;
    }
    assert(rows@.take(i as int) =~= rows@);
    out
}

fn spend_columns(rows: &Vec<MonthlySpendRow>) -> (r: (Vec<String>, Vec<Amount>))
    ensures
        texts(r.0@) == spend_ids(rows@),
        r.1@ == spend_amounts(rows@),
{
    let mut ids: Vec<String> = Vec::new();
    let mut amounts: Vec<Amount> = Vec::new();
    let mut i: usize = 0;
    while i < rows.len()
        invariant
            i <= rows.len(),
            ids@.len() == i,
            amounts@.len() == i,
            forall|k: int| 0 <= k < i ==> (#[trigger] ids@[k])@ == rows@[k].category_id@,
            forall|k: int| 0 <= k < i ==> (#[trigger] amounts@[k]) == rows@[k].expenses,
        decreases rows.len() - i,
    {
        ids.push(rows[i].category_id.clone());
        amounts.push(rows[i].expenses);
        i = i + 1;
    }
    assert(texts(ids@) =~= spend_ids(rows@));
    assert(amounts@ =~= spend_amounts(rows@));
    (ids, amounts)
}

fn add_counts(rows: &Vec<MonthlySpendRow>, at: &Vec<usize>) -> (r: i64)
    requires
        counts_fit(rows@),
        at@.len() <= rows@.len(),
        forall|k: int| 0 <= k < at@.len() ==> (#[trigger] at@[k]) < rows@.len(),
    ensures
        r == count_at(rows@, as_ints(at@)),
{
    let ghost ints = as_ints(at@);
    let mut n: i64 = 0;
    let mut i: usize = 0;
    assert(ints.take(0) =~= Seq::<int>::empty());
    while i < at.len()
        invariant
            i <= at.len(),
            ints == as_ints(at@),
            counts_fit(rows@),
            at@.len() <= rows@.len(),
            forall|k: int| 0 <= k < at@.len() ==> (#[trigger] at@[k]) < rows@.len(),
            n == count_at(rows@, ints.take(i as int)),
            0 <= n <= i * 0x7fff_ffff,
        decreases at.len() - i,
    {
        proof {
            assert(ints.take(i + 1).drop_last() =~= ints.take(i as int));
            assert(ints[i as int] == at@[i as int]);
            assert(0 <= rows@[at@[i as int] as int].expense_count <= 0x7fff_ffff);
            assert((i + 1) * 0x7fff_ffff == i * 0x7fff_ffff + 0x7fff_ffff);
        }
        n = n + rows[at[i]].expense_count;
        i = i + 1;
    }
    assert(ints.take(i as int) =~= ints);
    n
}

fn spend_by_category(rows: &Vec<MonthlySpendRow>) -> (r: Vec<CategorySpend>)
    requires
        full_weight(spend_amounts(rows@)) <= limit(),
        counts_fit(rows@),
    ensures
        is_spend_by_category(r@, rows@),
{
    let (ids, amounts) = spend_columns(rows);
    let groups = group_by_key(&ids);
    let ghost all = spend_ids(rows@);
    proof {
        lemma_group_keys(groups@, all);
    }
    let mut out: Vec<CategorySpend> = Vec::new();
    let mut i: usize = 0;
    while i < groups.len()
        invariant
            i <= groups.len(),
            all == spend_ids(rows@),
            groups_of(groups@, all),
            group_keys(groups@) == sorted_keys(all),
            amounts@ == spend_amounts(rows@),
            full_weight(spend_amounts(rows@)) <= limit(),
            counts_fit(rows@),
            out@.len() == i,
            forall|k: int|
                0 <= k < i ==> {
                    let at = positions(all, sorted_keys(all)[k]);
                    &&& (#[trigger] out@[k]).category_id@ == sorted_keys(all)[k]
                    &&& out@[k].amount == sum_of(picked(spend_amounts(rows@), at))
                    &&& out@[k].count == count_at(rows@, at)
                },
        decreases groups.len() - i,
    {
        let members = &groups[i].members;
        proof {
            assert(group_keys(groups@)[i as int] == groups@[i as int].key@);
            crate::order::lemma_positions(all, groups@[i as int].key@);
            assert(as_ints(members@).len() == members@.len());
            assert forall|k: int| 0 <= k < members@.len() implies (#[trigger] members@[k])
                < rows@.len() by {
                assert(as_ints(members@)[k] == members@[k]);
            }
        }
        let amount = total_at(&amounts, members);
        let count = add_counts(rows, members);
        out.push(CategorySpend { category_id: groups[i].key.clone(), amount, count });
        i = i + 1;
    }
    assert(group_keys(groups@).len() == groups@.len());
    out
}

fn mean_by_category(rows: &Vec<MonthlySpendRow>) -> (r: Vec<CategoryMean>)
    requires
        modest(spend_amounts(rows@)),
    ensures
        is_mean_by_category(r@, rows@),
{
    let (ids, amounts) = spend_columns(rows);
    let groups = group_by_key(&ids);
    let ghost all = spend_ids(rows@);
    proof {
        lemma_group_keys(groups@, all);
    }
    let mut out: Vec<CategoryMean> = Vec::new();
    let mut i: usize = 0;
    while i < groups.len()
        invariant
            i <= groups.len(),
            all == spend_ids(rows@),
            groups_of(groups@, all),
            group_keys(groups@) == sorted_keys(all),
            amounts@ == spend_amounts(rows@),
            modest(spend_amounts(rows@)),
            out@.len() == i,
            forall|k: int|
                0 <= k < i ==> {
                    let at = positions(all, sorted_keys(all)[k]);
                    &&& (#[trigger] out@[k]).category_id@ == sorted_keys(all)[k]
                    &&& out@[k].amount == quotient(
                        sum_of(picked(spend_amounts(rows@), at)),
                        from_signed(3, 0),
                    )
                },
        decreases groups.len() - i,
    {
        let members = &groups[i].members;
        proof {
            assert(group_keys(groups@)[i as int] == groups@[i as int].key@);
            crate::order::lemma_positions(all, groups@[i as int].key@);
            crate::sums::lemma_ascending_weight(amounts@, as_ints(members@));
        }
        let sum = total_at(&amounts, members);
        out.push(
            CategoryMean { category_id: groups[i].key.clone(), amount: shared_by(&sum, 3) },
        );
        i = i + 1;
    }
    assert(group_keys(groups@).len() == groups@.len());
    out
}

pub open spec fn sizes(rows: Seq<ForecastRecord>) -> Seq<Amount> {
    rows.map_values(|f: ForecastRecord| crate::amount::magnitude(f.amount))
}

/// Whether a budget is told of: it alerts, or four fifths of it are used.
pub open spec fn is_alert(b: BudgetStatusRow) -> bool {
    b.alert || b.usage_pct.scaled() >= from_signed(80, 0).scaled()
}

/// The budgets that are told of.
pub open spec fn alerts_of(rows: Seq<BudgetStatusRow>) -> Seq<BudgetStatusRow>
    decreases rows.len(),
{
    if rows.len() == 0 {
        Seq::empty()
    } else if is_alert(rows.last()) {
        alerts_of(rows.drop_last()).push(rows.last())
    } else {
        alerts_of(rows.drop_last())
    }
}

fn find_alerts(rows: Vec<BudgetStatusRow>) -> (r: Vec<BudgetStatusRow>)
    ensures
        r@ == alerts_of(rows@),
{
    let ghost all = rows@;
    let mut rest = rows;
    let n: usize = rest.len();
    let least = Amount::new(80, 0);
    let mut out: Vec<BudgetStatusRow> = Vec::new();
    let mut i: usize = 0;
    assert(all.take(0) =~= Seq::<BudgetStatusRow>::empty());
    while i < n
        invariant
            i <= n,
            n == all.len(),
            least == from_signed(80, 0),
            rest@ == all.skip(i as int),
            out@ == alerts_of(all.take(i as int)),
        decreases n - i,
    {
        assert(all.take(i + 1).drop_last() =~= all.take(i as int));
        let row = rest.remove(0);
        assert(row == all[i as int]);
        assert(rest@ =~= all.skip(i + 1));
        if row.alert || !row.usage_pct.is_less(&least) {
            out.push(row);
        }
        i = i + 1;
    }
    assert(all.take(i as int) =~= all);
    out
}

fn upcoming_sum(rows: &Vec<ForecastRecord>) -> (r: Amount)
    requires
        full_weight(sizes(rows@)) <= limit(),
    ensures
        r == sum_of(sizes(rows@)),
{
    let mut list: Vec<Amount> = Vec::new();
    let mut i: usize = 0;
    while i < rows.len()
        invariant
            i <= rows.len(),
            list@ == sizes(rows@).take(i as int),
        decreases rows.len() - i,
    {
        list.push(rows[i].amount.abs());
        i = i + 1;
        assert(list@ =~= sizes(rows@).take(i as int));
    }
    assert(list@ =~= sizes(rows@));
    total_of_all(&list)
}

/// Whether the sums of a pulse stay within the range of amounts.
pub open spec fn gathering_fits(replies: PulseReplies, month: Seq<char>) -> bool {
    let closed = closed_months(replies.cashflow@, month);
    let internal = texts(replies.internal_categories@);
    let now = visible(replies.monthly_spend@, internal);
    &&& modest(incomes(closed))
    &&& modest(expenses(closed))
    &&& 2 * (full_weight(incomes(closed)) + full_weight(expenses(closed)) + 2 * one()) <= limit()
    &&& full_weight(spend_amounts(now)) <= limit()
    &&& counts_fit(now)
    &&& modest(spend_amounts(visible(replies.closed_spend@, internal)))
    &&& full_weight(sizes(replies.upcoming@)) <= limit()
}

proof fn lemma_ascending_apart(s: Seq<Seq<char>>)
    requires
        crate::order::strictly_ascending(s),
    ensures
        s.no_duplicates(),
{
    assert forall|i: int, j: int| 0 <= i < s.len() && 0 <= j < s.len() && i != j implies s[i]
        != s[j] by {
        crate::text::lemma_precedes_irreflexive(s[i]);
        if i < j {
            assert(crate::text::precedes(s[i], s[j]));
        } else {
            assert(crate::text::precedes(s[j], s[i]));
        }
    }
}

/// Puts together what a pulse tells of. No category is told of twice.
pub fn gather_pulse_data(today: &Date, days: i64, replies: PulseReplies) -> (r: Result<
    PulseData,
    String,
>)
    requires
        -crate::date::MOST_DAYS <= days - 1 <= crate::date::MOST_DAYS,
        gathering_fits(
            replies,
            crate::date::plain_month_text(today.y(), today.m()),
        ),
    ensures
        match r {
            Ok(data) => {
                let month = crate::date::plain_month_text(today.y(), today.m());
                let internal = texts(replies.internal_categories@);
                &&& data.sound()
                &&& data.today == *today
                &&& is_mtd(data.mtd, replies.cashflow@, month)
                &&& is_baseline(data.baseline_t3m, closed_months(replies.cashflow@, month))
                &&& is_spend_by_category(
                    data.current_by_category@,
                    visible(replies.monthly_spend@, internal),
                )
                &&& is_mean_by_category(
                    data.baseline_by_category@,
                    visible(replies.closed_spend@, internal),
                )
                &&& data.upcoming@ == replies.upcoming@
                &&& data.upcoming_total == sum_of(sizes(replies.upcoming@))
                &&& data.cards@ == replies.cards@
                &&& data.accounts@ == replies.accounts@
                &&& data.budget_alerts@ == alerts_of(replies.budgets@)
                &&& data.uncategorized_count == replies.uncategorized_count
            },
            Err(e) => e@ == "janela invalida"@ && !crate::date::in_calendar(
                today.number() - (days - 1),
            ),
        },
        crate::date::in_calendar(today.number() - (days - 1)) ==> r is Ok,
{
    match crate::health::window_start(today, days, "janela invalida") {
        Ok(_) => {},
        Err(e) => {
            return Err(e);
        },
    }
    let month = crate::date::month_ref(today);
    let mtd = find_mtd(&replies.cashflow, month.as_str());
    let baseline_t3m = find_baseline(&replies.cashflow, month.as_str());
    let current = find_visible(&replies.monthly_spend, &replies.internal_categories);
    let closed = find_visible(&replies.closed_spend, &replies.internal_categories);
    let upcoming_total = upcoming_sum(&replies.upcoming);
    let current_by_category = spend_by_category(&current);
    let baseline_by_category = mean_by_category(&closed);
    proof {
        let a = spend_ids(current@);
        let b = spend_ids(closed@);
        crate::order::law_sorted_keys(a);
        crate::order::law_sorted_keys(b);
        lemma_ascending_apart(sorted_keys(a));
        lemma_ascending_apart(sorted_keys(b));
        assert(spend_names(current_by_category@) =~= sorted_keys(a));
        assert(mean_names(baseline_by_category@) =~= sorted_keys(b));
    }
    Ok(
        PulseData {
            today: *today,
            mtd,
            baseline_t3m,
            current_by_category,
            baseline_by_category,
            upcoming: replies.upcoming,
            upcoming_total,
            cards: replies.cards,
            accounts: replies.accounts,
            budget_alerts: find_alerts(replies.budgets),
            uncategorized_count: replies.uncategorized_count,
        },
    )
}

} // verus!
