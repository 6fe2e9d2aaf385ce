//! What a month may come to, by what the months before it came to.

use crate::amount::{
    abs, limit, minus, one, plus, sum_of, Amount,
};
use crate::date::{
    default_scenario_month, iso_text, month_ref_for, month_start, month_text, parse_month_ref,
    shift_month, shifted_month, Date,
};
use crate::order::{sort, sorted, Ranked};
use crate::sums::{full_weight, mean, mean_of, total_of_all};
use crate::text::{
    glue3, lemma_precedes_asymmetric, lemma_precedes_total, lemma_precedes_transitive, less,
    precedes, same, texts,
};
use vstd::prelude::*;

verus! {

/// What came in and what went out in a month.
pub struct CashflowRow {
    pub month_ref: String,
    pub income: Amount,
    pub expenses: Amount,
    pub expense_reduction: Amount,
    pub net: Amount,
    pub opening_balance: Option<Amount>,
    pub closing_balance: Option<Amount>,
}

impl Ranked for CashflowRow {
    /// The latest month first.
    open spec fn le(a: Self, b: Self) -> bool {
        !precedes(a.month_ref@, b.month_ref@)
    }

    proof fn le_total(a: Self, b: Self) {
        if precedes(a.month_ref@, b.month_ref@) {
            lemma_precedes_asymmetric(a.month_ref@, b.month_ref@);
        }
    }

    proof fn le_transitive(a: Self, b: Self, c: Self) {
        let (x, y, z) = (a.month_ref@, b.month_ref@, c.month_ref@);
        if precedes(x, z) {
            lemma_precedes_total(y, z);
            if precedes(z, y) {
                lemma_precedes_transitive(x, z, y);
            }
        }
    }

    fn may_precede(&self, other: &Self) -> (r: bool) {
        !less(self.month_ref.as_str(), other.month_ref.as_str())
    }
}

/// The months that a scenario needs.
pub struct ScenarioPlan {
    pub target_month: String,
    pub current_month: String,
    pub carryover_month: String,
    pub history_months: usize,
    /// How many months of history are to be fetched.
    pub fetch_months: usize,
}

/// The month that a scenario is about: the given one, else today's.
pub open spec fn target_of(month: Option<&str>, today: Date) -> Seq<char> {
    match month {
        Some(m) => m@,
        None => month_text(today),
    }
}

/// The months that a scenario needs.
pub fn plan_scenario(month: Option<&str>, today: &Date, history_months: usize) -> (r: Result<
    ScenarioPlan,
    String,
>)
    ensures
        match r {
            Ok(p) => {
                &&& p.target_month@ == target_of(month, *today)
                &&& p.current_month@ == month_text(*today)
                &&& p.history_months == (if history_months == 0 {
                    1
                } else {
                    history_months
                })
                &&& p.fetch_months == (if p.history_months > usize::MAX - 12 {
                    usize::MAX as int
                } else {
                    p.history_months + 12
                })
                &&& exists|d: Date|
                    {
                        &&& d.valid()
                        &&& month_start(p.target_month@) == Some((d.y(), d.m(), d.d()))
                        &&& #[trigger] shifted_month(d, -1) is Some
                        &&& p.carryover_month@ == month_text(shifted_month(d, -1)->0)
                    }
            },
            Err(e) => {
                let t = target_of(month, *today);
                (month_start(t) is None && e@ == "month inválido: "@ + t + " (esperado YYYY-MM)"@)
                    || exists|d: Date|
                    {
                        &&& d.valid()
                        &&& month_start(t) == Some((d.y(), d.m(), d.d()))
                        &&& #[trigger] shifted_month(d, -1) is None
                        &&& e@ == "Falha ao calcular mês deslocado a partir de "@ + iso_text(d)
                    }
            },
        },
{
    let target = match month {
        Some(m) => m.to_string(),
        None => default_scenario_month(today),
    };
    let first = match parse_month_ref(target.as_str()) {
        Ok(d) => d,
        Err(e) => {
            return Err(e);
        },
    };
    let carryover = match shift_month(&first, -1) {
        Ok(d) => month_ref_for(&d),
        Err(e) => {
            assert(shifted_month(first, -1) is None);
            return Err(e);
        },
    };
    assert(shifted_month(first, -1) is Some);
    let history: usize = if history_months == 0 {
        1
    } else {
        history_months
    };
    let fetch: usize = if history > usize::MAX - 12 {
        usize::MAX
    } else {
        history + 12
    };
    Ok(
        ScenarioPlan {
            target_month: target,
            current_month: month_ref_for(today),
            carryover_month: carryover,
            history_months: history,
            fetch_months: fetch,
        },
    )
}

/// Whether a month counts toward the history: it lies before the target, and is not
/// the month under way where the target lies ahead of that.
pub open spec fn is_history(month: Seq<char>, target: Seq<char>, current: Seq<char>) -> bool {
    precedes(month, target) && !(precedes(current, target) && month == current)
}

/// The first `n` rows, from the front, that count toward the history.
pub open spec fn history_of(
    rows: Seq<CashflowRow>,
    k: int,
    n: nat,
    target: Seq<char>,
    current: Seq<char>,
) -> Seq<CashflowRow>
    decreases k,
{
    if k <= 0 {
        Seq::empty()
    } else {
        let before = history_of(rows, k - 1, n, target, current);
        if before.len() < n && is_history(rows[k - 1].month_ref@, target, current) {
            before.push(rows[k - 1])
        } else {
            before
        }
    }
}

/// The latest months that count toward the history, at most as many as asked for.
pub open spec fn baseline(rows: Seq<CashflowRow>, plan: ScenarioPlan) -> Seq<CashflowRow> {
    history_of(
        sorted(rows),
        rows.len() as int,
        plan.history_months as nat,
        plan.target_month@,
        plan.current_month@,
    )
}

pub open spec fn incomes(rows: Seq<CashflowRow>) -> Seq<Amount> {
    rows.map_values(|r: CashflowRow| r.income)
}

pub open spec fn expenses(rows: Seq<CashflowRow>) -> Seq<Amount> {
    rows.map_values(|r: CashflowRow| r.expenses)
}

pub open spec fn nets(rows: Seq<CashflowRow>) -> Seq<Amount> {
    rows.map_values(|r: CashflowRow| r.net)
}

pub struct ScenarioOutput {
    pub target_month: String,
    pub baseline_months: Vec<String>,
    pub avg_income: Amount,
    pub avg_expenses: Amount,
    pub avg_net: Amount,
    pub planning_expenses: Amount,
    pub known_forecast_expenses: Amount,
    pub known_forecast_count: usize,
    pub carryover_open_card_month: String,
    pub carryover_open_card_amount: Amount,
    pub extra_income: Amount,
    pub extra_expense: Amount,
    pub projected_net: Amount,
    pub projected_cash_after_card_carry: Amount,
    pub looks_ok_after_card_carry: bool,
}

/// The larger of what is known and what is usual.
pub open spec fn planned(known: Amount, usual: Amount) -> Amount {
    if known.scaled() > usual.scaled() {
        known
    } else {
        usual
    }
}

/// Whether the output tells what the baseline months, the forecast, the open cards
/// and the adjustments come to.
pub open spec fn tells_scenario(
    o: ScenarioOutput,
    plan: ScenarioPlan,
    base: Seq<CashflowRow>,
    forecasts: Seq<Amount>,
    open_cards: Seq<Amount>,
    extra_income: Amount,
    extra_expense: Amount,
) -> bool {
    &&& o.target_month@ == plan.target_month@
    &&& texts(o.baseline_months@) == base.map_values(|r: CashflowRow| r.month_ref@)
    &&& o.avg_income == mean_of(incomes(base))
    &&& o.avg_expenses == mean_of(expenses(base))
    &&& o.avg_net == mean_of(nets(base))
    &&& o.known_forecast_expenses == sum_of(forecasts)
    &&& o.known_forecast_count == forecasts.len()
    &&& o.planning_expenses == planned(o.known_forecast_expenses, o.avg_expenses)
    &&& o.carryover_open_card_month@ == plan.carryover_month@
    &&& o.carryover_open_card_amount == sum_of(open_cards)
    &&& o.extra_income == extra_income
    &&& o.extra_expense == extra_expense
    &&& o.projected_net == minus(
        plus(minus(o.avg_income, o.planning_expenses), extra_income),
        extra_expense,
    )
    &&& o.projected_cash_after_card_carry == minus(o.projected_net, o.carryover_open_card_amount)
    &&& o.looks_ok_after_card_carry == (o.projected_cash_after_card_carry.scaled() >= 0)
}

/// Whether no step of the projection can leave the range of amounts.
pub open spec fn projection_fits(
    base: Seq<CashflowRow>,
    forecasts: Seq<Amount>,
    open_cards: Seq<Amount>,
    extra_income: Amount,
    extra_expense: Amount,
) -> bool {
    2 * (full_weight(incomes(base)) + full_weight(expenses(base)) + full_weight(nets(base))
        + full_weight(forecasts) + full_weight(open_cards) + abs(extra_income.scaled()) + abs(
        extra_expense.scaled(),
    ) + 8 * one()) <= limit()
}

/// The months of the history.
pub fn baseline_rows(rows: Vec<CashflowRow>, plan: &ScenarioPlan) -> (r: Vec<CashflowRow>)
    ensures
        r@ == baseline(rows@, *plan),
        r@.len() <= plan.history_months,
{
    let ghost n = rows@.len();
    let mut rest = sort(rows);
    let ghost all = rest@;
    let count: usize = rest.len();
    let mut out: Vec<CashflowRow> = Vec::new();
    let mut i: usize = 0;
    while i < count
        invariant
            i <= count,
            count == all.len(),
            rest@ == all.skip(i as int),
            out@ == history_of(
                all,
                i as int,
                plan.history_months as nat,
                plan.target_month@,
                plan.current_month@,
            ),
            out@.len() <= plan.history_months,
        decreases count - i,
    {
        let row = rest.remove(0);
        assert(row == all[i as int]);
        assert(rest@ =~= all.skip(i + 1));
        let target = plan.target_month.as_str();
        let current = plan.current_month.as_str();
        let month = row.month_ref.as_str();
        let counts = less(month, target) && !(less(current, target) && same(month, current));
        if counts && out.len() < plan.history_months {
            out.push(row);
        }
        i = i + 1;
    }
    out
}

fn project_net(
    income: Amount,
    expenses: Amount,
    extra_income: Amount,
    extra_expense: Amount,
    carried: Amount,
) -> (r: (Amount, Amount))
    requires
        abs(income.scaled()) + abs(expenses.scaled()) + abs(extra_income.scaled()) + abs(
            extra_expense.scaled(),
        ) + abs(carried.scaled()) + 4 * one() <= limit(),
    ensures
        r.0 == minus(plus(minus(income, expenses), extra_income), extra_expense),
        r.1 == minus(r.0, carried),
{
    let a = income.subtracted(&expenses);
    let b = a.added(&extra_income);
    let c = b.subtracted(&extra_expense);
    let d = c.subtracted(&carried);
    (c, d)
}

/// The columns of the history.
fn columns(base: &Vec<CashflowRow>) -> (r: (Vec<String>, Vec<Amount>, Vec<Amount>, Vec<Amount>))
    ensures
        texts(r.0@) == base@.map_values(|r: CashflowRow| r.month_ref@),
        r.1@ == incomes(base@),
        r.2@ == expenses(base@),
        r.3@ == nets(base@),
{
    let mut months: Vec<String> = Vec::new();
    let mut income: Vec<Amount> = Vec::new();
    let mut expense: Vec<Amount> = Vec::new();
    let mut net: Vec<Amount> = Vec::new();
    let mut i: usize = 0;
    while i < base.len()
        invariant
            i <= base.len(),
            months@.len() == i,
            income@.len() == i,
            expense@.len() == i,
            net@.len() == i,
            forall|k: int|
                0 <= k < i ==> (#[trigger] months@[k])@ == base@[k].month_ref@,
            forall|k: int| 0 <= k < i ==> (#[trigger] income@[k]) == base@[k].income,
            forall|k: int| 0 <= k < i ==> (#[trigger] expense@[k]) == base@[k].expenses,
            forall|k: int| 0 <= k < i ==> (#[trigger] net@[k]) == base@[k].net,
        decreases base.len() - i,
    {
        months.push(base[i].month_ref.clone());
        income.push(base[i].income);
        expense.push(base[i].expenses);
        net.push(base[i].net);
        i = i + 1;
    }
    proof {
        assert(texts(months@) =~= base@.map_values(|r: CashflowRow| r.month_ref@));
        assert(income@ =~= incomes(base@));
        assert(expense@ =~= expenses(base@));
        assert(net@ =~= nets(base@));
    }
    (months, income, expense, net)
}

/// What a month may come to.
pub fn project(
    plan: &ScenarioPlan,
    base: &Vec<CashflowRow>,
    forecasts: &Vec<Amount>,
    open_cards: &Vec<Amount>,
    extra_income: Amount,
    extra_expense: Amount,
) -> (r: Result<ScenarioOutput, String>)
    requires
        base@.len() <= i64::MAX,
        projection_fits(base@, forecasts@, open_cards@, extra_income, extra_expense),
    ensures
        match r {
            Ok(o) => base@.len() > 0 && tells_scenario(
                o,
                *plan,
                base@,
                forecasts@,
                open_cards@,
                extra_income,
                extra_expense,
            ),
            Err(e) => base@.len() == 0 && e@ == "Não há meses históricos suficientes antes de "@
                + plan.target_month@ + " para calcular cenário"@,
        },
{
    if base.len() == 0 {
        return Err(
            glue3(
                "Não há meses históricos suficientes antes de ",
                plan.target_month.as_str(),
                " para calcular cenário",
            ),
        );
    }
    let (months, income, expense, net) = columns(base);
    proof {
        lemma_weights(income@);
        lemma_weights(expense@);
        lemma_weights(net@);
        lemma_weights(forecasts@);
        lemma_weights(open_cards@);
    }
    let avg_income = mean(&income);
    let avg_expenses = mean(&expense);
    let avg_net = mean(&net);
    let known = total_of_all(forecasts);
    let planning = if avg_expenses.is_less(&known) {
        known
    } else {
        avg_expenses
    };
    let carried = total_of_all(open_cards);
    let (projected_net, cash) = project_net(
        avg_income,
        planning,
        extra_income,
        extra_expense,
        carried,
    );
    let ok = !cash.is_below_zero();
    Ok(
        ScenarioOutput {
            target_month: plan.target_month.clone(),
            baseline_months: months,
            avg_income,
            avg_expenses,
            avg_net,
            planning_expenses: planning,
            known_forecast_expenses: known,
            known_forecast_count: forecasts.len(),
            carryover_open_card_month: plan.carryover_month.clone(),
            carryover_open_card_amount: carried,
            extra_income,
            extra_expense,
            projected_net,
            projected_cash_after_card_carry: cash,
            looks_ok_after_card_carry: ok,
        },
    )
}

proof fn lemma_weights(s: Seq<Amount>)
    ensures
        full_weight(s) >= 0,
{
    crate::sums::lemma_weight_mono(s, |i: int| true, |i: int| true);
}

/// The history holds only months before the target.
pub proof fn law_history_is_past(
    rows: Seq<CashflowRow>,
    k: int,
    n: nat,
    target: Seq<char>,
    current: Seq<char>,
    i: int,
)
    requires
        0 <= i < history_of(rows, k, n, target, current).len(),
    ensures
        precedes(history_of(rows, k, n, target, current)[i].month_ref@, target),
        history_of(rows, k, n, target, current).len() <= n,
    decreases k,
{
    if k > 0 {
        let before = history_of(rows, k - 1, n, target, current);
        if i < before.len() {
            law_history_is_past(rows, k - 1, n, target, current, i);
        } else if before.len() > 0 {
            law_history_is_past(rows, k - 1, n, target, current, 0);
        }
    }
}

} // verus!
