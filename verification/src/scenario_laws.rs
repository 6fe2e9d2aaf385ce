//! What a scenario promises, in scaled units and in months.

use crate::amount::{abs, exact_sum, minus, one, plus, sum_of, Amount};
use crate::order::{law_sorted, lemma_same_elements, sorted, Ranked};
use crate::places::{few, law_minus_of_few_places, law_plus_of_few_places, room, shares};
use crate::scenario::{
    baseline, expenses, history_of, incomes, nets, tells_scenario, CashflowRow, ScenarioOutput,
    ScenarioPlan,
};
use crate::text::precedes;
use crate::totals::adds_exactly;
use vstd::prelude::*;

verus! {

/// The expenses that a scenario plans with are at least the usual ones and at least those
/// that are known, and are the one or the other.
pub proof fn law_planning_expenses(
    o: ScenarioOutput,
    plan: ScenarioPlan,
    base: Seq<CashflowRow>,
    forecasts: Seq<Amount>,
    open_cards: Seq<Amount>,
    extra_income: Amount,
    extra_expense: Amount,
)
    requires
        tells_scenario(o, plan, base, forecasts, open_cards, extra_income, extra_expense),
    ensures
        o.planning_expenses.scaled() >= o.avg_expenses.scaled(),
        o.planning_expenses.scaled() >= o.known_forecast_expenses.scaled(),
        o.planning_expenses.scaled() == o.avg_expenses.scaled() || o.planning_expenses.scaled()
            == o.known_forecast_expenses.scaled(),
{
}

/// What a scenario comes to is the usual income less the planned expenses, with the extra
/// income and less the extra expense; the cash behind the cards is that less what they
/// carry over, and looks well exactly where it is not below zero.
pub proof fn law_projection_adds_up(
    o: ScenarioOutput,
    plan: ScenarioPlan,
    base: Seq<CashflowRow>,
    forecasts: Seq<Amount>,
    open_cards: Seq<Amount>,
    extra_income: Amount,
    extra_expense: Amount,
    p: nat,
)
    requires
        tells_scenario(o, plan, base, forecasts, open_cards, extra_income, extra_expense),
        few(o.avg_income, p),
        few(o.avg_expenses, p),
        few(o.known_forecast_expenses, p),
        few(o.carryover_open_card_amount, p),
        few(extra_income, p),
        few(extra_expense, p),
        abs(o.avg_income.scaled()) + abs(o.avg_expenses.scaled()) + abs(
            o.known_forecast_expenses.scaled(),
        ) + abs(o.carryover_open_card_amount.scaled()) + abs(extra_income.scaled()) + abs(
            extra_expense.scaled(),
        ) <= room(p),
    ensures
        o.projected_net.scaled() == o.avg_income.scaled() - o.planning_expenses.scaled()
            + extra_income.scaled() - extra_expense.scaled(),
        o.projected_cash_after_card_carry.scaled() == o.projected_net.scaled()
            - o.carryover_open_card_amount.scaled(),
        o.looks_ok_after_card_carry <==> o.projected_cash_after_card_carry.scaled() >= 0,
{
    let a = minus(o.avg_income, o.planning_expenses);
    law_minus_of_few_places(o.avg_income, o.planning_expenses, p);
    let b = plus(a, extra_income);
    law_plus_of_few_places(a, extra_income, p);
    law_minus_of_few_places(b, extra_expense, p);
    law_minus_of_few_places(o.projected_net, o.carryover_open_card_amount, p);
}

/// The usual amounts are the means of the months: as many times each as there are months
/// come to what the months come to, but for the rounding of each month's share.
pub proof fn law_usual_amounts_are_means(
    o: ScenarioOutput,
    plan: ScenarioPlan,
    base: Seq<CashflowRow>,
    forecasts: Seq<Amount>,
    open_cards: Seq<Amount>,
    extra_income: Amount,
    extra_expense: Amount,
)
    requires
        tells_scenario(o, plan, base, forecasts, open_cards, extra_income, extra_expense),
        adds_exactly(incomes(base)),
        adds_exactly(expenses(base)),
        adds_exactly(nets(base)),
        adds_exactly(forecasts),
        adds_exactly(open_cards),
        shares(sum_of(incomes(base)), base.len() as int),
        shares(sum_of(expenses(base)), base.len() as int),
        shares(sum_of(nets(base)), base.len() as int),
    ensures
        abs(base.len() * o.avg_income.scaled() - exact_sum(incomes(base))) <= base.len() * one(),
        abs(base.len() * o.avg_expenses.scaled() - exact_sum(expenses(base))) <= base.len()
            * one(),
        abs(base.len() * o.avg_net.scaled() - exact_sum(nets(base))) <= base.len() * one(),
        o.known_forecast_expenses.scaled() == exact_sum(forecasts),
        o.carryover_open_card_amount.scaled() == exact_sum(open_cards),
{
}

/// Whether a month may serve as history: it lies before the target, and is not the month
/// under way while the target lies ahead.
pub open spec fn past_of(month: Seq<char>, plan: ScenarioPlan) -> bool {
    &&& precedes(month, plan.target_month@)
    &&& precedes(plan.current_month@, plan.target_month@) ==> month != plan.current_month@
}

/// The months that a scenario starts from are past months, at most as many as asked for;
/// a past month is left out only where that many were found, none of them before it.
pub proof fn law_history_is_latest(rows: Seq<CashflowRow>, plan: ScenarioPlan, j: int)
    requires
        0 <= j < rows.len(),
        past_of(rows[j].month_ref@, plan),
    ensures
        baseline(rows, plan).len() <= plan.history_months,
        forall|i: int|
            0 <= i < baseline(rows, plan).len() ==> past_of(
                (#[trigger] baseline(rows, plan)[i]).month_ref@,
                plan,
            ) && rows.contains(baseline(rows, plan)[i]),
        baseline(rows, plan).contains(rows[j]) || (baseline(rows, plan).len()
            == plan.history_months && forall|i: int|
            0 <= i < baseline(rows, plan).len() ==> !precedes(
                (#[trigger] baseline(rows, plan)[i]).month_ref@,
                rows[j].month_ref@,
            )),
{
    let list = sorted(rows);
    law_sorted(rows);
    lemma_same_elements(rows, list);
    assert(rows.contains(rows[j]));
    let k = choose|k: int| 0 <= k < list.len() && list[k] == rows[j];
    lemma_history(list, rows.len() as int, plan, k);
    let base = baseline(rows, plan);
    assert forall|i: int| 0 <= i < base.len() implies past_of(
        (#[trigger] base[i]).month_ref@,
        plan,
    ) && rows.contains(base[i]) by {
        let w = choose|w: int| 0 <= w < list.len() && list[w] == base[i];
        assert(list.contains(list[w]));
    }
}

proof fn lemma_history(list: Seq<CashflowRow>, n: int, plan: ScenarioPlan, k: int)
    requires
        0 <= n <= list.len(),
        0 <= k < list.len(),
        past_of(list[k].month_ref@, plan),
        crate::order::in_order(list),
    ensures
        ({
            let h = history_of(
                list,
                n,
                plan.history_months as nat,
                plan.target_month@,
                plan.current_month@,
            );
            &&& h.len() <= plan.history_months
            &&& forall|i: int|
                0 <= i < h.len() ==> past_of((#[trigger] h[i]).month_ref@, plan) && exists|w: int|
                    0 <= w < n && #[trigger] list[w] == h[i]
            &&& k < n ==> h.contains(list[k]) || (h.len() == plan.history_months && forall|i: int|
                0 <= i < h.len() ==> !precedes((#[trigger] h[i]).month_ref@, list[k].month_ref@))
        }),
    decreases n,
{
    if n > 0 {
        lemma_history(list, n - 1, plan, k);
        let m = plan.history_months as nat;
        let a = history_of(list, n - 1, m, plan.target_month@, plan.current_month@);
        let h = history_of(list, n, m, plan.target_month@, plan.current_month@);
        assert forall|i: int| 0 <= i < h.len() implies past_of((#[trigger] h[i]).month_ref@, plan)
            && exists|w: int| 0 <= w < n && #[trigger] list[w] == h[i] by {
            if i < a.len() {
                assert(a[i] == h[i]);
                let w = choose|w: int| 0 <= w < n - 1 && #[trigger] list[w] == a[i];
                assert(list[w] == h[i]);
            } else {
                assert(list[n - 1] == h[i]);
            }
        }
        if k < n - 1 {
            if a.contains(list[k]) {
                let i = choose|i: int| 0 <= i < a.len() && a[i] == list[k];
                assert(h[i] == list[k]);
            } else {
                assert(h =~= a);
            }
        } else if k == n - 1 {
            if a.len() < m {
                assert(h[h.len() - 1] == list[k]);
            } else {
                assert(h =~= a);
                assert forall|i: int| 0 <= i < h.len() implies !precedes(
                    (#[trigger] h[i]).month_ref@,
                    list[k].month_ref@,
                ) by {
                    let w = choose|w: int| 0 <= w < n - 1 && #[trigger] list[w] == a[i];
                    assert(Ranked::le(list[w], list[k]));
                }
            }
        }
    }
}

} // verus!
