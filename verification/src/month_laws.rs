//! What the reports of a month promise: means, groups, budgets and families.

use crate::amount::{abs, exact_sum, minus, one, sum_of, Amount};
use crate::balance_laws::{law_sums_by_key_add_up, named_sum};
use crate::card_text::standing;
use crate::cashflow::{
    content_of, forecast_groups, forecast_item, CashflowDetailItem, ForecastVsActualRow,
    GroupContent,
};
use crate::date::law_dates_ordered_by_number;
use crate::families::{family_content, of_family, sub_content, sub_le, sum_for, Flow, SubContent};
use crate::insights::{account_insights, closed_count, of_account, CardSummaryRow};
use crate::listings::{
    budget_places, budget_tier, budgeted, latest_at, prefix_groups, prefix_keys, rule_named, spent,
    uncategorized_amounts, BudgetPlace, BudgetUse, RuleRecord,
};
use crate::month_report::{
    balances_of, joined_groups, last_amounts, last_checking, tells_last_installment,
    CashflowAccountBalance,
};
use crate::order::{
    law_sorted, lemma_positions, lemma_same_elements, positions, sorted, sorted_keys, Ranked,
};
use crate::places::{few, law_plus_of_few_places, lemma_magnitude, room, shares};
use crate::pulse::{
    is_baseline, is_mean_by_category, is_spend_by_category, row_of_month, spend_amounts, spend_ids,
    CategoryMean, CategorySpend, MonthlySpendRow,
};
use crate::records::{AccountRecord, CardClosedTransactionRow};
use crate::scenario::{expenses, incomes, CashflowRow};
use crate::seqs::{lemma_contains_last, lemma_sorted_by_keeps, lemma_sum_of_same, sum_by};
use crate::summary::{AccountSnapshotRecord, UncategorizedRow};
use crate::sums::picked;
use crate::totals::adds_exactly;
use vstd::prelude::*;

verus! {

// ---------------------------------------------------------------------------
// Gathering a pulse

/// The row of a month is the first with its name; none only where there is none.
pub proof fn law_row_of_month(rows: Seq<CashflowRow>, month: Seq<char>)
    ensures
        match row_of_month(rows, month) {
            Some(r) => exists|i: int|
                {
                    &&& 0 <= i < rows.len()
                    &&& #[trigger] rows[i] == r
                    &&& r.month_ref@ == month
                    &&& forall|j: int| 0 <= j < i ==> (#[trigger] rows[j]).month_ref@ != month
                },
            None => forall|i: int| 0 <= i < rows.len() ==> (#[trigger] rows[i]).month_ref@ != month,
        },
    decreases rows.len(),
{
    if rows.len() > 0 && rows[0].month_ref@ != month {
        let t = rows.drop_first();
        law_row_of_month(t, month);
        match row_of_month(t, month) {
            Some(r) => {
                let i = choose|i: int|
                    {
                        &&& 0 <= i < t.len()
                        &&& #[trigger] t[i] == r
                        &&& r.month_ref@ == month
                        &&& forall|j: int| 0 <= j < i ==> (#[trigger] t[j]).month_ref@ != month
                    };
                assert(rows[i + 1] == r);
                assert forall|j: int| 0 <= j < i + 1 implies (#[trigger] rows[j]).month_ref@
                    != month by {
                    if j > 0 {
                        assert(t[j - 1] == rows[j]);
                    }
                }
            },
            None => {
                assert forall|j: int| 0 <= j < rows.len() implies (#[trigger] rows[j]).month_ref@
                    != month by {
                    if j > 0 {
                        assert(t[j - 1] == rows[j]);
                    }
                }
            },
        }
    } else if rows.len() > 0 {
        assert(rows[0].month_ref@ == month);
    }
}

/// What is usual is the mean of the closed months, but for the rounding of each month's
/// share; without any it is nothing.
pub proof fn law_baseline_is_the_mean(row: CashflowRow, closed: Seq<CashflowRow>)
    requires
        is_baseline(row, closed),
        adds_exactly(incomes(closed)),
        adds_exactly(expenses(closed)),
        closed.len() > 0 ==> shares(sum_of(incomes(closed)), closed.len() as int),
        closed.len() > 0 ==> shares(sum_of(expenses(closed)), closed.len() as int),
    ensures
        closed.len() == 0 ==> row.income.scaled() == 0 && row.expenses.scaled() == 0
            && row.net.scaled() == 0,
        closed.len() > 0 ==> abs(closed.len() * row.income.scaled() - exact_sum(incomes(closed)))
            <= closed.len() * one(),
        closed.len() > 0 ==> abs(
            closed.len() * row.expenses.scaled() - exact_sum(expenses(closed)),
        ) <= closed.len() * one(),
        closed.len() > 0 ==> row.net == minus(row.income, row.expenses),
{
    crate::places::lemma_zero();
}

/// What the categories took comes to what the rows took: each row counts in one category,
/// and each category is told once.
pub proof fn law_spending_by_category(list: Seq<CategorySpend>, rows: Seq<MonthlySpendRow>)
    requires
        is_spend_by_category(list, rows),
        forall|i: int|
            0 <= i < sorted_keys(spend_ids(rows)).len() ==> adds_exactly(
                picked(
                    spend_amounts(rows),
                    positions(spend_ids(rows), #[trigger] sorted_keys(spend_ids(rows))[i]),
                ),
            ),
    ensures
        sum_by(list, |s: CategorySpend| s.amount.scaled()) == exact_sum(spend_amounts(rows)),
{
    let names = sorted_keys(spend_ids(rows));
    law_sums_by_key_add_up(spend_ids(rows), spend_amounts(rows));
    lemma_spending(list, names, rows, names.len() as int);
    assert(list.take(names.len() as int) =~= list);
    assert(names.take(names.len() as int) =~= names);
}

proof fn lemma_spending(
    list: Seq<CategorySpend>,
    names: Seq<Seq<char>>,
    rows: Seq<MonthlySpendRow>,
    k: int,
)
    requires
        is_spend_by_category(list, rows),
        names == sorted_keys(spend_ids(rows)),
        0 <= k <= names.len(),
        forall|i: int|
            0 <= i < names.len() ==> adds_exactly(
                picked(spend_amounts(rows), positions(spend_ids(rows), #[trigger] names[i])),
            ),
    ensures
        sum_by(list.take(k), |s: CategorySpend| s.amount.scaled()) == named_sum(
            names.take(k),
            spend_ids(rows),
            spend_amounts(rows),
        ),
    decreases k,
{
    if k > 0 {
        lemma_spending(list, names, rows, k - 1);
        assert(list.take(k).drop_last() =~= list.take(k - 1));
        assert(names.take(k).drop_last() =~= names.take(k - 1));
        assert(list[k - 1].category_id@ == names[k - 1]);
    }
}

/// What a category usually takes in a month is a third of what it took in three.
pub proof fn law_mean_by_category(list: Seq<CategoryMean>, rows: Seq<MonthlySpendRow>, i: int)
    requires
        is_mean_by_category(list, rows),
        0 <= i < list.len(),
        adds_exactly(
            picked(spend_amounts(rows), positions(spend_ids(rows), list[i].category_id@)),
        ),
        shares(
            sum_of(picked(spend_amounts(rows), positions(spend_ids(rows), list[i].category_id@))),
            3,
        ),
    ensures
        abs(
            3 * list[i].amount.scaled() - exact_sum(
                picked(spend_amounts(rows), positions(spend_ids(rows), list[i].category_id@)),
            ),
        ) <= 3 * one(),
{
}

// ---------------------------------------------------------------------------
// Groups of what has no category

/// The groups come to what the rows come to, count each row once, and each tells the latest
/// day of its rows.
pub proof fn law_prefix_groups(rows: Seq<UncategorizedRow>, i: int, k: int)
    requires
        rows.len() <= usize::MAX,
        0 <= i < prefix_groups(rows).len(),
        0 <= k < rows.len(),
        prefix_keys(rows)[k] == sorted_keys(prefix_keys(rows))[i],
        forall|j: int| 0 <= j < rows.len() ==> (#[trigger] rows[j]).transaction_date.valid(),
    ensures
        ({
            let g = prefix_groups(rows)[i];
            let at = positions(prefix_keys(rows), sorted_keys(prefix_keys(rows))[i]);
            &&& g.count == at.len()
            &&& at.contains(k)
            &&& adds_exactly(picked(uncategorized_amounts(rows), at)) ==> g.amount.scaled()
                == exact_sum(picked(uncategorized_amounts(rows), at))
            &&& rows[k].transaction_date.number() <= g.latest.number()
            &&& prefix_keys(rows)[g.first as int] == prefix_keys(rows)[k]
            &&& g.first <= k
        }),
{
    let key = sorted_keys(prefix_keys(rows))[i];
    lemma_positions(prefix_keys(rows), key);
    let at = positions(prefix_keys(rows), key);
    assert(at.contains(k));
    let w = choose|w: int| 0 <= w < at.len() && at[w] == k;
    lemma_latest_at(rows, at, at.len() as int, w);
}

proof fn lemma_latest_at(rows: Seq<UncategorizedRow>, at: Seq<int>, k: int, w: int)
    requires
        0 <= w < k <= at.len(),
        forall|j: int| 0 <= j < at.len() ==> rows[#[trigger] at[j]].transaction_date.valid(),
    ensures
        rows[at[w]].transaction_date.number() <= latest_at(rows, at, k).number(),
        latest_at(rows, at, k).valid(),
    decreases k,
{
    if k > 1 {
        lemma_latest_at(rows, at, k - 1, if w < k - 1 { w } else { 0 });
        law_dates_ordered_by_number(
            latest_at(rows, at, k - 1),
            rows[at[k - 1]].transaction_date,
        );
    }
}

// ---------------------------------------------------------------------------
// Budgets and rules

/// A budget is overspent exactly where more was spent than planned; one that is not is near
/// its threshold exactly where it alerts.
pub proof fn law_budget_tier(row: BudgetUse)
    ensures
        budget_tier(row) == 0 <==> row.actual_amount.scaled() > row.budget_amount.scaled(),
        budget_tier(row) == 1 <==> row.actual_amount.scaled() <= row.budget_amount.scaled()
            && row.alert,
        0 <= budget_tier(row) <= 2,
{
}

/// The budgets are listed with the most urgent first, and of one urgency with the most used
/// first; each is listed.
pub proof fn law_urgent_budgets_first(rows: Seq<BudgetUse>, i: int, j: int)
    requires
        rows.len() <= usize::MAX,
        0 <= i < j < rows.len(),
    ensures
        ({
            let places = sorted(budget_places(rows));
            let (a, b) = (rows[places[i].at as int], rows[places[j].at as int]);
            &&& places.len() == rows.len()
            &&& budget_tier(a) < budget_tier(b) || (budget_tier(a) == budget_tier(b) && a.usage
                >= b.usage)
        }),
{
    let all = budget_places(rows);
    let places = sorted(all);
    law_sorted(all);
    lemma_same_elements(all, places);
    assert(Ranked::le(places[i], places[j]));
    assert(places.contains(places[i]) && places.contains(places[j]));
    let x = choose|x: int| 0 <= x < all.len() && all[x] == places[i];
    let y = choose|y: int| 0 <= y < all.len() && all[y] == places[j];
    law_budget_tier(rows[x]);
    law_budget_tier(rows[y]);
}

/// The totals of the budgets do not hang on their order: they are what was spent and what
/// was planned in all of them.
pub proof fn law_budget_totals(rows: Seq<BudgetUse>)
    requires
        rows.len() <= usize::MAX,
    ensures
        ({
            let places = sorted(budget_places(rows));
            &&& exact_sum(spent(rows, places)) == sum_by(
                rows,
                |r: BudgetUse| r.actual_amount.scaled(),
            )
            &&& exact_sum(budgeted(rows, places)) == sum_by(
                rows,
                |r: BudgetUse| r.budget_amount.scaled(),
            )
        }),
{
    let all = budget_places(rows);
    let places = sorted(all);
    law_sorted(all);
    let f = |p: BudgetPlace| rows[p.at as int].actual_amount.scaled();
    let g = |p: BudgetPlace| rows[p.at as int].budget_amount.scaled();
    lemma_sum_of_same(all, places, f);
    lemma_sum_of_same(all, places, g);
    lemma_places(rows, places);
    lemma_all_places(rows, rows.len() as int);
    assert(all.take(rows.len() as int) =~= all);
    assert(rows.take(rows.len() as int) =~= rows);
}

proof fn lemma_places(rows: Seq<BudgetUse>, places: Seq<BudgetPlace>)
    ensures
        exact_sum(spent(rows, places)) == sum_by(
            places,
            |p: BudgetPlace| rows[p.at as int].actual_amount.scaled(),
        ),
        exact_sum(budgeted(rows, places)) == sum_by(
            places,
            |p: BudgetPlace| rows[p.at as int].budget_amount.scaled(),
        ),
    decreases places.len(),
{
    if places.len() > 0 {
        lemma_places(rows, places.drop_last());
        assert(spent(rows, places).drop_last() =~= spent(rows, places.drop_last()));
        assert(budgeted(rows, places).drop_last() =~= budgeted(rows, places.drop_last()));
    }
}

proof fn lemma_all_places(rows: Seq<BudgetUse>, k: int)
    requires
        0 <= k <= rows.len() <= usize::MAX,
    ensures
        sum_by(
            budget_places(rows).take(k),
            |p: BudgetPlace| rows[p.at as int].actual_amount.scaled(),
        ) == sum_by(rows.take(k), |r: BudgetUse| r.actual_amount.scaled()),
        sum_by(
            budget_places(rows).take(k),
            |p: BudgetPlace| rows[p.at as int].budget_amount.scaled(),
        ) == sum_by(rows.take(k), |r: BudgetUse| r.budget_amount.scaled()),
    decreases k,
{
    if k > 0 {
        lemma_all_places(rows, k - 1);
        assert(budget_places(rows).take(k).drop_last() =~= budget_places(rows).take(k - 1));
        assert(rows.take(k).drop_last() =~= rows.take(k - 1));
    }
}

/// The rule of a name is the first with it.
pub proof fn law_rule_named(rules: Seq<RuleRecord>, id: Seq<char>)
    ensures
        match rule_named(rules, id) {
            Some(r) => r.rule_id@ == id && rules.contains(r),
            None => forall|i: int| 0 <= i < rules.len() ==> (#[trigger] rules[i]).rule_id@ != id,
        },
    decreases rules.len(),
{
    if rules.len() > 0 {
        assert(rules.contains(rules[0]));
        if rules[0].rule_id@ != id {
            let t = rules.skip(1);
            law_rule_named(t, id);
            match rule_named(t, id) {
                Some(r) => {
                    let k = choose|k: int| 0 <= k < t.len() && t[k] == r;
                    assert(rules[k + 1] == r);
                },
                None => {
                    assert forall|i: int| 0 <= i < rules.len() implies (
                    #[trigger] rules[i]).rule_id@ != id by {
                        if i > 0 {
                            assert(t[i - 1] == rules[i]);
                        }
                    }
                },
            }
        }
    }
}

// ---------------------------------------------------------------------------
// Families

/// A subcategory comes to what happened and what is forecast of it.
pub proof fn law_subcategory_total(flow: Flow, key: Seq<char>, p: nat)
    requires
        few(sum_for(flow.actual, key), p),
        few(sum_for(flow.forecast, key), p),
        abs(sum_for(flow.actual, key).scaled()) + abs(sum_for(flow.forecast, key).scaled())
            <= room(p),
    ensures
        ({
            let s = sub_content(flow, key);
            &&& s.total.scaled() == s.actual.scaled() + s.forecast.scaled()
            &&& s.actual == sum_for(flow.actual, key)
            &&& s.forecast == sum_for(flow.forecast, key)
            &&& s.previous == sum_for(flow.previous, key)
        }),
{
    law_plus_of_few_places(sum_for(flow.actual, key), sum_for(flow.forecast, key), p);
}

/// A family holds the subcategories that name it, and comes to what they come to, in its
/// total, its forecast and the month before.
pub proof fn law_family_total(subs: Seq<SubContent>, family: Seq<char>, s: SubContent)
    ensures
        of_family(subs, family).contains(s) <==> subs.contains(s) && s.family == family,
        ({
            let f = family_content(subs, family);
            &&& adds_exactly(crate::families::sub_totals(f.subcategories)) ==> f.total.scaled()
                == sum_by(of_family(subs, family), |s: SubContent| s.total.scaled())
            &&& adds_exactly(crate::families::sub_forecasts(f.subcategories))
                ==> f.forecast.scaled() == sum_by(
                of_family(subs, family),
                |s: SubContent| s.forecast.scaled(),
            )
            &&& adds_exactly(crate::families::sub_previous(f.subcategories))
                ==> f.previous.scaled() == sum_by(
                of_family(subs, family),
                |s: SubContent| s.previous.scaled(),
            )
        }),
{
    lemma_of_family(subs, family, s);
    let own = of_family(subs, family);
    let list = crate::order::sorted_by(own, sub_le());
    lemma_sorted_by_keeps(own, sub_le());
    lemma_sum_of_same(list, own, |s: SubContent| s.total.scaled());
    lemma_sum_of_same(list, own, |s: SubContent| s.forecast.scaled());
    lemma_sum_of_same(list, own, |s: SubContent| s.previous.scaled());
    lemma_sub_sums(list);
}

proof fn lemma_of_family(subs: Seq<SubContent>, family: Seq<char>, s: SubContent)
    ensures
        of_family(subs, family).contains(s) <==> subs.contains(s) && s.family == family,
    decreases subs.len(),
{
    if subs.len() > 0 {
        let t = subs.drop_last();
        lemma_of_family(t, family, s);
        lemma_contains_last(subs, s);
        let (a, b) = (of_family(t, family), of_family(subs, family));
        if b.len() > a.len() {
            assert(b.drop_last() =~= a);
            lemma_contains_last(b, s);
        }
    }
}

proof fn lemma_sub_sums(list: Seq<SubContent>)
    ensures
        exact_sum(crate::families::sub_totals(list)) == sum_by(
            list,
            |s: SubContent| s.total.scaled(),
        ),
        exact_sum(crate::families::sub_forecasts(list)) == sum_by(
            list,
            |s: SubContent| s.forecast.scaled(),
        ),
        exact_sum(crate::families::sub_previous(list)) == sum_by(
            list,
            |s: SubContent| s.previous.scaled(),
        ),
    decreases list.len(),
{
    if list.len() > 0 {
        let t = list.drop_last();
        lemma_sub_sums(t);
        assert(crate::families::sub_totals(list).drop_last() =~= crate::families::sub_totals(t));
        assert(crate::families::sub_forecasts(list).drop_last()
            =~= crate::families::sub_forecasts(t));
        assert(crate::families::sub_previous(list).drop_last()
            =~= crate::families::sub_previous(t));
    }
}

// ---------------------------------------------------------------------------
// Cards and bills

/// A card is paid exactly where nothing is open; it is late only where all is open and the
/// month has passed.
pub proof fn law_card_standing(charged: Amount, open: Amount, passed: bool)
    ensures
        standing(charged, open, passed).0 == "🟢"@ <==> open.scaled() <= 0,
        standing(charged, open, passed).0 == "🔴"@ <==> open.scaled() > 0 && open.scaled()
            >= charged.scaled() && passed,
{
    reveal_strlit("🟢");
    reveal_strlit("🟡");
    reveal_strlit("🔴");
    assert("🟢"@[0] != "🟡"@[0] && "🟢"@[0] != "🔴"@[0] && "🔴"@[0] != "🟡"@[0]);
}

/// The cards are told with the largest closed amount first, and each is told.
pub proof fn law_largest_card_first(
    rows: Seq<CardSummaryRow>,
    closed: Seq<CardClosedTransactionRow>,
    i: int,
    j: int,
)
    requires
        0 <= i < j < account_insights(rows, closed).len(),
    ensures
        account_insights(rows, closed).len() == rows.len(),
        account_insights(rows, closed)[i].closed_amount.scaled() >= account_insights(
            rows,
            closed,
        )[j].closed_amount.scaled(),
{
    let all = rows.map_values(
        |row: CardSummaryRow| crate::insights::account_insight(row, closed),
    );
    law_sorted(all);
    assert(Ranked::le(sorted(all)[i], sorted(all)[j]));
}

/// How many closed transactions a card has is how many of the rows name it.
pub proof fn law_closed_count(rows: Seq<CardClosedTransactionRow>, account: Seq<char>)
    ensures
        closed_count(rows, account) == sum_by(
            rows,
            |r: CardClosedTransactionRow| if r.account_id@ == account {
                1int
            } else {
                0
            },
        ),
{
    lemma_closed_count(rows, account, rows.len() as int);
    assert(rows.take(rows.len() as int) =~= rows);
}

proof fn lemma_closed_count(rows: Seq<CardClosedTransactionRow>, account: Seq<char>, n: int)
    requires
        0 <= n <= rows.len(),
    ensures
        crate::order::where_at(n, of_account(rows, account)).len() == sum_by(
            rows.take(n),
            |r: CardClosedTransactionRow| if r.account_id@ == account {
                1int
            } else {
                0
            },
        ),
    decreases n,
{
    if n > 0 {
        lemma_closed_count(rows, account, n - 1);
        assert(rows.take(n).drop_last() =~= rows.take(n - 1));
    }
}

/// What the last installments among the lines come to is what those lines come to that tell
/// of a last installment, without their sign.
pub proof fn law_last_installments(items: Seq<CashflowDetailItem>)
    requires
        forall|i: int| 0 <= i < items.len() ==> (#[trigger] items[i]).amount.in_range(),
    ensures
        exact_sum(last_amounts(items)) == sum_by(
            items,
            |i: CashflowDetailItem| if tells_last_installment(i.description@) {
                abs(i.amount.scaled())
            } else {
                0
            },
        ),
    decreases items.len(),
{
    if items.len() > 0 {
        let t = items.drop_last();
        assert forall|i: int| 0 <= i < t.len() implies (#[trigger] t[i]).amount.in_range() by {
            assert(t[i] == items[i]);
        }
        law_last_installments(t);
        assert(items[items.len() - 1] == items.last());
        lemma_magnitude(items.last().amount);
        let (a, b) = (last_amounts(t), last_amounts(items));
        if b.len() > a.len() {
            assert(b.drop_last() =~= a);
        }
    }
}

/// Two sets of groups taken together come to what both come to, category by category.
pub proof fn law_joined_groups(
    a: Map<Seq<char>, GroupContent>,
    b: Map<Seq<char>, GroupContent>,
    key: Seq<char>,
    p: nat,
)
    requires
        few(content_of(a, key).subtotal, p),
        few(content_of(b, key).subtotal, p),
        abs(content_of(a, key).subtotal.scaled()) + abs(content_of(b, key).subtotal.scaled())
            <= room(p),
        content_of(a, key).transactions + content_of(b, key).transactions <= u64::MAX,
    ensures
        content_of(joined_groups(a, b), key).subtotal.scaled() == content_of(
            a,
            key,
        ).subtotal.scaled() + content_of(b, key).subtotal.scaled(),
        content_of(joined_groups(a, b), key).transactions == content_of(a, key).transactions
            + content_of(b, key).transactions,
        joined_groups(a, b).contains_key(key) <==> a.contains_key(key) || b.contains_key(key),
{
    crate::places::lemma_zero();
    law_plus_of_few_places(content_of(a, key).subtotal, content_of(b, key).subtotal, p);
}

/// What the forecast of a category comes to is what is left of its plans.
pub proof fn law_forecast_groups(rows: Seq<ForecastVsActualRow>, key: Seq<char>, n: int, p: nat)
    requires
        0 <= n <= rows.len(),
        p <= 28,
        forall|i: int|
            0 <= i < rows.len() && forecast_item(#[trigger] rows[i]) is Some ==> few(
                (forecast_item(rows[i])->0).1.amount,
                p,
            ),
        left_sizes(rows, n) <= room(p),
    ensures
        content_of(forecast_groups(rows, n), key).subtotal.scaled() == left_sum(rows, key, n),
        few(content_of(forecast_groups(rows, n), key).subtotal, p),
        abs(left_sum(rows, key, n)) <= left_sizes(rows, n),
    decreases n,
{
    crate::places::lemma_zero();
    if n > 0 {
        law_forecast_groups(rows, key, n - 1, p);
        if let Some((k, item)) = forecast_item(rows[n - 1]) {
            if k == key {
                law_plus_of_few_places(
                    content_of(forecast_groups(rows, n - 1), key).subtotal,
                    item.amount,
                    p,
                );
            }
        }
    }
}

/// What is left of the first `n` plans of a category.
pub open spec fn left_sum(rows: Seq<ForecastVsActualRow>, key: Seq<char>, n: int) -> int
    decreases n,
{
    if n <= 0 {
        0
    } else {
        left_sum(rows, key, n - 1) + (match forecast_item(rows[n - 1]) {
            Some((k, item)) if k == key => item.amount.scaled(),
            _ => 0,
        })
    }
}

/// The size of what is left of the first `n` plans.
pub open spec fn left_sizes(rows: Seq<ForecastVsActualRow>, n: int) -> int
    decreases n,
{
    if n <= 0 {
        0
    } else {
        left_sizes(rows, n - 1) + (match forecast_item(rows[n - 1]) {
            Some((k, item)) => abs(item.amount.scaled()),
            None => 0,
        })
    }
}

/// The balances of a month are those of the snapshots of checking accounts, each with the
/// account's name where it has one.
pub proof fn law_month_balances(
    accounts: Seq<AccountRecord>,
    snapshots: Seq<AccountSnapshotRecord>,
    b: CashflowAccountBalance,
)
    requires
        balances_of(accounts, snapshots).contains(b),
    ensures
        exists|i: int, k: int|
            {
                &&& 0 <= i < snapshots.len()
                &&& 0 <= k < accounts.len()
                &&& (#[trigger] accounts[k]).account_type@ == "checking"@
                &&& accounts[k].account_id@ == (#[trigger] snapshots[i]).account_id@
                &&& b.balance == snapshots[i].balance
                &&& b.snapshot_date == snapshots[i].snapshot_date
                &&& b.account_id == accounts[k].account_id
                &&& b.owner == accounts[k].owner
            },
    decreases snapshots.len(),
{
    let t = snapshots.drop_last();
    let (x, y) = (balances_of(accounts, t), balances_of(accounts, snapshots));
    assert(snapshots.len() > 0);
    let last = snapshots.len() - 1;
    if x.contains(b) {
        law_month_balances(accounts, t, b);
        let (i, k) = choose|i: int, k: int|
            {
                &&& 0 <= i < t.len()
                &&& 0 <= k < accounts.len()
                &&& (#[trigger] accounts[k]).account_type@ == "checking"@
                &&& accounts[k].account_id@ == (#[trigger] t[i]).account_id@
                &&& b.balance == t[i].balance
                &&& b.snapshot_date == t[i].snapshot_date
                &&& b.account_id == accounts[k].account_id
                &&& b.owner == accounts[k].owner
            };
        assert(snapshots[i] == t[i]);
        assert(accounts[k].account_id@ == snapshots[i].account_id@);
    } else {
        if y.len() > x.len() {
            assert(y.drop_last() =~= x);
            lemma_contains_last(y, b);
        }
        lemma_last_checking(accounts, snapshots[last].account_id@);
        let a = last_checking(accounts, snapshots[last].account_id@)->0;
        let k = choose|k: int| 0 <= k < accounts.len() && #[trigger] accounts[k] == a;
        assert(accounts[k].account_id@ == snapshots[last].account_id@);
    }
}

proof fn lemma_last_checking(accounts: Seq<AccountRecord>, id: Seq<char>)
    ensures
        last_checking(accounts, id) matches Some(a) ==> a.account_type@ == "checking"@
            && a.account_id@ == id && exists|k: int|
            0 <= k < accounts.len() && #[trigger] accounts[k] == a,
    decreases accounts.len(),
{
    if accounts.len() > 0 {
        let t = accounts.drop_last();
        lemma_last_checking(t, id);
        assert(accounts[accounts.len() - 1] == accounts.last());
        if let Some(a) = last_checking(t, id) {
            let k = choose|k: int| 0 <= k < t.len() && #[trigger] t[k] == a;
            assert(accounts[k] == a);
        }
    }
}

} // verus!
