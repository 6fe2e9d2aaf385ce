//! What a month's cash flow promises, in scaled units.

use crate::amount::{abs, exact_sum, magnitude, minus, negated, sum_fits, Amount};
use crate::cashflow::{
    category_key, combined, content_of, forecast_item, gains, groups_of_kind, inactive_status,
    income_category, is_internal, kind_of, last_account, losses, on_credit, pays_card, with_item,
    CashflowCategoryGroup, FlowKind, ForecastVsActualRow, GroupContent, ItemContent,
};
use crate::places::{
    few, law_minus_exact, law_plus_of_few_places, lemma_magnitude, lemma_negated, room,
};
use crate::records::{AccountRecord, TransactionRecord};
use crate::scenario::CashflowRow;
use vstd::prelude::*;

verus! {

/// Whether what is left of a plan can be written without rounding.
pub open spec fn plan_exact(row: ForecastVsActualRow) -> bool {
    &&& row.forecast_amount.in_range()
    &&& row.actual_amount.in_range()
    &&& sum_fits(magnitude(row.forecast_amount), negated(magnitude(row.actual_amount)))
}

/// What is forecast of an active plan and what already happened come to the plan together:
/// nothing is counted twice. What is left comes in for a category of income, and goes out
/// for any other.
pub proof fn law_actual_and_forecast_make_the_plan(row: ForecastVsActualRow)
    requires
        plan_exact(row),
        !inactive_status(row.status@),
        abs(row.actual_amount.scaled()) < abs(row.forecast_amount.scaled()),
    ensures
        forecast_item(row) is Some,
        ({
            let (key, item) = forecast_item(row)->0;
            &&& abs(item.amount.scaled()) + abs(row.actual_amount.scaled()) == abs(
                row.forecast_amount.scaled(),
            )
            &&& income_category(row.category_id) ==> item.amount.scaled() > 0
            &&& !income_category(row.category_id) ==> item.amount.scaled() < 0
            &&& item.transaction_id == Some(row.forecast_id@)
            &&& item.description == row.description@
            &&& item.transaction_date == row.due_date
            &&& key == category_key(row.category_id)
        }),
{
    lemma_left(row);
    lemma_negated(
        minus(magnitude(row.forecast_amount), magnitude(row.actual_amount)),
    );
}

proof fn lemma_left(row: ForecastVsActualRow)
    requires
        plan_exact(row),
    ensures
        minus(magnitude(row.forecast_amount), magnitude(row.actual_amount)).scaled() == abs(
            row.forecast_amount.scaled(),
        ) - abs(row.actual_amount.scaled()),
        minus(magnitude(row.forecast_amount), magnitude(row.actual_amount)).in_range(),
{
    broadcast use crate::amount::lemma_made;

    lemma_magnitude(row.forecast_amount);
    lemma_magnitude(row.actual_amount);
    lemma_negated(magnitude(row.actual_amount));
    law_minus_exact(magnitude(row.forecast_amount), magnitude(row.actual_amount));
}

/// A plan that is not active, or that as much already happened of, forecasts nothing.
pub proof fn law_no_forecast_of_done_plan(row: ForecastVsActualRow)
    requires
        plan_exact(row),
        inactive_status(row.status@) || abs(row.forecast_amount.scaled()) <= abs(
            row.actual_amount.scaled(),
        ),
    ensures
        forecast_item(row) is None,
{
    lemma_left(row);
}

// ---------------------------------------------------------------------------
// Groups

/// An item that comes to a category raises its subtotal by the item's amount and its count
/// by one, stands behind the items before it, and leaves every other category as it was.
pub proof fn law_item_joins_its_group(
    groups: Map<Seq<char>, GroupContent>,
    key: Seq<char>,
    item: ItemContent,
    other: Seq<char>,
    p: nat,
)
    requires
        few(content_of(groups, key).subtotal, p),
        few(item.amount, p),
        abs(content_of(groups, key).subtotal.scaled()) + abs(item.amount.scaled()) <= room(p),
        content_of(groups, key).transactions < u64::MAX,
        other != key,
    ensures
        ({
            let after = with_item(groups, key, item);
            let (a, b) = (content_of(groups, key), content_of(after, key));
            &&& after.contains_key(key)
            &&& b.subtotal.scaled() == a.subtotal.scaled() + item.amount.scaled()
            &&& b.transactions == a.transactions + 1
            &&& b.items == a.items.push(item)
            &&& content_of(after, other) == content_of(groups, other)
            &&& after.contains_key(other) == groups.contains_key(other)
        }),
{
    law_plus_of_few_places(content_of(groups, key).subtotal, item.amount, p);
    let a = content_of(groups, key);
    assert(a.items + seq![item] =~= a.items.push(item));
}

/// The items that the groups hold of a category are those of its transactions of the kind,
/// in their order, and as many as it counts.
pub proof fn law_groups_hold_their_kind(
    rows: Seq<TransactionRecord>,
    accounts: Seq<AccountRecord>,
    internal: Seq<Seq<char>>,
    kind: FlowKind,
    key: Seq<char>,
)
    requires
        rows.len() <= u64::MAX,
    ensures
        ({
            let c = content_of(
                groups_of_kind(rows, accounts, internal, kind, rows.len() as int),
                key,
            );
            let at = of_group(rows, accounts, internal, kind, key, rows.len() as int);
            &&& c.items.len() == at.len()
            &&& c.transactions == at.len()
            &&& forall|i: int|
                0 <= i < at.len() ==> (#[trigger] c.items[i]).transaction_id == Some(
                    rows[at[i]].transaction_id@,
                ) && c.items[i].amount == rows[at[i]].amount && c.items[i].transaction_date == Some(
                    rows[at[i]].transaction_date,
                )
        }),
{
    lemma_group(rows, accounts, internal, kind, key, rows.len() as int);
}

/// The positions of the first `n` transactions of a kind and a category.
pub open spec fn of_group(
    rows: Seq<TransactionRecord>,
    accounts: Seq<AccountRecord>,
    internal: Seq<Seq<char>>,
    kind: FlowKind,
    key: Seq<char>,
    n: int,
) -> Seq<int>
    decreases n,
{
    if n <= 0 {
        Seq::empty()
    } else {
        let before = of_group(rows, accounts, internal, kind, key, n - 1);
        if kind_of(rows[n - 1], accounts, internal) == kind && category_key(
            rows[n - 1].category_id,
        ) == key {
            before.push(n - 1)
        } else {
            before
        }
    }
}

proof fn lemma_group(
    rows: Seq<TransactionRecord>,
    accounts: Seq<AccountRecord>,
    internal: Seq<Seq<char>>,
    kind: FlowKind,
    key: Seq<char>,
    n: int,
)
    requires
        0 <= n <= rows.len(),
        rows.len() <= u64::MAX,
    ensures
        ({
            let c = content_of(groups_of_kind(rows, accounts, internal, kind, n), key);
            let at = of_group(rows, accounts, internal, kind, key, n);
            &&& at.len() <= n
            &&& c.items.len() == at.len()
            &&& c.transactions == at.len()
            &&& forall|i: int|
                0 <= i < at.len() ==> (#[trigger] c.items[i]).transaction_id == Some(
                    rows[at[i]].transaction_id@,
                ) && c.items[i].amount == rows[at[i]].amount && c.items[i].transaction_date == Some(
                    rows[at[i]].transaction_date,
                )
        }),
    decreases n,
{
    if n > 0 {
        lemma_group(rows, accounts, internal, kind, key, n - 1);
        let before = groups_of_kind(rows, accounts, internal, kind, n - 1);
        let after = groups_of_kind(rows, accounts, internal, kind, n);
        let tx = rows[n - 1];
        let k = category_key(tx.category_id);
        if kind_of(tx, accounts, internal) == kind {
            if k == key {
                let (a, b) = (content_of(before, key), content_of(after, key));
                assert(b.items.len() == a.items.len() + 1);
                assert forall|i: int| 0 <= i < a.items.len() implies b.items[i] == a.items[i] by {}
            } else {
                assert(content_of(after, key) == content_of(before, key));
            }
        }
    }
}

/// What a transaction counts as tells its sign and its account: income does not go out, an
/// expense does, neither is on a credit card, has an internal category or pays a bill.
pub proof fn law_kind_tells_sign(
    tx: TransactionRecord,
    accounts: Seq<AccountRecord>,
    internal: Seq<Seq<char>>,
)
    ensures
        kind_of(tx, accounts, internal) == FlowKind::Income <==> tx.amount.scaled() >= 0
            && !on_credit(tx, accounts) && !is_internal(tx, internal),
        kind_of(tx, accounts, internal) == FlowKind::Expense <==> tx.amount.scaled() < 0
            && !on_credit(tx, accounts) && !is_internal(tx, internal) && !pays_card(tx),
        kind_of(tx, accounts, internal) == FlowKind::CardPayment ==> tx.amount.scaled() < 0,
        pays_card(tx) <==> kind_of(tx, accounts, internal) == FlowKind::CardPayment,
{
}

/// The account that an identifier names is the last with it.
pub proof fn law_last_account(accounts: Seq<AccountRecord>, id: Seq<char>)
    ensures
        match last_account(accounts, id) {
            Some(a) => exists|i: int|
                {
                    &&& 0 <= i < accounts.len()
                    &&& #[trigger] accounts[i] == a
                    &&& a.account_id@ == id
                    &&& forall|j: int|
                        i < j < accounts.len() ==> (#[trigger] accounts[j]).account_id@ != id
                },
            None => forall|i: int|
                0 <= i < accounts.len() ==> (#[trigger] accounts[i]).account_id@ != id,
        },
    decreases accounts.len(),
{
    if accounts.len() > 0 {
        let t = accounts.drop_last();
        law_last_account(t, id);
        let last = accounts.len() - 1;
        if accounts[last].account_id@ != id {
            match last_account(t, id) {
                Some(a) => {
                    let i = choose|i: int|
                        {
                            &&& 0 <= i < t.len()
                            &&& #[trigger] t[i] == a
                            &&& a.account_id@ == id
                            &&& forall|j: int|
                                i < j < t.len() ==> (#[trigger] t[j]).account_id@ != id
                        };
                    assert(accounts[i] == a);
                    assert forall|j: int| i < j < accounts.len() implies (
                    #[trigger] accounts[j]).account_id@ != id by {
                        if j < last {
                            assert(t[j] == accounts[j]);
                        }
                    }
                },
                None => {
                    assert forall|j: int| 0 <= j < accounts.len() implies (
                    #[trigger] accounts[j]).account_id@ != id by {
                        if j < last {
                            assert(t[j] == accounts[j]);
                        }
                    }
                },
            }
        } else {
            assert(accounts[last].account_id@ == id);
        }
    }
}

/// What comes in less what goes out is what the groups come to.
pub proof fn law_gains_less_losses(groups: Seq<CashflowCategoryGroup>)
    requires
        forall|i: int| 0 <= i < groups.len() ==> (#[trigger] groups[i]).subtotal.in_range(),
    ensures
        exact_sum(gains(groups)) - exact_sum(losses(groups)) == exact_sum(subtotals(groups)),
        forall|i: int| 0 <= i < gains(groups).len() ==> (#[trigger] gains(groups)[i]).scaled() >= 0,
        forall|i: int|
            0 <= i < losses(groups).len() ==> (#[trigger] losses(groups)[i]).scaled() > 0,
        gains(groups).len() + losses(groups).len() == groups.len(),
    decreases groups.len(),
{
    if groups.len() > 0 {
        let t = groups.drop_last();
        assert forall|i: int| 0 <= i < t.len() implies (#[trigger] t[i]).subtotal.in_range() by {
            assert(t[i] == groups[i]);
        }
        law_gains_less_losses(t);
        let last = groups.last().subtotal;
        assert(groups[groups.len() - 1].subtotal == last);
        assert(subtotals(groups).drop_last() =~= subtotals(t));
        lemma_negated(last);
        let (g, l) = (gains(groups), losses(groups));
        if last.scaled() >= 0 {
            assert(g.drop_last() =~= gains(t));
            assert forall|i: int| 0 <= i < g.len() implies (#[trigger] g[i]).scaled() >= 0 by {
                if i < gains(t).len() {
                    assert(gains(t)[i] == g[i]);
                }
            }
        } else {
            assert(l.drop_last() =~= losses(t));
            assert forall|i: int| 0 <= i < l.len() implies (#[trigger] l[i]).scaled() > 0 by {
                if i < losses(t).len() {
                    assert(losses(t)[i] == l[i]);
                }
            }
        }
    }
}

/// What the groups come to, group by group.
pub open spec fn subtotals(groups: Seq<CashflowCategoryGroup>) -> Seq<Amount> {
    groups.map_values(|g: CashflowCategoryGroup| g.subtotal)
}

/// What happened and what is forecast of a month come to the whole month, in each of its
/// amounts; the balance at its end is moved by what is forecast.
pub proof fn law_combined_month_adds_up(
    month: Seq<char>,
    r: CashflowRow,
    a: CashflowRow,
    b: CashflowRow,
    p: nat,
)
    requires
        combined(month, r, a, b),
        few(a.income, p) && few(b.income, p),
        few(a.expenses, p) && few(b.expenses, p),
        few(a.expense_reduction, p) && few(b.expense_reduction, p),
        few(a.net, p) && few(b.net, p),
        a.closing_balance is Some ==> few(a.closing_balance->0, p),
        abs(a.income.scaled()) + abs(b.income.scaled()) <= room(p),
        abs(a.expenses.scaled()) + abs(b.expenses.scaled()) <= room(p),
        abs(a.expense_reduction.scaled()) + abs(b.expense_reduction.scaled()) <= room(p),
        abs(a.net.scaled()) + abs(b.net.scaled()) <= room(p),
        a.closing_balance is Some ==> abs(a.closing_balance->0.scaled()) + abs(b.net.scaled())
            <= room(p),
    ensures
        r.income.scaled() == a.income.scaled() + b.income.scaled(),
        r.expenses.scaled() == a.expenses.scaled() + b.expenses.scaled(),
        r.expense_reduction.scaled() == a.expense_reduction.scaled()
            + b.expense_reduction.scaled(),
        r.net.scaled() == a.net.scaled() + b.net.scaled(),
        a.net.scaled() == a.income.scaled() - a.expenses.scaled() && b.net.scaled()
            == b.income.scaled() - b.expenses.scaled() ==> r.net.scaled() == r.income.scaled()
            - r.expenses.scaled(),
        r.closing_balance is Some <==> a.closing_balance is Some,
        r.closing_balance is Some ==> r.closing_balance->0.scaled()
            == a.closing_balance->0.scaled() + b.net.scaled(),
{
    law_plus_of_few_places(a.income, b.income, p);
    law_plus_of_few_places(a.expenses, b.expenses, p);
    law_plus_of_few_places(a.expense_reduction, b.expense_reduction, p);
    law_plus_of_few_places(a.net, b.net, p);
    if let Some(c) = a.closing_balance {
        law_plus_of_few_places(c, b.net, p);
    }
}

} // verus!
