//! What reports by owner, family and merchant promise: that nothing is lost between the
//! rows and the totals.

use crate::amount::{abs, exact_sum, from_signed, one, sum_of, Amount};
use crate::balances::{
    balance_row, balance_rows, checking_account, held, held_amounts, monthly_parts, ongoing,
    owners_amounts, owners_of, releasing, rows_of_owner, BalanceRow, InstallmentChain,
};
use crate::families::{group_amounts, group_pairs, of_sign, sum_for};
use crate::insights::{
    account_insight, insight_key, merchants_of, months_with, CardSummaryRow, InsightKind,
};
use crate::cashflow::CashflowCategoryGroup;
use crate::monthly::{indicator_of, listed_amounts, listed_families};
use crate::pulse::MonthlySpendRow;
use crate::order::{
    law_sorted, law_sorted_keys, lemma_ascending_differ, lemma_same_elements, positions,
    sorted_keys,
};
use crate::places::{law_minus_exact, law_quotient_exact};
use crate::ranking::{placed, ranked, totals_by, Placed};
use crate::records::{merchant_key, AccountRecord, CardClosedTransactionRow};
use crate::summary::AccountSnapshotRecord;
use crate::seqs::lemma_contains_last;
use crate::sums::picked;
use crate::totals::adds_exactly;
use vstd::prelude::*;

verus! {

// ---------------------------------------------------------------------------
// Sums by key

/// What the rows under the names come to, name by name, counted in the smallest step.
pub open spec fn named_sum(
    names: Seq<Seq<char>>,
    keys: Seq<Seq<char>>,
    amounts: Seq<Amount>,
) -> int
    decreases names.len(),
{
    if names.len() == 0 {
        0
    } else {
        named_sum(names.drop_last(), keys, amounts) + exact_sum(
            picked(amounts, positions(keys, names.last())),
        )
    }
}

/// What the rows under their keys come to is what all the rows come to: each row counts
/// under one key.
pub proof fn law_sums_by_key_add_up(keys: Seq<Seq<char>>, amounts: Seq<Amount>)
    requires
        keys.len() == amounts.len(),
    ensures
        named_sum(sorted_keys(keys), keys, amounts) == exact_sum(amounts),
{
    law_sorted_keys(keys);
    lemma_ascending_differ(sorted_keys(keys));
    lemma_named_sum(sorted_keys(keys), keys, amounts);
}

proof fn lemma_named_sum(names: Seq<Seq<char>>, keys: Seq<Seq<char>>, amounts: Seq<Amount>)
    requires
        keys.len() == amounts.len(),
        names.no_duplicates(),
        forall|k: Seq<char>| #[trigger] keys.contains(k) ==> names.contains(k),
    ensures
        named_sum(names, keys, amounts) == exact_sum(amounts),
    decreases keys.len(),
{
    if keys.len() == 0 {
        lemma_no_keys(names, keys, amounts);
    } else {
        let (k, a) = (keys.drop_last(), amounts.drop_last());
        assert forall|x: Seq<char>| #[trigger] k.contains(x) implies names.contains(x) by {
            lemma_contains_last(keys, x);
        }
        lemma_named_sum(names, k, a);
        lemma_contains_last(keys, keys.last());
        lemma_one_more(names, keys, amounts);
    }
}

proof fn lemma_no_keys(names: Seq<Seq<char>>, keys: Seq<Seq<char>>, amounts: Seq<Amount>)
    requires
        keys.len() == 0,
    ensures
        named_sum(names, keys, amounts) == 0,
    decreases names.len(),
{
    if names.len() > 0 {
        lemma_no_keys(names.drop_last(), keys, amounts);
        assert(picked(amounts, positions(keys, names.last())) =~= Seq::<Amount>::empty());
    }
}

/// One more row counts under its key alone.
proof fn lemma_one_more(names: Seq<Seq<char>>, keys: Seq<Seq<char>>, amounts: Seq<Amount>)
    requires
        keys.len() == amounts.len(),
        keys.len() > 0,
        names.no_duplicates(),
    ensures
        named_sum(names, keys, amounts) == named_sum(names, keys.drop_last(), amounts.drop_last())
            + (if names.contains(keys.last()) {
            amounts.last().scaled()
        } else {
            0
        }),
    decreases names.len(),
{
    if names.len() > 0 {
        let t = names.drop_last();
        let name = names.last();
        lemma_one_more(t, keys, amounts);
        lemma_contains_last(names, keys.last());
        if t.contains(name) {
            let i = choose|i: int| 0 <= i < t.len() && t[i] == name;
            assert(names[i] == names[names.len() - 1]);
        }
        let (k, a) = (keys.drop_last(), amounts.drop_last());
        crate::order::lemma_positions(k, name);
        let (all, before) = (
            picked(amounts, positions(keys, name)),
            picked(a, positions(k, name)),
        );
        if keys.last() == name {
            assert(all.drop_last() =~= before);
            assert(all.last() == amounts.last());
        } else {
            assert(all =~= before);
        }
    }
}

/// The totals by key come to what the rows come to, where no total has to give up places.
pub proof fn law_totals_by_key_add_up(keys: Seq<Seq<char>>, amounts: Seq<Amount>)
    requires
        keys.len() == amounts.len(),
        forall|i: int|
            0 <= i < sorted_keys(keys).len() ==> adds_exactly(
                picked(amounts, positions(keys, #[trigger] sorted_keys(keys)[i])),
            ),
    ensures
        exact_sum(totals_by(keys, amounts)) == exact_sum(amounts),
{
    law_sums_by_key_add_up(keys, amounts);
    lemma_totals(sorted_keys(keys), keys, amounts);
}

proof fn lemma_totals(names: Seq<Seq<char>>, keys: Seq<Seq<char>>, amounts: Seq<Amount>)
    requires
        forall|i: int|
            0 <= i < names.len() ==> adds_exactly(
                picked(amounts, positions(keys, #[trigger] names[i])),
            ),
    ensures
        exact_sum(names.map_values(|k: Seq<char>| sum_of(picked(amounts, positions(keys, k)))))
            == named_sum(names, keys, amounts),
    decreases names.len(),
{
    if names.len() > 0 {
        let t = names.drop_last();
        assert forall|i: int| 0 <= i < t.len() implies adds_exactly(
            picked(amounts, positions(keys, #[trigger] t[i])),
        ) by {
            assert(t[i] == names[i]);
        }
        lemma_totals(t, keys, amounts);
        let all = names.map_values(|k: Seq<char>| sum_of(picked(amounts, positions(keys, k))));
        assert(all.drop_last() =~= t.map_values(
            |k: Seq<char>| sum_of(picked(amounts, positions(keys, k))),
        ));
        assert(names[names.len() - 1] == names.last());
    }
}

/// A list ranked by amounts holds each place once, with its amount.
pub proof fn law_ranked_holds_all(amounts: Seq<Amount>, i: int)
    requires
        0 <= i < amounts.len() <= usize::MAX,
    ensures
        ranked(amounts).len() == amounts.len(),
        ranked(amounts).contains((Placed { at: i as usize, amount: amounts[i] })),
{
    let all = placed(amounts, Seq::new(amounts.len(), |i: int| i));
    law_sorted(all);
    lemma_same_elements(all, ranked(amounts));
    assert(all[i] == (Placed { at: i as usize, amount: amounts[i] }));
    assert(all.contains(all[i]));
}

// ---------------------------------------------------------------------------
// Balances

/// The balances are those of the snapshots whose account is a checking account, each told
/// as the snapshot has it.
pub proof fn law_balances_are_of_checking_accounts(
    accounts: Seq<AccountRecord>,
    snapshots: Seq<AccountSnapshotRecord>,
    row: BalanceRow,
)
    ensures
        balance_rows(accounts, snapshots).contains(row) <==> exists|i: int|
            {
                &&& 0 <= i < snapshots.len()
                &&& checking_account(
                    accounts,
                    (#[trigger] snapshots[i]).account_id@,
                ) matches Some(a) && row == balance_row(a, snapshots[i])
            },
        balance_rows(accounts, snapshots).contains(row) ==> exists|i: int|
            0 <= i < snapshots.len() && row.balance == (#[trigger] snapshots[i]).balance
                && row.snapshot_date == snapshots[i].snapshot_date,
    decreases snapshots.len(),
{
    if snapshots.len() > 0 {
        let t = snapshots.drop_last();
        let last = snapshots.len() - 1;
        law_balances_are_of_checking_accounts(accounts, t, row);
        let (a, b) = (balance_rows(accounts, t), balance_rows(accounts, snapshots));
        if b.len() > a.len() {
            assert(b.drop_last() =~= a);
            lemma_contains_last(b, row);
        }
        if a.contains(row) {
            let i = choose|i: int|
                {
                    &&& 0 <= i < t.len()
                    &&& checking_account(
                        accounts,
                        (#[trigger] t[i]).account_id@,
                    ) matches Some(a) && row == balance_row(a, t[i])
                };
            assert(snapshots[i] == t[i]);
        }
        if exists|i: int|
            {
                &&& 0 <= i < snapshots.len()
                &&& checking_account(
                    accounts,
                    (#[trigger] snapshots[i]).account_id@,
                ) matches Some(a) && row == balance_row(a, snapshots[i])
            } {
            let i = choose|i: int|
                {
                    &&& 0 <= i < snapshots.len()
                    &&& checking_account(
                        accounts,
                        (#[trigger] snapshots[i]).account_id@,
                    ) matches Some(a) && row == balance_row(a, snapshots[i])
                };
            if i < last {
                assert(t[i] == snapshots[i]);
            }
        }
        assert(snapshots.last() == snapshots[last]);
    }
}

/// An account counts as a checking account only by its type and by its identifier.
pub proof fn law_checking_account(accounts: Seq<AccountRecord>, id: Seq<char>)
    ensures
        checking_account(accounts, id) matches Some(a) ==> a.account_id@ == id
            && a.account_type@ == "checking"@ && accounts.contains(a),
{
    crate::cash_laws::law_last_account(accounts, id);
}

/// What the owners hold comes to what all the accounts hold.
pub proof fn law_owners_hold_all(rows: Seq<BalanceRow>)
    ensures
        ({
            let owners = sorted_keys(owners_of(rows));
            exact_sum(owners_amounts(rows, owners, owners.len() as int)) == exact_sum(
                held_amounts(rows),
            )
        }),
{
    let owners = sorted_keys(owners_of(rows));
    law_sums_by_key_add_up(owners_of(rows), held_amounts(rows));
    lemma_owners(rows, owners, owners.len() as int);
    assert(owners.take(owners.len() as int) =~= owners);
}

proof fn lemma_owners(rows: Seq<BalanceRow>, owners: Seq<Seq<char>>, k: int)
    requires
        0 <= k <= owners.len(),
    ensures
        exact_sum(owners_amounts(rows, owners, k)) == named_sum(
            owners.take(k),
            owners_of(rows),
            held_amounts(rows),
        ),
    decreases k,
{
    if k > 0 {
        lemma_owners(rows, owners, k - 1);
        let mine = picked(held_amounts(rows), rows_of_owner(rows, owners[k - 1]));
        lemma_exact_joined(owners_amounts(rows, owners, k - 1), mine);
        assert(owners.take(k).drop_last() =~= owners.take(k - 1));
    }
}

/// Two lists of amounts come to what they come to together.
pub proof fn lemma_exact_joined(a: Seq<Amount>, b: Seq<Amount>)
    ensures
        exact_sum(a + b) == exact_sum(a) + exact_sum(b),
    decreases b.len(),
{
    if b.len() == 0 {
        assert(a + b =~= a);
    } else {
        lemma_exact_joined(a, b.drop_last());
        assert((a + b).drop_last() =~= a + b.drop_last());
    }
}

/// A row with no known balance holds nothing.
pub proof fn law_unknown_balance_is_nothing(row: BalanceRow)
    ensures
        row.balance is None ==> held(row).scaled() == 0,
        row.balance matches Some(b) ==> held(row) == b,
{
    crate::places::lemma_zero();
}

// ---------------------------------------------------------------------------
// Installments

/// A purchase is told of as ending next month exactly where it has something left and ends
/// then, and as going on exactly where more than one payment is left and it does not.
pub proof fn law_installments_are_sorted_out(chains: Seq<InstallmentChain>, n: int, i: int)
    requires
        0 <= i < n <= chains.len() <= usize::MAX,
    ensures
        (exists|k: int|
            0 <= k < releasing(chains, n).len() && (#[trigger] releasing(chains, n)[k]).at == i)
            <==> chains[i].remaining > 0 && chains[i].released_next_month,
        (exists|k: int|
            0 <= k < ongoing(chains, n).len() && (#[trigger] ongoing(chains, n)[k]).at == i)
            <==> chains[i].remaining > 1 && !chains[i].released_next_month,
    decreases n,
{
    lemma_below(chains, n - 1);
    let (a, b) = (releasing(chains, n - 1), releasing(chains, n));
    let (x, y) = (ongoing(chains, n - 1), ongoing(chains, n));
    if i < n - 1 {
        law_installments_are_sorted_out(chains, n - 1, i);
        if chains[i].remaining > 0 && chains[i].released_next_month {
            let k = choose|k: int| 0 <= k < a.len() && (#[trigger] a[k]).at == i;
            assert(b[k].at == i);
        }
        if chains[i].remaining > 1 && !chains[i].released_next_month {
            let k = choose|k: int| 0 <= k < x.len() && (#[trigger] x[k]).at == i;
            assert(y[k].at == i);
        }
        assert(forall|k: int| 0 <= k < a.len() ==> a[k] == #[trigger] b[k]);
        assert(forall|k: int| 0 <= k < x.len() ==> x[k] == #[trigger] y[k]);
    } else {
        if chains[i].remaining > 0 && chains[i].released_next_month {
            assert(b[b.len() - 1].at == i);
        }
        if chains[i].remaining > 1 && !chains[i].released_next_month {
            assert(y[y.len() - 1].at == i);
        }
        assert(forall|k: int| 0 <= k < a.len() ==> a[k] == #[trigger] b[k]);
        assert(forall|k: int| 0 <= k < x.len() ==> x[k] == #[trigger] y[k]);
    }
}

proof fn lemma_below(chains: Seq<InstallmentChain>, n: int)
    requires
        n <= chains.len() <= usize::MAX,
    ensures
        forall|k: int| 0 <= k < releasing(chains, n).len() ==> (#[trigger] releasing(chains, n)[k]).at < n,
        forall|k: int| 0 <= k < ongoing(chains, n).len() ==> (#[trigger] ongoing(chains, n)[k]).at < n,
    decreases n,
{
    if n > 0 {
        lemma_below(chains, n - 1);
        let (a, b) = (releasing(chains, n - 1), releasing(chains, n));
        let (x, y) = (ongoing(chains, n - 1), ongoing(chains, n));
        assert forall|k: int| 0 <= k < b.len() implies (#[trigger] b[k]).at < n by {
            if k < a.len() {
                assert(a[k] == b[k]);
            }
        }
        assert forall|k: int| 0 <= k < y.len() implies (#[trigger] y[k]).at < n by {
            if k < x.len() {
                assert(x[k] == y[k]);
            }
        }
    }
}

/// Each month an active purchase asks its total divided by its payments: as many times that
/// as there are payments come to the total.
pub proof fn law_monthly_part(chains: Seq<InstallmentChain>, n: int)
    requires
        0 < n <= chains.len(),
        chains[n - 1].remaining > 0,
        chains[n - 1].total > 0,
        chains[n - 1].total_amount.in_range(),
        chains[n - 1].total_amount.units() % chains[n - 1].total as nat == 0,
    ensures
        monthly_parts(chains, n).len() == monthly_parts(chains, n - 1).len() + 1,
        chains[n - 1].total * monthly_parts(chains, n).last().scaled()
            == chains[n - 1].total_amount.scaled(),
{
    law_quotient_exact(chains[n - 1].total_amount, chains[n - 1].total as int);
}

// ---------------------------------------------------------------------------
// Insights

/// A merchant recurs exactly where it occurs in two different months.
pub proof fn law_recurring_in_two_months(
    row: CardClosedTransactionRow,
    months: Seq<Vec<CardClosedTransactionRow>>,
)
    ensures
        insight_key(InsightKind::Recurring, row, months) is Some <==> exists|i: int, j: int|
            {
                &&& 0 <= i < j < months.len()
                &&& merchants_of((#[trigger] months[i])@).contains(
                    merchant_key(row),
                )
                &&& merchants_of((#[trigger] months[j])@).contains(
                    merchant_key(row),
                )
            },
{
    lemma_months_with(months, months.len() as int, merchant_key(row));
}

proof fn lemma_months_with(
    months: Seq<Vec<CardClosedTransactionRow>>,
    n: int,
    merchant: Seq<char>,
)
    requires
        0 <= n <= months.len(),
    ensures
        months_with(months, n, merchant) <= n,
        months_with(months, n, merchant) >= 1 <==> exists|i: int|
            0 <= i < n && merchants_of((#[trigger] months[i])@).contains(merchant),
        months_with(months, n, merchant) >= 2 <==> exists|i: int, j: int|
            {
                &&& 0 <= i < j < n
                &&& merchants_of((#[trigger] months[i])@).contains(merchant)
                &&& merchants_of((#[trigger] months[j])@).contains(merchant)
            },
    decreases n,
{
    if n > 0 {
        lemma_months_with(months, n - 1, merchant);
        if merchants_of(months[n - 1]@).contains(merchant) && months_with(months, n - 1, merchant)
            >= 1 {
            let i = choose|i: int|
                0 <= i < n - 1 && merchants_of((#[trigger] months[i])@).contains(merchant);
            assert(merchants_of(months[i]@).contains(merchant));
        }
    }
}

/// What a card was charged is what is open and what is closed.
pub proof fn law_charges_are_open_or_closed(
    row: CardSummaryRow,
    closed: Seq<CardClosedTransactionRow>,
)
    requires
        row.total_charges.in_range(),
        row.open_amount.in_range(),
        crate::amount::sum_fits(row.total_charges, crate::amount::negated(row.open_amount)),
    ensures
        ({
            let r = account_insight(row, closed);
            &&& r.closed_amount.scaled() + r.open_amount.scaled() == r.total_charges.scaled()
            &&& r.open_amount == row.open_amount
            &&& r.total_charges == row.total_charges
        }),
{
    law_minus_exact(row.total_charges, row.open_amount);
}

// ---------------------------------------------------------------------------
// Families

/// The groups that bring money and those that take it are all the groups.
pub proof fn law_groups_by_sign(groups: Seq<CashflowCategoryGroup>, g: CashflowCategoryGroup)
    ensures
        of_sign(groups, true).contains(g) <==> groups.contains(g) && g.subtotal.scaled() >= 0,
        of_sign(groups, false).contains(g) <==> groups.contains(g) && g.subtotal.scaled() < 0,
        of_sign(groups, true).len() + of_sign(groups, false).len() == groups.len(),
    decreases groups.len(),
{
    if groups.len() > 0 {
        let t = groups.drop_last();
        law_groups_by_sign(t, g);
        lemma_contains_last(groups, g);
        let income = groups.last().subtotal.scaled() >= 0;
        let b = of_sign(groups, income);
        assert(b.drop_last() =~= of_sign(t, income));
        lemma_contains_last(b, g);
    }
}

/// What the families and their parts come to is what the groups come to.
pub proof fn law_families_add_up(groups: Seq<CashflowCategoryGroup>)
    requires
        forall|i: int|
            0 <= i < sorted_keys(group_pairs(groups)).len() ==> adds_exactly(
                picked(
                    group_amounts(groups),
                    positions(group_pairs(groups), #[trigger] sorted_keys(group_pairs(groups))[i]),
                ),
            ),
    ensures
        exact_sum(
            sorted_keys(group_pairs(groups)).map_values(|k: Seq<char>| sum_for(groups, k)),
        ) == exact_sum(group_amounts(groups)),
{
    law_totals_by_key_add_up(group_pairs(groups), group_amounts(groups));
    assert(sorted_keys(group_pairs(groups)).map_values(|k: Seq<char>| sum_for(groups, k))
        =~= totals_by(group_pairs(groups), group_amounts(groups)));
}

// ---------------------------------------------------------------------------
// Spending

/// What the families took comes to what the listed rows took, as money that came back is
/// told with the other sign.
pub proof fn law_spending_adds_up(rows: Seq<MonthlySpendRow>)
    requires
        forall|i: int| 0 <= i < rows.len() ==> (#[trigger] rows[i]).expenses.in_range(),
        forall|i: int|
            0 <= i < sorted_keys(listed_families(rows)).len() ==> adds_exactly(
                picked(
                    listed_amounts(rows),
                    positions(
                        listed_families(rows),
                        #[trigger] sorted_keys(listed_families(rows))[i],
                    ),
                ),
            ),
    ensures
        exact_sum(totals_by(listed_families(rows), listed_amounts(rows))) == -listed_sum(rows),
{
    lemma_listed(rows);
    law_totals_by_key_add_up(listed_families(rows), listed_amounts(rows));
}

/// What the rows took that are no payments between own accounts.
pub open spec fn listed_sum(rows: Seq<MonthlySpendRow>) -> int
    decreases rows.len(),
{
    if rows.len() == 0 {
        0
    } else {
        listed_sum(rows.drop_last()) + (if crate::text::has_prefix(
            rows.last().category_id@,
            "financeiro-pagamento-recebido"@,
        ) {
            0
        } else {
            rows.last().expenses.scaled()
        })
    }
}

proof fn lemma_listed(rows: Seq<MonthlySpendRow>)
    requires
        forall|i: int| 0 <= i < rows.len() ==> (#[trigger] rows[i]).expenses.in_range(),
    ensures
        listed_families(rows).len() == listed_amounts(rows).len(),
        exact_sum(listed_amounts(rows)) == -listed_sum(rows),
    decreases rows.len(),
{
    if rows.len() > 0 {
        let t = rows.drop_last();
        assert forall|i: int| 0 <= i < t.len() implies (#[trigger] t[i]).expenses.in_range() by {
            assert(t[i] == rows[i]);
        }
        lemma_listed(t);
        assert(rows[rows.len() - 1] == rows.last());
        crate::places::lemma_negated(rows.last().expenses);
        let all = listed_amounts(rows);
        if all.len() > listed_amounts(t).len() {
            assert(all.drop_last() =~= listed_amounts(t));
        }
    }
}

/// How a row stands by its numbers: over by a cent or more; else in order where it is off
/// by less than a cent or used up to four fifths; else nearly used up.
pub proof fn law_indicator(forecast: Amount, actual: Amount, variance: Amount)
    requires
        forecast.in_range(),
        actual.in_range(),
        variance.in_range(),
        80 * forecast.units() <= crate::amount::max_units(),
        (80 * forecast.units()) % 100 == 0,
    ensures
        indicator_of(forecast, actual, variance) == (if 100 * variance.scaled() >= one() {
            "🔻"@
        } else if 100 * variance.scaled() > -one() || 5 * abs(actual.scaled()) <= 4 * abs(
            forecast.scaled(),
        ) {
            "✅"@
        } else {
            "⚠️"@
        }),
{
    broadcast use crate::amount::lemma_made;

    crate::places::lemma_zero();
    crate::places::lemma_magnitude(forecast);
    crate::places::lemma_magnitude(actual);
    crate::places::lemma_magnitude(variance);
    let f = crate::amount::magnitude(forecast);
    crate::places::law_multiple_exact(f, 80);
    let m = crate::amount::times(f, from_signed(80, 0));
    if f.units() != 0 {
        assert(m.units() == f.units() * 80);
    }
    assert(m.units() % 100 == 0);
    law_quotient_exact(m, 100);
    let cent = crate::monthly::cent();
    assert(cent.signed() == 1);
    crate::amount::lemma_one();
    assert(crate::amount::pow10(28) == 10 * crate::amount::pow10(27) && crate::amount::pow10(27)
        == 10 * crate::amount::pow10(26));
    vstd::arithmetic::mul::lemma_mul_basics_4(crate::amount::pow10(26));
    assert(cent.scaled() == crate::amount::pow10(26));
}

} // verus!
