//! Parts that come to the whole: the subtotals of card bills and of tallies. They do
//! wherever no sum has to give up decimal places.

use crate::amount::{
    abs, exact_sum, law_plus_exact, lemma_made, lemma_zero_scaled, max_units, pow10, sum_of, zero,
    Amount,
};
use crate::card_bills::{
    bill_content, law_bill_has_each_purchase_once, lemma_picked_last, of_kind, other_groups,
    purchase_of, PurchaseKind,
};
use crate::cashflow::{category_key, content_of, ordered_content, tx_amounts, GroupContent};
use crate::cards::row_amounts;
use crate::insights::{insight_keys, InsightKind};
use crate::order::where_at;
use crate::places::{lemma_fits, lemma_negated};
use crate::records::{CardClosedTransactionRow, TransactionRecord};
use crate::sums::picked;
use crate::tally::{counts, has_key, rows_with, tallied, Tally};
use vstd::prelude::*;

verus! {

/// Whether adding the amounts up in their order loses nothing.
pub open spec fn adds_exactly(s: Seq<Amount>) -> bool {
    sum_of(s).scaled() == exact_sum(s)
}

/// The sizes of the amounts together, counted in the smallest step.
pub open spec fn gross(s: Seq<Amount>) -> int
    decreases s.len(),
{
    if s.len() == 0 {
        0
    } else {
        gross(s.drop_last()) + abs(s.last().scaled())
    }
}

/// Amounts with at most `p` decimal places add up exactly, as long as their sizes
/// together can be written with `p` places.
pub proof fn law_sums_of_few_places_are_exact(s: Seq<Amount>, p: nat)
    requires
        p <= 28,
        forall|i: int|
            0 <= i < s.len() ==> (#[trigger] s[i]).in_range() && s[i].places() <= p,
        gross(s) <= max_units() * pow10((28 - p) as nat),
    ensures
        adds_exactly(s),
        sum_of(s).in_range(),
        sum_of(s).places() <= p,
        abs(sum_of(s).scaled()) <= gross(s),
    decreases s.len(),
{
    if s.len() == 0 {
        lemma_made(false, 0, 0);
        lemma_zero_scaled(zero());
    } else {
        let t = s.drop_last();
        assert forall|i: int| 0 <= i < t.len() implies (#[trigger] t[i]).in_range() && t[i].places()
            <= p by {
            assert(t[i] == s[i]);
        }
        law_sums_of_few_places_are_exact(t, p);
        let (a, b) = (sum_of(t), s.last());
        assert(b == s[s.len() - 1]);
        lemma_fits(a, b, p);
        law_plus_exact(a, b);
    }
}

// ---------------------------------------------------------------------------
// Tallies

/// What the lines of a tally come to, counted in the smallest step.
pub open spec fn tally_total(list: Seq<Tally>) -> int
    decreases list.len(),
{
    if list.len() == 0 {
        0
    } else {
        tally_total(list.drop_last()) + list.last().amount.scaled()
    }
}

/// How many rows the lines of a tally count.
pub open spec fn tally_count(list: Seq<Tally>) -> int
    decreases list.len(),
{
    if list.len() == 0 {
        0
    } else {
        tally_count(list.drop_last()) + list.last().transactions
    }
}

/// The lines of a tally come to what the rows with a key come to, and count each of them
/// once, unless a line's sum has to give up decimal places.
pub proof fn law_tally_adds_up(
    list: Seq<Tally>,
    keys: Seq<Option<(Seq<char>, Seq<char>)>>,
    amounts: Seq<Amount>,
)
    requires
        tallied(list, keys, amounts),
        forall|i: int|
            0 <= i < list.len() ==> adds_exactly(
                picked(amounts, rows_with(keys, (#[trigger] list[i]).key@)),
            ),
    ensures
        ({
            let with_key = where_at(keys.len() as int, |i: int| keys[i] is Some);
            &&& tally_total(list) == exact_sum(picked(amounts, with_key))
            &&& tally_count(list) == with_key.len()
        }),
{
    lemma_lines(list, keys, amounts);
    lemma_lines_of_rows(list, keys, amounts, keys.len() as int);
}

/// What the lines of a tally come to over the first `n` rows: exactly, and in number.
spec fn line_sums(
    list: Seq<Tally>,
    keys: Seq<Option<(Seq<char>, Seq<char>)>>,
    amounts: Seq<Amount>,
    n: int,
) -> (int, int)
    decreases list.len(),
{
    if list.len() == 0 {
        (0, 0)
    } else {
        let before = line_sums(list.drop_last(), keys, amounts, n);
        let at = where_at(n, has_key(keys, list.last().key@));
        (before.0 + exact_sum(picked(amounts, at)), before.1 + at.len())
    }
}

proof fn lemma_lines(
    list: Seq<Tally>,
    keys: Seq<Option<(Seq<char>, Seq<char>)>>,
    amounts: Seq<Amount>,
)
    requires
        forall|i: int| 0 <= i < list.len() ==> counts(#[trigger] list[i], keys, amounts),
        forall|i: int|
            0 <= i < list.len() ==> adds_exactly(
                picked(amounts, rows_with(keys, (#[trigger] list[i]).key@)),
            ),
    ensures
        line_sums(list, keys, amounts, keys.len() as int) == (tally_total(list), tally_count(list)),
    decreases list.len(),
{
    if list.len() > 0 {
        let t = list.drop_last();
        assert forall|i: int| 0 <= i < t.len() implies counts(#[trigger] t[i], keys, amounts)
            && adds_exactly(picked(amounts, rows_with(keys, t[i].key@))) by {
            assert(t[i] == list[i]);
        }
        lemma_lines(t, keys, amounts);
        assert(counts(list[list.len() - 1], keys, amounts));
    }
}

spec fn has_line(list: Seq<Tally>, key: (Seq<char>, Seq<char>)) -> bool {
    exists|i: int| 0 <= i < list.len() && (#[trigger] list[i]).key@ == key
}

proof fn lemma_one_row(
    list: Seq<Tally>,
    keys: Seq<Option<(Seq<char>, Seq<char>)>>,
    amounts: Seq<Amount>,
    n: int,
)
    requires
        0 <= n < keys.len(),
        forall|i: int, j: int|
            0 <= i < j < list.len() ==> (#[trigger] list[i]).key@ != (#[trigger] list[j]).key@,
    ensures
        ({
            let a = line_sums(list, keys, amounts, n);
            let b = line_sums(list, keys, amounts, n + 1);
            if keys[n] is Some && has_line(list, keys[n]->0) {
                b == (a.0 + amounts[n].scaled(), a.1 + 1)
            } else {
                b == a
            }
        }),
    decreases list.len(),
{
    if list.len() > 0 {
        let t = list.drop_last();
        assert forall|i: int, j: int| 0 <= i < j < t.len() implies (#[trigger] t[i]).key@ != (
        #[trigger] t[j]).key@ by {
            assert(t[i] == list[i] && t[j] == list[j]);
        }
        lemma_one_row(t, keys, amounts, n);
        let key = list.last().key@;
        let f = has_key(keys, key);
        if f(n) {
            let at = where_at(n + 1, f);
            assert(at == where_at(n, f).push(n));
            lemma_picked_last(amounts, at);
            assert(at.drop_last() =~= where_at(n, f));
            assert(list[list.len() - 1].key@ == keys[n]->0);
            assert(has_line(list, keys[n]->0));
            if has_line(t, keys[n]->0) {
                let i = choose|i: int| 0 <= i < t.len() && (#[trigger] t[i]).key@ == keys[n]->0;
                assert(list[i].key@ != list[list.len() - 1].key@);
            }
        } else if keys[n] is Some {
            if has_line(list, keys[n]->0) {
                let i = choose|i: int| 0 <= i < list.len() && (#[trigger] list[i]).key@ == keys[n]->0;
                assert(i < t.len());
                assert(t[i].key@ == keys[n]->0);
            }
            if has_line(t, keys[n]->0) {
                let i = choose|i: int| 0 <= i < t.len() && (#[trigger] t[i]).key@ == keys[n]->0;
                assert(list[i].key@ == keys[n]->0);
            }
        }
    }
}

proof fn lemma_lines_of_rows(
    list: Seq<Tally>,
    keys: Seq<Option<(Seq<char>, Seq<char>)>>,
    amounts: Seq<Amount>,
    n: int,
)
    requires
        tallied(list, keys, amounts),
        0 <= n <= keys.len(),
    ensures
        ({
            let at = where_at(n, |i: int| keys[i] is Some);
            line_sums(list, keys, amounts, n) == (
                exact_sum(picked(amounts, at)),
                at.len() as int,
            )
        }),
    decreases n,
{
    let f = |i: int| keys[i] is Some;
    if n == 0 {
        lemma_no_rows(list, keys, amounts);
        assert(picked(amounts, where_at(0, f)) =~= Seq::<Amount>::empty());
    } else {
        lemma_lines_of_rows(list, keys, amounts, n - 1);
        lemma_one_row(list, keys, amounts, n - 1);
        if f(n - 1) {
            let at = where_at(n, f);
            lemma_picked_last(amounts, at);
            assert(at.drop_last() =~= where_at(n - 1, f));
            assert(keys[n - 1] is Some);
            assert(has_line(list, keys[n - 1]->0));
        }
    }
}

proof fn lemma_no_rows(
    list: Seq<Tally>,
    keys: Seq<Option<(Seq<char>, Seq<char>)>>,
    amounts: Seq<Amount>,
)
    ensures
        line_sums(list, keys, amounts, 0) == (0int, 0int),
    decreases list.len(),
{
    if list.len() > 0 {
        lemma_no_rows(list.drop_last(), keys, amounts);
        assert(picked(amounts, where_at(0, has_key(keys, list.last().key@))) =~= Seq::<
            Amount,
        >::empty());
    }
}

/// The categories of closed cards come to what all the closed rows come to, and count
/// each of them once, unless a category's sum has to give up decimal places.
pub proof fn law_closed_categories_add_up(
    list: Seq<Tally>,
    closed: Seq<CardClosedTransactionRow>,
    months: Seq<Vec<CardClosedTransactionRow>>,
)
    requires
        tallied(list, insight_keys(InsightKind::Category, closed, months), row_amounts(closed)),
        forall|i: int|
            0 <= i < list.len() ==> adds_exactly(
                picked(
                    row_amounts(closed),
                    rows_with(
                        insight_keys(InsightKind::Category, closed, months),
                        (#[trigger] list[i]).key@,
                    ),
                ),
            ),
    ensures
        tally_total(list) == exact_sum(row_amounts(closed)),
        tally_count(list) == closed.len(),
{
    let keys = insight_keys(InsightKind::Category, closed, months);
    let amounts = row_amounts(closed);
    law_tally_adds_up(list, keys, amounts);
    let f = |i: int| keys[i] is Some;
    lemma_all_at(closed.len() as int, f);
    assert(picked(amounts, where_at(keys.len() as int, f)) =~= amounts);
}

proof fn lemma_all_at(n: int, f: spec_fn(int) -> bool)
    requires
        n >= 0,
        forall|i: int| 0 <= i < n ==> #[trigger] f(i),
    ensures
        where_at(n, f).len() == n,
        forall|i: int| 0 <= i < n ==> #[trigger] where_at(n, f)[i] == i,
    decreases n,
{
    if n > 0 {
        lemma_all_at(n - 1, f);
        assert(f(n - 1));
    }
}

// ---------------------------------------------------------------------------
// Card bills

/// What the subtotals of the groups come to, counted in the smallest step.
pub open spec fn group_total(groups: Map<Seq<char>, GroupContent>) -> int
    decreases groups.dom().len(),
{
    if groups.dom().finite() && groups.dom().len() > 0 {
        let key = groups.dom().choose();
        group_total(groups.remove(key)) + groups[key].subtotal.scaled()
    } else {
        0
    }
}

proof fn lemma_group_total_same(
    a: Map<Seq<char>, GroupContent>,
    b: Map<Seq<char>, GroupContent>,
)
    requires
        a.dom() == b.dom(),
        a.dom().finite(),
        forall|k: Seq<char>| #[trigger] a.contains_key(k) ==> a[k].subtotal == b[k].subtotal,
    ensures
        group_total(a) == group_total(b),
    decreases a.dom().len(),
{
    if a.dom().len() > 0 {
        let key = a.dom().choose();
        assert(a.contains_key(key));
        assert(a.remove(key).dom() =~= b.remove(key).dom());
        assert forall|k: Seq<char>| #[trigger] a.remove(key).contains_key(k) implies a.remove(
            key,
        )[k].subtotal == b.remove(key)[k].subtotal by {
            assert(a.contains_key(k));
        }
        lemma_group_total_same(a.remove(key), b.remove(key));
    }
}

/// Whether the positions stand in a list of that length.
pub open spec fn stands_in(at: Seq<int>, n: int) -> bool {
    forall|i: int| 0 <= i < at.len() ==> 0 <= #[trigger] at[i] < n
}

/// The positions of the other purchases of a category.
pub open spec fn others_of(rows: Seq<TransactionRecord>, at: Seq<int>, key: Seq<char>) -> Seq<int>
    decreases at.len(),
{
    if at.len() == 0 {
        Seq::empty()
    } else {
        let tx = rows[at.last()];
        if purchase_of(tx) == PurchaseKind::Other && category_key(tx.category_id) == key {
            others_of(rows, at.drop_last(), key).push(at.last())
        } else {
            others_of(rows, at.drop_last(), key)
        }
    }
}

/// The subtotal of each category is the sum of its purchases, and there is none without
/// a purchase.
proof fn lemma_other_groups(rows: Seq<TransactionRecord>, at: Seq<int>, n: int)
    requires
        0 <= n <= at.len(),
        stands_in(at, rows.len() as int),
    ensures
        other_groups(rows, at, n).dom().finite(),
        forall|k: Seq<char>|
            (#[trigger] other_groups(rows, at, n).contains_key(k)) <==> others_of(
                rows,
                at.take(n),
                k,
            ).len() > 0,
        forall|k: Seq<char>|
            content_of(other_groups(rows, at, n), k).subtotal == sum_of(
                picked(tx_amounts(rows), #[trigger] others_of(rows, at.take(n), k)),
            ),
    decreases n,
{
    let amounts = tx_amounts(rows);
    if n == 0 {
        assert forall|k: Seq<char>|
            sum_of(picked(amounts, #[trigger] others_of(rows, at.take(0), k))) == zero() by {
            assert(picked(amounts, others_of(rows, at.take(0), k)) =~= Seq::<Amount>::empty());
        }
    } else {
        lemma_other_groups(rows, at, n - 1);
        assert(at.take(n).drop_last() =~= at.take(n - 1));
        let tx = rows[at[n - 1]];
        let before = other_groups(rows, at, n - 1);
        let after = other_groups(rows, at, n);
        let key = category_key(tx.category_id);
        assert forall|k: Seq<char>|
            content_of(after, k).subtotal == sum_of(
                picked(amounts, #[trigger] others_of(rows, at.take(n), k)),
            ) by {
            let was = others_of(rows, at.take(n - 1), k);
            if purchase_of(tx) == PurchaseKind::Other && k == key {
                let now = was.push(at[n - 1]);
                assert(picked(amounts, now).drop_last() =~= picked(amounts, was));
                assert(picked(amounts, now).last() == tx.amount);
            } else {
                assert(content_of(after, k) == content_of(before, k));
            }
        }
        assert forall|k: Seq<char>| (#[trigger] after.contains_key(k)) <==> others_of(
            rows,
            at.take(n),
            k,
        ).len() > 0 by {
            if k != key || purchase_of(tx) != PurchaseKind::Other {
                assert(before.contains_key(k) == after.contains_key(k));
            }
        }
    }
}

/// The categories of the other purchases come to what those purchases come to.
proof fn lemma_others_add_up(rows: Seq<TransactionRecord>, at: Seq<int>, n: int)
    requires
        0 <= n <= at.len(),
        stands_in(at, rows.len() as int),
    ensures
        exact_groups(rows, at, other_groups(rows, at, n), n) == exact_sum(
            picked(tx_amounts(rows), of_kind(rows, at.take(n), PurchaseKind::Other)),
        ),
    decreases n,
{
    let amounts = tx_amounts(rows);
    lemma_other_groups(rows, at, n);
    if n == 0 {
        assert(picked(amounts, of_kind(rows, at.take(0), PurchaseKind::Other)) =~= Seq::<
            Amount,
        >::empty());
        assert(other_groups(rows, at, 0).dom() =~= Set::empty());
    } else {
        lemma_other_groups(rows, at, n - 1);
        lemma_others_add_up(rows, at, n - 1);
        assert(at.take(n).drop_last() =~= at.take(n - 1));
        let tx = rows[at[n - 1]];
        let key = category_key(tx.category_id);
        let before = other_groups(rows, at, n - 1);
        let after = other_groups(rows, at, n);
        let mine = of_kind(rows, at.take(n), PurchaseKind::Other);
        if purchase_of(tx) == PurchaseKind::Other {
            lemma_picked_last(amounts, mine);
            assert(mine.drop_last() =~= of_kind(rows, at.take(n - 1), PurchaseKind::Other));
            lemma_exact_step(rows, at, before.dom(), key, n);
            assert(after.dom() =~= before.dom().insert(key));
        } else {
            lemma_exact_same(rows, at, before.dom(), n);
        }
    }
}

/// What the purchases at the first `n` positions come to, category by category.
spec fn exact_groups(
    rows: Seq<TransactionRecord>,
    at: Seq<int>,
    groups: Map<Seq<char>, GroupContent>,
    n: int,
) -> int {
    exact_keys(rows, at, groups.dom(), n)
}

spec fn exact_of(rows: Seq<TransactionRecord>, at: Seq<int>, key: Seq<char>, n: int) -> int {
    exact_sum(picked(tx_amounts(rows), others_of(rows, at.take(n), key)))
}

spec fn exact_keys(rows: Seq<TransactionRecord>, at: Seq<int>, keys: Set<Seq<char>>, n: int) -> int
    decreases keys.len(),
{
    if keys.finite() && keys.len() > 0 {
        let key = keys.choose();
        exact_keys(rows, at, keys.remove(key), n) + exact_of(rows, at, key, n)
    } else {
        0
    }
}

proof fn lemma_exact_keys(
    rows: Seq<TransactionRecord>,
    at: Seq<int>,
    keys: Set<Seq<char>>,
    key: Seq<char>,
    n: int,
)
    requires
        keys.finite(),
        keys.contains(key),
    ensures
        exact_keys(rows, at, keys, n) == exact_keys(rows, at, keys.remove(key), n) + exact_of(
            rows,
            at,
            key,
            n,
        ),
    decreases keys.len(),
{
    let first = keys.choose();
    assert(keys.len() > 0);
    if first != key {
        lemma_exact_keys(rows, at, keys.remove(first), key, n);
        lemma_exact_keys(rows, at, keys.remove(key), first, n);
        assert(keys.remove(first).remove(key) =~= keys.remove(key).remove(first));
    }
}

/// A purchase that is none of the others, or of none of the categories, changes nothing.
proof fn lemma_exact_same(
    rows: Seq<TransactionRecord>,
    at: Seq<int>,
    keys: Set<Seq<char>>,
    n: int,
)
    requires
        keys.finite(),
        0 < n <= at.len(),
        purchase_of(rows[at[n - 1]]) != PurchaseKind::Other || !keys.contains(
            category_key(rows[at[n - 1]].category_id),
        ),
    ensures
        exact_keys(rows, at, keys, n) == exact_keys(rows, at, keys, n - 1),
    decreases keys.len(),
{
    assert(at.take(n).drop_last() =~= at.take(n - 1));
    if keys.len() > 0 {
        let first = keys.choose();
        lemma_exact_same(rows, at, keys.remove(first), n);
        assert(keys.contains(first));
    }
}

proof fn lemma_exact_step(
    rows: Seq<TransactionRecord>,
    at: Seq<int>,
    keys: Set<Seq<char>>,
    key: Seq<char>,
    n: int,
)
    requires
        keys.finite(),
        0 < n <= at.len(),
        stands_in(at, rows.len() as int),
        purchase_of(rows[at[n - 1]]) == PurchaseKind::Other,
        category_key(rows[at[n - 1]].category_id) == key,
        !keys.contains(key) ==> others_of(rows, at.take(n - 1), key).len() == 0,
    ensures
        exact_keys(rows, at, keys.insert(key), n) == exact_keys(rows, at, keys, n - 1)
            + rows[at[n - 1]].amount.scaled(),
{
    let amounts = tx_amounts(rows);
    assert(at.take(n).drop_last() =~= at.take(n - 1));
    let now = others_of(rows, at.take(n), key);
    let was = others_of(rows, at.take(n - 1), key);
    lemma_picked_last(amounts, now);
    assert(now.drop_last() =~= was);
    let rest = keys.remove(key);
    lemma_exact_same(rows, at, rest, n);
    lemma_exact_keys(rows, at, keys.insert(key), key, n);
    assert(keys.insert(key).remove(key) =~= rest);
    if keys.contains(key) {
        lemma_exact_keys(rows, at, keys, key, n - 1);
    } else {
        assert(rest =~= keys);
        assert(picked(amounts, was) =~= Seq::<Amount>::empty());
    }
}

proof fn lemma_subtotals_are_exact(
    rows: Seq<TransactionRecord>,
    at: Seq<int>,
    groups: Map<Seq<char>, GroupContent>,
    n: int,
)
    requires
        groups.dom().finite(),
        forall|k: Seq<char>|
            (#[trigger] groups.contains_key(k)) ==> groups[k].subtotal.scaled() == exact_of(
                rows,
                at,
                k,
                n,
            ),
    ensures
        group_total(groups) == exact_keys(rows, at, groups.dom(), n),
    decreases groups.dom().len(),
{
    if groups.dom().len() > 0 {
        let key = groups.dom().choose();
        let rest = groups.remove(key);
        assert(groups.contains_key(key));
        assert(rest.dom() =~= groups.dom().remove(key));
        assert forall|k: Seq<char>| (#[trigger] rest.contains_key(k)) implies rest[k].subtotal.scaled()
            == exact_of(rows, at, k, n) by {
            assert(groups.contains_key(k));
        }
        lemma_subtotals_are_exact(rows, at, rest, n);
    }
}

/// The installments, the subscriptions and the other categories of a card bill come to
/// its total, unless one of these sums has to give up decimal places.
pub proof fn law_bill_subtotals_add_up(
    id: Seq<char>,
    rows: Seq<TransactionRecord>,
    at: Seq<int>,
    payment: TransactionRecord,
)
    requires
        stands_in(at, rows.len() as int),
        sum_of(picked(tx_amounts(rows), at)).in_range(),
        adds_exactly(picked(tx_amounts(rows), at)),
        adds_exactly(picked(tx_amounts(rows), of_kind(rows, at, PurchaseKind::Installment))),
        adds_exactly(picked(tx_amounts(rows), of_kind(rows, at, PurchaseKind::Subscription))),
        forall|k: Seq<char>|
            adds_exactly(picked(tx_amounts(rows), #[trigger] others_of(rows, at, k))),
    ensures
        ({
            let bill = bill_content(id, rows, at, payment);
            bill.installments.1.subtotal.scaled() + bill.subscriptions.1.subtotal.scaled()
                + group_total(bill.other_categories) == -bill.bill_total.scaled()
        }),
{
    lemma_negated(sum_of(picked(tx_amounts(rows), at)));
    let n = at.len() as int;
    assert(at.take(n) =~= at);
    let groups = other_groups(rows, at, n);
    law_bill_has_each_purchase_once(rows, at);
    lemma_other_groups(rows, at, n);
    lemma_others_add_up(rows, at, n);
    assert forall|k: Seq<char>| (#[trigger] groups.contains_key(k)) implies groups[k].subtotal.scaled()
        == exact_of(rows, at, k, n) by {
        assert(others_of(rows, at, k).len() > 0);
        assert(content_of(groups, k) == groups[k]);
        assert(adds_exactly(picked(tx_amounts(rows), others_of(rows, at, k))));
    }
    lemma_subtotals_are_exact(rows, at, groups, n);
    let shown = groups.map_values(|c: GroupContent| ordered_content(c));
    assert(shown.dom() =~= groups.dom());
    lemma_group_total_same(groups, shown);
}

} // verus!
