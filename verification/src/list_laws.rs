//! What the order and the choice of what is listed promise.

use crate::amount::abs;
use crate::balances::{active_chains, InstallmentChain};
use crate::card_bills::{bill_le, bill_total_of, BillContent, BillSource};
use crate::cashflow::{item_le, ordered_content, CashflowCategoryGroup, GroupContent, ItemContent};
use crate::order::{in_order, lemma_same_elements};
use crate::seqs::{lemma_contains_last, lemma_sorted_by_keeps, lemma_sorted_by_orders, ranks};
use crate::text::{
    lemma_precedes_asymmetric, lemma_precedes_total, lemma_precedes_transitive, precedes,
};
use vstd::prelude::*;

verus! {

/// Of two texts one may stand before the other, and what may stand before a second that may
/// stand before a third may stand before the third.
proof fn lemma_may_stand_before(a: Seq<char>, b: Seq<char>, c: Seq<char>)
    ensures
        !precedes(b, a) || !precedes(a, b),
        !precedes(b, a) && !precedes(c, b) ==> !precedes(c, a),
{
    if precedes(b, a) {
        lemma_precedes_asymmetric(b, a);
    }
    if precedes(c, a) && !precedes(b, a) {
        lemma_precedes_total(a, b);
        if precedes(a, b) {
            lemma_precedes_transitive(c, a, b);
        }
    }
}

/// The lines of a category stand by size, the largest first whether it came or went; of two
/// of one size the first by description. None is lost and none is added.
pub proof fn law_largest_line_first(c: GroupContent, i: int, j: int)
    requires
        0 <= i < j < ordered_content(c).items.len(),
    ensures
        ({
            let items = ordered_content(c).items;
            &&& abs(items[i].amount.scaled()) >= abs(items[j].amount.scaled())
            &&& abs(items[i].amount.scaled()) == abs(items[j].amount.scaled()) ==> !precedes(
                items[j].description,
                items[i].description,
            )
            &&& items.to_multiset() == c.items.to_multiset()
        }),
{
    let le = item_le();
    assert forall|a: ItemContent, b: ItemContent| #![trigger le(a, b)] le(a, b) || le(b, a) by {
        lemma_may_stand_before(a.description, b.description, a.description);
    }
    assert forall|a: ItemContent, b: ItemContent, d: ItemContent|
        #![trigger le(a, b), le(b, d)]
        le(a, b) && le(b, d) implies le(a, d) by {
        lemma_may_stand_before(a.description, b.description, d.description);
    }
    assert(ranks(le));
    lemma_sorted_by_orders(c.items, le);
    lemma_sorted_by_keeps(c.items, le);
    assert(le(ordered_content(c).items[i], ordered_content(c).items[j]));
}

/// Of groups in order the one that comes to more, whether it came or went, stands first; of
/// two that come to the same the first by category.
pub proof fn law_largest_group_first(groups: Seq<CashflowCategoryGroup>, i: int, j: int)
    requires
        in_order(groups),
        0 <= i < j < groups.len(),
    ensures
        abs(groups[i].subtotal.scaled()) >= abs(groups[j].subtotal.scaled()),
        abs(groups[i].subtotal.scaled()) == abs(groups[j].subtotal.scaled()) ==> !precedes(
            groups[j].category_id@,
            groups[i].category_id@,
        ),
{
}

/// The settled bills of a month stand by their totals, the largest first; of two with one
/// total the first by card.
pub proof fn law_largest_bill_first(source: BillSource, i: int, j: int)
    requires
        0 <= i < j < source.bills().len(),
    ensures
        ({
            let (a, b) = (source.bills()[i], source.bills()[j]);
            &&& a.bill_total.scaled() >= b.bill_total.scaled()
            &&& a.bill_total.scaled() == b.bill_total.scaled() ==> !precedes(
                b.account_id,
                a.account_id,
            )
        }),
{
    let le = bill_le();
    assert forall|a: BillContent, b: BillContent| #![trigger le(a, b)] le(a, b) || le(b, a) by {
        lemma_may_stand_before(a.account_id, b.account_id, a.account_id);
    }
    assert forall|a: BillContent, b: BillContent, c: BillContent|
        #![trigger le(a, b), le(b, c)]
        le(a, b) && le(b, c) implies le(a, c) by {
        lemma_may_stand_before(a.account_id, b.account_id, c.account_id);
    }
    assert(ranks(le));
    lemma_sorted_by_orders(
        source.settled(source.cards().len() as int).map_values(
            |s: (Seq<char>, int)| source.content(s),
        ),
        le,
    );
    assert(le(source.bills()[i], source.bills()[j]));
}

/// A settled bill is that of one of the cards, and something was to be paid on it.
pub proof fn law_settled_bills_were_owed(source: BillSource, k: int, s: (Seq<char>, int))
    requires
        0 <= k <= source.cards().len(),
        source.settled(k).contains(s),
    ensures
        source.cards().contains(s.0),
        bill_total_of(source.rows@, source.members(s.0)).scaled() > 0,
    decreases k,
{
    if k > 0 {
        let (before, all) = (source.settled(k - 1), source.settled(k));
        let id = source.cards()[k - 1];
        if all.len() > before.len() {
            lemma_contains_last(all, s);
            assert(all.drop_last() =~= before);
            if !before.contains(s) {
                assert(s == all.last());
                assert(s.0 == id);
            }
        }
        if before.contains(s) {
            law_settled_bills_were_owed(source, k - 1, s);
        }
    }
}

/// Each bill of the month is one that a payment settled.
pub proof fn law_bills_are_settled(source: BillSource, b: BillContent)
    ensures
        source.bills().contains(b) <==> (exists|s: (Seq<char>, int)|
            #![trigger source.content(s)]
            source.settled(source.cards().len() as int).contains(s) && source.content(s) == b),
{
    let settled = source.settled(source.cards().len() as int);
    let list = settled.map_values(|s: (Seq<char>, int)| source.content(s));
    lemma_sorted_by_keeps(list, bill_le());
    lemma_same_elements(source.bills(), list);
    if list.contains(b) {
        let i = choose|i: int| 0 <= i < list.len() && list[i] == b;
        assert(settled.contains(settled[i]));
        assert(source.content(settled[i]) == b);
    }
    if exists|s: (Seq<char>, int)|
        #![trigger source.content(s)]
        settled.contains(s) && source.content(s) == b {
        let s = choose|s: (Seq<char>, int)|
            #![trigger source.content(s)]
            settled.contains(s) && source.content(s) == b;
        let i = choose|i: int| 0 <= i < settled.len() && settled[i] == s;
        assert(list[i] == b);
    }
}

/// A purchase is still paid exactly where payments are left.
pub proof fn law_active_chains(chains: Seq<InstallmentChain>, n: int, i: int)
    requires
        0 <= n <= chains.len(),
    ensures
        active_chains(chains, n).contains(i) <==> 0 <= i < n && chains[i].remaining > 0,
    decreases n,
{
    if n > 0 {
        law_active_chains(chains, n - 1, i);
        let (a, b) = (active_chains(chains, n - 1), active_chains(chains, n));
        if b.len() > a.len() {
            lemma_contains_last(b, i);
            assert(b.drop_last() =~= a);
        }
    }
}

} // verus!
