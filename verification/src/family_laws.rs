//! What the families of a month and what bills add to them promise.

use crate::amount::{abs, exact_sum};
use crate::cashflow::{CashflowCategoryGroup, CashflowDetailItem, GroupContent};
use crate::card_bills::CashflowCardBillDetail;
use crate::families::{
    counted, family_content, family_le, flow_families, flow_keys, flow_subs, group_counts,
    group_pairs, lemma_name_order_total, lemma_name_order_transitive, of_family, pair_key, sub_content,
    sub_families, sub_le, subs_for, FamilyContent, Flow, SubContent,
};
use crate::month_report::{
    bill_shares, installment_count, installment_totals, listed_shares, shares_of, total_shares,
};
use crate::order::{law_sorted_keys, lemma_same_elements, sorted_keys};
use crate::places::lemma_magnitude;
use crate::seqs::{
    lemma_contains_last, lemma_sorted_by_keeps, lemma_sorted_by_orders, ranks, sum_by,
};
use crate::text::precedes;
use vstd::prelude::*;

verus! {

// ---------------------------------------------------------------------------
// Subcategories and families

/// A subcategory is listed exactly where it took something, has something planned, or took
/// something the month before.
pub proof fn law_subcategory_has_something(flow: Flow, keys: Seq<Seq<char>>, s: SubContent)
    ensures
        subs_for(flow, keys).contains(s) <==> (s.actual.scaled() != 0 || s.forecast.scaled() != 0
            || s.previous.scaled() != 0) && exists|k: int|
            0 <= k < keys.len() && sub_content(flow, #[trigger] keys[k]) == s,
    decreases keys.len(),
{
    let all = subs_for(flow, keys);
    if keys.len() > 0 {
        let t = keys.drop_last();
        law_subcategory_has_something(flow, t, s);
        assert(keys.last() == keys[keys.len() - 1]);
        if subs_for(flow, t).contains(s) {
            let k = choose|k: int| 0 <= k < t.len() && sub_content(flow, #[trigger] t[k]) == s;
            assert(keys[k] == t[k]);
        }
        if all.len() > subs_for(flow, t).len() {
            lemma_contains_last(all, s);
            assert(all.drop_last() =~= subs_for(flow, t));
        }
        if exists|k: int| 0 <= k < keys.len() && sub_content(flow, #[trigger] keys[k]) == s {
            let k = choose|k: int| 0 <= k < keys.len() && sub_content(flow, #[trigger] keys[k])
                == s;
            if k < keys.len() - 1 {
                assert(t[k] == keys[k]);
            }
        }
    }
}

/// Every category of the month, of what is planned for it, and of the month before has a
/// key, and there is no other key.
pub proof fn law_keys_of_a_month(flow: Flow, key: Seq<char>)
    ensures
        flow_keys(flow).contains(key) <==> (exists|g: CashflowCategoryGroup| #[trigger]
            pair_key(g.category_id@) == key && (flow.actual.contains(g) || flow.forecast.contains(g)
                || flow.previous.contains(g))),
{
    let (a, f, p) = (
        group_pairs(flow.actual),
        group_pairs(flow.forecast),
        group_pairs(flow.previous),
    );
    let all = a + f + p;
    law_sorted_keys(all);
    lemma_pairs(flow.actual, key);
    lemma_pairs(flow.forecast, key);
    lemma_pairs(flow.previous, key);
    assert(all.contains(key) <==> a.contains(key) || f.contains(key) || p.contains(key)) by {
        if all.contains(key) {
            let i = choose|i: int| 0 <= i < all.len() && all[i] == key;
            if i < a.len() {
                assert(a[i] == key);
            } else if i < a.len() + f.len() {
                assert(f[i - a.len()] == key);
            } else {
                assert(p[i - a.len() - f.len()] == key);
            }
        }
        if a.contains(key) {
            let i = choose|i: int| 0 <= i < a.len() && a[i] == key;
            assert(all[i] == key);
        }
        if f.contains(key) {
            let i = choose|i: int| 0 <= i < f.len() && f[i] == key;
            assert(all[a.len() + i] == key);
        }
        if p.contains(key) {
            let i = choose|i: int| 0 <= i < p.len() && p[i] == key;
            assert(all[a.len() + f.len() + i] == key);
        }
    }
}

proof fn lemma_pairs(groups: Seq<CashflowCategoryGroup>, key: Seq<char>)
    ensures
        group_pairs(groups).contains(key) <==> (exists|g: CashflowCategoryGroup| #[trigger]
            pair_key(g.category_id@) == key && groups.contains(g)),
{
    let s = group_pairs(groups);
    if s.contains(key) {
        let i = choose|i: int| 0 <= i < s.len() && s[i] == key;
        assert(pair_key(groups[i].category_id@) == key && groups.contains(groups[i]));
    }
    if exists|g: CashflowCategoryGroup| #[trigger]
        pair_key(g.category_id@) == key && groups.contains(g) {
        let g = choose|g: CashflowCategoryGroup| #[trigger]
            pair_key(g.category_id@) == key && groups.contains(g);
        let i = choose|i: int| 0 <= i < groups.len() && groups[i] == g;
        assert(s[i] == key);
    }
}

/// The families of a month are those of its subcategories, each with the subcategories that
/// belong to it.
pub proof fn law_every_family_is_shown(flow: Flow, f: FamilyContent)
    ensures
        flow_families(flow).contains(f) <==> (exists|s: SubContent|
            #![trigger flow_subs(flow).contains(s)]
            flow_subs(flow).contains(s) && f == family_content(flow_subs(flow), s.family)),
{
    let subs = flow_subs(flow);
    let names = sub_families(subs);
    let list = sorted_keys(names).map_values(|n: Seq<char>| family_content(subs, n));
    lemma_sorted_by_keeps(list, family_le());
    lemma_same_elements(flow_families(flow), list);
    law_sorted_keys(names);
    if list.contains(f) {
        let i = choose|i: int| 0 <= i < list.len() && list[i] == f;
        let n = sorted_keys(names)[i];
        assert(sorted_keys(names).contains(n));
        let k = choose|k: int| 0 <= k < names.len() && names[k] == n;
        assert(subs.contains(subs[k]));
    }
    if exists|s: SubContent|
        #![trigger flow_subs(flow).contains(s)]
        flow_subs(flow).contains(s) && f == family_content(flow_subs(flow), s.family) {
        let s = choose|s: SubContent|
            #![trigger flow_subs(flow).contains(s)]
            flow_subs(flow).contains(s) && f == family_content(flow_subs(flow), s.family);
        let k = choose|k: int| 0 <= k < subs.len() && subs[k] == s;
        assert(names[k] == s.family);
        assert(names.contains(s.family));
        assert(sorted_keys(names).contains(s.family));
        let i = choose|i: int|
            0 <= i < sorted_keys(names).len() && sorted_keys(names)[i] == s.family;
        assert(list[i] == f);
    }
}

/// The family that comes to more, whether it came or went, stands first; of two that come
/// to the same the first by name.
pub proof fn law_largest_family_first(flow: Flow, i: int, j: int)
    requires
        0 <= i < j < flow_families(flow).len(),
    ensures
        ({
            let (a, b) = (flow_families(flow)[i], flow_families(flow)[j]);
            &&& abs(a.total.scaled()) >= abs(b.total.scaled())
            &&& abs(a.total.scaled()) == abs(b.total.scaled()) ==> !precedes(b.family, a.family)
        }),
{
    let subs = flow_subs(flow);
    let list = sorted_keys(sub_families(subs)).map_values(
        |f: Seq<char>| family_content(subs, f),
    );
    lemma_families_rank();
    lemma_sorted_by_orders(list, family_le());
    assert(family_le()(flow_families(flow)[i], flow_families(flow)[j]));
}

proof fn lemma_families_rank()
    ensures
        ranks(family_le()),
{
    let le = family_le();
    assert forall|a: FamilyContent, b: FamilyContent| #![trigger le(a, b)] le(a, b) || le(b, a) by {
        lemma_name_order_total(
            abs(a.total.scaled()),
            a.family,
            abs(b.total.scaled()),
            b.family,
        );
    }
    assert forall|a: FamilyContent, b: FamilyContent, c: FamilyContent|
        #![trigger le(a, b), le(b, c)]
        le(a, b) && le(b, c) implies le(a, c) by {
        lemma_name_order_transitive(
            abs(a.total.scaled()),
            a.family,
            abs(b.total.scaled()),
            b.family,
            abs(c.total.scaled()),
            c.family,
        );
    }
}

/// Within a family the subcategory that comes to more stands first; of two that come to the
/// same the first by name.
pub proof fn law_largest_subcategory_first(
    subs: Seq<SubContent>,
    family: Seq<char>,
    i: int,
    j: int,
)
    requires
        0 <= i < j < family_content(subs, family).subcategories.len(),
    ensures
        ({
            let own = family_content(subs, family).subcategories;
            &&& abs(own[i].total.scaled()) >= abs(own[j].total.scaled())
            &&& abs(own[i].total.scaled()) == abs(own[j].total.scaled()) ==> !precedes(
                own[j].subcategory,
                own[i].subcategory,
            )
        }),
{
    let le = sub_le();
    assert forall|a: SubContent, b: SubContent| #![trigger le(a, b)] le(a, b) || le(b, a) by {
        lemma_name_order_total(
            abs(a.total.scaled()),
            a.subcategory,
            abs(b.total.scaled()),
            b.subcategory,
        );
    }
    assert forall|a: SubContent, b: SubContent, c: SubContent|
        #![trigger le(a, b), le(b, c)]
        le(a, b) && le(b, c) implies le(a, c) by {
        lemma_name_order_transitive(
            abs(a.total.scaled()),
            a.subcategory,
            abs(b.total.scaled()),
            b.subcategory,
            abs(c.total.scaled()),
            c.subcategory,
        );
    }
    lemma_sorted_by_orders(of_family(subs, family), le);
    let own = family_content(subs, family).subcategories;
    assert(le(own[i], own[j]));
}

/// The transactions of a subcategory are those of the groups that belong to it.
pub proof fn law_transactions_counted(groups: Seq<CashflowCategoryGroup>, key: Seq<char>)
    ensures
        counted(group_pairs(groups), group_counts(groups), key, groups.len() as int) == sum_by(
            groups,
            |g: CashflowCategoryGroup| if pair_key(g.category_id@) == key {
                g.transactions as int
            } else {
                0
            },
        ),
{
    lemma_counted(groups, key, groups.len() as int);
    assert(groups.take(groups.len() as int) =~= groups);
}

proof fn lemma_counted(groups: Seq<CashflowCategoryGroup>, key: Seq<char>, n: int)
    requires
        0 <= n <= groups.len(),
    ensures
        counted(group_pairs(groups), group_counts(groups), key, n) == sum_by(
            groups.take(n),
            |g: CashflowCategoryGroup| if pair_key(g.category_id@) == key {
                g.transactions as int
            } else {
                0
            },
        ),
    decreases n,
{
    if n > 0 {
        lemma_counted(groups, key, n - 1);
        assert(groups.take(n).drop_last() =~= groups.take(n - 1));
    }
}

// ---------------------------------------------------------------------------
// Bills

/// What the lines of a group come to; nothing where it has no transactions.
pub open spec fn lines_come_to(group: CashflowCategoryGroup) -> int {
    if group.transactions == 0 {
        0
    } else {
        sum_by(group.items@, |i: CashflowDetailItem| i.amount.scaled())
    }
}

/// What a bill adds to the expenses comes to its installments and subscriptions, line by
/// line, and to the totals of its other categories.
pub proof fn law_bill_shares_add_up(bill: CashflowCardBillDetail)
    ensures
        shares_come_to(bill_shares(bill)) == lines_come_to(bill.installments) + lines_come_to(
            bill.subscriptions,
        ) + sum_by(bill.other_categories@, |g: CashflowCategoryGroup| g.subtotal.scaled()),
{
    let (a, b, c) = (
        listed_shares(bill.installments),
        listed_shares(bill.subscriptions),
        total_shares(bill.other_categories@),
    );
    lemma_shares_together(a, b);
    lemma_shares_together(a + b, c);
    if bill.installments.transactions > 0 {
        lemma_listed(bill.installments, bill.installments.items@.len() as int);
    }
    if bill.subscriptions.transactions > 0 {
        lemma_listed(bill.subscriptions, bill.subscriptions.items@.len() as int);
    }
    lemma_totals(bill.other_categories@);
    assert(a.take(a.len() as int) =~= a);
    assert(b.take(b.len() as int) =~= b);
    let (x, y) = (bill.installments.items@, bill.subscriptions.items@);
    assert(x.take(x.len() as int) =~= x);
    assert(y.take(y.len() as int) =~= y);
}

/// What shares come to.
pub open spec fn shares_come_to(shares: Seq<(Seq<char>, GroupContent)>) -> int {
    sum_by(shares, |s: (Seq<char>, GroupContent)| s.1.subtotal.scaled())
}

proof fn lemma_shares_together(
    a: Seq<(Seq<char>, GroupContent)>,
    b: Seq<(Seq<char>, GroupContent)>,
)
    ensures
        shares_come_to(a + b) == shares_come_to(a) + shares_come_to(b),
    decreases b.len(),
{
    if b.len() == 0 {
        assert(a + b =~= a);
    } else {
        lemma_shares_together(a, b.drop_last());
        assert((a + b).drop_last() =~= a + b.drop_last());
    }
}

proof fn lemma_listed(group: CashflowCategoryGroup, n: int)
    requires
        group.transactions > 0,
        0 <= n <= group.items@.len(),
    ensures
        shares_come_to(listed_shares(group).take(n)) == sum_by(
            group.items@.take(n),
            |i: CashflowDetailItem| i.amount.scaled(),
        ),
    decreases n,
{
    if n > 0 {
        lemma_listed(group, n - 1);
        assert(listed_shares(group).take(n).drop_last() =~= listed_shares(group).take(n - 1));
        assert(group.items@.take(n).drop_last() =~= group.items@.take(n - 1));
    }
}

proof fn lemma_totals(groups: Seq<CashflowCategoryGroup>)
    ensures
        shares_come_to(total_shares(groups)) == sum_by(
            groups,
            |g: CashflowCategoryGroup| g.subtotal.scaled(),
        ),
    decreases groups.len(),
{
    if groups.len() > 0 {
        lemma_totals(groups.drop_last());
        assert(total_shares(groups).drop_last() =~= total_shares(groups.drop_last()));
    }
}

/// What several bills add is what each of them adds.
pub proof fn law_shares_of_all_bills(bills: Seq<CashflowCardBillDetail>)
    ensures
        shares_come_to(shares_of(bills)) == sum_by(
            bills,
            |b: CashflowCardBillDetail| shares_come_to(bill_shares(b)),
        ),
    decreases bills.len(),
{
    if bills.len() > 0 {
        law_shares_of_all_bills(bills.drop_last());
        lemma_shares_together(shares_of(bills.drop_last()), bill_shares(bills.last()));
    }
}

/// The installments of a summary are those of its bills, as amounts without a sign.
pub proof fn law_installments_of_bills(bills: Seq<CashflowCardBillDetail>)
    requires
        forall|i: int|
            0 <= i < bills.len() ==> (#[trigger] bills[i]).installments.subtotal.in_range(),
    ensures
        installment_count(bills) == sum_by(
            bills,
            |b: CashflowCardBillDetail| b.installments.transactions as int,
        ),
        exact_sum(installment_totals(bills)) == sum_by(
            bills,
            |b: CashflowCardBillDetail| abs(b.installments.subtotal.scaled()),
        ),
    decreases bills.len(),
{
    if bills.len() > 0 {
        let t = bills.drop_last();
        assert forall|i: int| 0 <= i < t.len() implies (
        #[trigger] t[i]).installments.subtotal.in_range() by {
            assert(t[i] == bills[i]);
        }
        law_installments_of_bills(t);
        assert(installment_totals(bills).drop_last() =~= installment_totals(t));
        assert(bills[bills.len() - 1] == bills.last());
        lemma_magnitude(bills.last().installments.subtotal);
    }
}

} // verus!
