//! Sums by key, and what is largest first.

use crate::amount::{abs, from_signed, limit, max_units, one, quotient, sum_of, times, Amount};
use crate::order::{
    as_ints, distinct, find_positions, lemma_positions, positions, sort, sorted, sorted_keys, Ranked,
};
use crate::sums::{
    full_weight, grouped_weight, lemma_ascending_weight, lemma_grouped_weight, lemma_whole, picked,
    total_at,
};
use crate::text::texts;
use vstd::prelude::*;

verus! {

/// A place in a list, with the amount that it is ordered by: the largest comes first.
#[derive(Clone, Copy)]
pub struct Placed {
    pub at: usize,
    pub amount: Amount,
}

impl Ranked for Placed {
    open spec fn le(a: Self, b: Self) -> bool {
        b.amount.scaled() <= a.amount.scaled()
    }

    proof fn le_total(a: Self, b: Self) {
    }

    proof fn le_transitive(a: Self, b: Self, c: Self) {
    }

    fn may_precede(&self, other: &Self) -> (r: bool) {
        !self.amount.is_less(&other.amount)
    }
}

/// The given places of a list with their amounts.
pub open spec fn placed(amounts: Seq<Amount>, at: Seq<int>) -> Seq<Placed> {
    at.map_values(|i: int| Placed { at: i as usize, amount: amounts[i] })
}

/// All the places of a list, the largest amounts first.
pub open spec fn ranked(amounts: Seq<Amount>) -> Seq<Placed> {
    sorted(placed(amounts, Seq::new(amounts.len(), |i: int| i)))
}

/// The given places of a list, the largest amounts first.
pub open spec fn ranked_at(amounts: Seq<Amount>, at: Seq<int>) -> Seq<Placed> {
    sorted(placed(amounts, at))
}

/// The given places of a list, the largest amounts first.
pub fn rank_at(amounts: &Vec<Amount>, at: &Vec<usize>) -> (r: Vec<Placed>)
    requires
        forall|k: int| 0 <= k < at@.len() ==> (#[trigger] at@[k]) < amounts@.len(),
    ensures
        r@ == ranked_at(amounts@, as_ints(at@)),
        r@.len() == at@.len(),
        forall|k: int| 0 <= k < r@.len() ==> (#[trigger] r@[k]).at < amounts@.len(),
{
    let ghost want = placed(amounts@, as_ints(at@));
    let mut list: Vec<Placed> = Vec::new();
    let mut k: usize = 0;
    while k < at.len()
        invariant
            k <= at.len(),
            forall|j: int| 0 <= j < at@.len() ==> (#[trigger] at@[j]) < amounts@.len(),
            want == placed(amounts@, as_ints(at@)),
            list@ == want.take(k as int),
            forall|j: int| 0 <= j < list@.len() ==> (#[trigger] list@[j]).at < amounts@.len(),
        decreases at.len() - k,
    {
        assert(as_ints(at@)[k as int] == at@[k as int]);
        list.push(Placed { at: at[k], amount: amounts[at[k]] });
        k = k + 1;
        assert(list@ =~= want.take(k as int));
    }
    assert(list@ =~= want);
    let ghost before = list@;
    let out = sort(list);
    proof {
        crate::order::lemma_same_elements(before, out@);
        assert forall|j: int| 0 <= j < out@.len() implies (#[trigger] out@[j]).at
            < amounts@.len() by {
            assert(out@.contains(out@[j]));
            let i = choose|i: int| 0 <= i < before.len() && before[i] == out@[j];
            assert(before[i].at < amounts@.len());
        }
    }
    out
}

/// All the places of a list, the largest amounts first.
pub fn rank(amounts: &Vec<Amount>) -> (r: Vec<Placed>)
    ensures
        r@ == ranked(amounts@),
        r@.len() == amounts@.len(),
        forall|k: int| 0 <= k < r@.len() ==> (#[trigger] r@[k]).at < amounts@.len(),
{
    let mut at: Vec<usize> = Vec::new();
    let mut i: usize = 0;
    while i < amounts.len()
        invariant
            i <= amounts.len(),
            at@.len() == i,
            forall|j: int| 0 <= j < at@.len() ==> (#[trigger] at@[j]) == j,
        decreases amounts.len() - i,
    {
        at.push(i);
        i = i + 1;
    }
    assert(as_ints(at@) =~= Seq::new(amounts@.len(), |i: int| i));
    rank_at(amounts, &at)
}

/// The sum for each key, in the order of the keys.
pub open spec fn totals_by(keys: Seq<Seq<char>>, amounts: Seq<Amount>) -> Seq<Amount> {
    sorted_keys(keys).map_values(|k: Seq<char>| sum_of(picked(amounts, positions(keys, k))))
}

/// The keys in order, and the sum for each.
pub fn total_by_key(keys: &Vec<String>, amounts: &Vec<Amount>) -> (r: (Vec<String>, Vec<Amount>))
    requires
        keys@.len() == amounts@.len(),
        full_weight(amounts@) <= limit(),
    ensures
        texts(r.0@) == sorted_keys(texts(keys@)),
        r.1@ == totals_by(texts(keys@), amounts@),
        r.0@.len() == r.1@.len(),
        r.0@.len() <= keys@.len(),
        forall|k: int|
            0 <= k < r.1@.len() ==> abs((#[trigger] r.1@[k]).scaled()) <= full_weight(amounts@),
        full_weight(r.1@) <= full_weight(amounts@) + r.1@.len() * one(),
{
    let names = distinct(keys);
    let ghost all = texts(keys@);
    let ghost list = texts(names@);
    let ghost want = totals_by(all, amounts@);
    let mut totals: Vec<Amount> = Vec::new();
    let mut k: usize = 0;
    proof {
        crate::order::lemma_few_keys(all);
        assert(list.len() == names@.len());
        assert(all.len() == keys@.len());
    }
    while k < names.len()
        invariant
            k <= names.len(),
            all == texts(keys@),
            all.len() == amounts@.len(),
            full_weight(amounts@) <= limit(),
            list == texts(names@),
            list == sorted_keys(all),
            list.len() == names@.len(),
            want == totals_by(all, amounts@),
            totals@ == want.take(k as int),
            forall|j: int|
                0 <= j < totals@.len() ==> abs((#[trigger] totals@[j]).scaled()) <= full_weight(
                    amounts@,
                ),
            full_weight(totals@) <= grouped_weight(amounts@, all, list.take(k as int)) + k * one(),
        decreases names.len() - k,
    {
        assert(list[k as int] == names@[k as int]@);
        let at = find_positions(keys, names[k].as_str());
        proof {
            lemma_positions(all, names@[k as int]@);
            lemma_ascending_weight(amounts@, as_ints(at@));
            assert(list.take(k + 1).drop_last() =~= list.take(k as int));
            assert((k + 1) * one() == k * one() + one()) by (nonlinear_arith);
        }
        let ghost before = totals@;
        totals.push(total_at(amounts, &at));
        assert(totals@.drop_last() =~= before);
        k = k + 1;
        assert(totals@ =~= want.take(k as int));
    }
    assert(totals@ =~= want);
    proof {
        assert(list.take(k as int) =~= list);
        crate::order::law_sorted_keys(all);
        crate::order::lemma_ascending_differ(list);
        lemma_grouped_weight(amounts@, all, list);
    }
    (names, totals)
}

/// Whether one amount can be told in percent of another.
pub open spec fn share_fits(part: Amount, whole: Amount) -> bool {
    100 * (abs(part.scaled()) + abs(whole.scaled())) <= (max_units() - 1) * abs(whole.scaled())
}

/// One amount in percent of another.
pub open spec fn share_of(part: Amount, whole: Amount) -> Amount {
    times(quotient(part, whole), from_signed(100, 0))
}

/// One amount in percent of another.
pub fn find_share(part: &Amount, whole: &Amount) -> (r: Amount)
    requires
        whole.units() != 0,
        share_fits(*part, *whole),
    ensures
        r == share_of(*part, *whole),
{
    proof {
        let b = abs(whole.scaled());
        let o = abs(part.scaled());
        assert(o <= (max_units() - 1) * b) by (nonlinear_arith)
            requires
                100 * (o + b) <= (max_units() - 1) * b,
                o >= 0,
                b >= 0,
        ;
    }
    whole.known();
    let share = part.divided(whole);
    let hundred = Amount::new(100, 0);
    proof {
        lemma_whole(100);
        crate::amount::lemma_one();
        let q = abs(share.scaled());
        let b = abs(whole.scaled());
        let o = abs(part.scaled());
        if b == 0 {
            crate::amount::lemma_zero_scaled(*whole);
        }
        assert(100 * q <= max_units() * one()) by (nonlinear_arith)
            requires
                q * b <= (o + b) * one(),
                100 * (o + b) <= (max_units() - 1) * b,
                b > 0,
                one() > 0,
                o >= 0,
        ;
        assert(q * (100 * one()) <= limit() * one()) by (nonlinear_arith)
            requires
                100 * q <= limit(),
                one() >= 0,
        ;
    }
    share.multiplied(&hundred)
}

/// The largest comes first: an amount is never behind a smaller one.
pub proof fn law_largest_first(amounts: Seq<Amount>, i: int, j: int)
    requires
        0 <= i <= j < ranked(amounts).len(),
    ensures
        ranked(amounts)[i].amount.scaled() >= ranked(amounts)[j].amount.scaled(),
{
    crate::order::law_sorted(placed(amounts, Seq::new(amounts.len(), |i: int| i)));
}

} // verus!
