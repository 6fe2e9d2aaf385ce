//! Sums over parts of a list of amounts, and why they stay within range.

use crate::amount::{
    abs, exact_sum, from_signed, limit, max_units, one, quotient, sum_of, sums_fit, times,
    total, Amount,
};
use crate::order::{as_ints, lemma_positions, lemma_where_at, positions, where_at};
use vstd::prelude::*;

verus! {

/// The amounts at the given positions.
pub open spec fn picked(s: Seq<Amount>, at: Seq<int>) -> Seq<Amount> {
    at.map_values(|i: int| s[i])
}

/// The size of the amounts that the predicate keeps, with one to spare for each.
pub open spec fn weight(s: Seq<Amount>, keep: spec_fn(int) -> bool) -> int
    decreases s.len(),
{
    if s.len() == 0 {
        0
    } else {
        weight(s.drop_last(), keep) + (if keep(s.len() - 1) {
            abs(s.last().scaled()) + one()
        } else {
            0
        })
    }
}

/// The size of all the amounts.
pub open spec fn full_weight(s: Seq<Amount>) -> int {
    weight(s, |i: int| true)
}

/// Whether twice the size of the amounts is within the range of amounts, so that no
/// sum of some of them can leave it.
pub open spec fn modest(s: Seq<Amount>) -> bool {
    2 * full_weight(s) <= limit()
}

pub proof fn lemma_weight_mono(
    s: Seq<Amount>,
    a: spec_fn(int) -> bool,
    b: spec_fn(int) -> bool,
)
    requires
        forall|i: int| 0 <= i < s.len() && #[trigger] a(i) ==> b(i),
    ensures
        0 <= weight(s, a) <= weight(s, b),
    decreases s.len(),
{
    if s.len() > 0 {
        lemma_weight_mono(s.drop_last(), a, b);
    }
}

pub proof fn lemma_weight_disjoint(
    s: Seq<Amount>,
    a: spec_fn(int) -> bool,
    b: spec_fn(int) -> bool,
    c: spec_fn(int) -> bool,
)
    requires
        forall|i: int| 0 <= i < s.len() ==> !(#[trigger] a(i) && b(i)),
        forall|i: int| 0 <= i < s.len() ==> #[trigger] c(i) == (a(i) || b(i)),
    ensures
        weight(s, a) + weight(s, b) == weight(s, c),
    decreases s.len(),
{
    if s.len() > 0 {
        assert(c(s.len() - 1) == (a(s.len() - 1) || b(s.len() - 1)));
        lemma_weight_disjoint(s.drop_last(), a, b, c);
    }
}

pub proof fn lemma_weight_take(s: Seq<Amount>, k: int)
    requires
        0 <= k <= s.len(),
    ensures
        0 <= full_weight(s.take(k)) <= full_weight(s),
    decreases s.len() - k,
{
    let t = |i: int| true;
    if k == s.len() {
        assert(s.take(k) =~= s);
        lemma_weight_mono(s, t, t);
    } else {
        lemma_weight_take(s, k + 1);
        assert(s.take(k + 1).drop_last() =~= s.take(k));
        lemma_weight_mono(s.take(k), t, t);
    }
}

/// The exact sum is no larger than the size.
pub proof fn lemma_exact_sum_bound(s: Seq<Amount>)
    ensures
        abs(exact_sum(s)) + s.len() * one() <= full_weight(s),
    decreases s.len(),
{
    if s.len() > 0 {
        lemma_exact_sum_bound(s.drop_last());
        assert(s.len() * one() == (s.len() - 1) * one() + one()) by (nonlinear_arith);
    }
}

/// Amounts whose size is within range can be summed.
pub proof fn lemma_sums_fit(s: Seq<Amount>)
    requires
        full_weight(s) <= limit(),
    ensures
        sums_fit(s),
{
    assert forall|k: int| 0 <= k <= s.len() implies abs(#[trigger] exact_sum(s.take(k))) + k
        * one() <= limit() by {
        lemma_exact_sum_bound(s.take(k));
        lemma_weight_take(s, k);
    }
}

/// The size of what a key picks is the weight of its positions.
pub proof fn lemma_picked_weight(s: Seq<Amount>, keys: Seq<Seq<char>>, key: Seq<char>)
    requires
        s.len() == keys.len(),
    ensures
        full_weight(picked(s, positions(keys, key))) == weight(s, |i: int| keys[i] == key),
    decreases s.len(),
{
    let f = |i: int| keys[i] == key;
    if s.len() > 0 {
        let s1 = s.drop_last();
        let k1 = keys.drop_last();
        lemma_picked_weight(s1, k1, key);
        lemma_positions(k1, key);
        let g = |i: int| k1[i] == key;
        lemma_weight_same(s1, f, g);
        let before = positions(k1, key);
        if keys.last() == key {
            assert(picked(s, positions(keys, key)).drop_last() =~= picked(s1, before)) by {
                assert forall|i: int| 0 <= i < before.len() implies picked(
                    s,
                    positions(keys, key),
                )[i] == picked(s1, before)[i] by {
                    assert(s[before[i]] == s1[before[i]]);
                }
            }
        } else {
            assert(picked(s, before) =~= picked(s1, before)) by {
                assert forall|i: int| 0 <= i < before.len() implies picked(s, before)[i]
                    == picked(s1, before)[i] by {
                    assert(s[before[i]] == s1[before[i]]);
                }
            }
        }
    } else {
        assert(picked(s, positions(keys, key)) =~= Seq::<Amount>::empty());
    }
}

/// The size of what the names pick, name by name.
pub open spec fn grouped_weight(s: Seq<Amount>, keys: Seq<Seq<char>>, names: Seq<Seq<char>>) -> int
    decreases names.len(),
{
    if names.len() == 0 {
        0
    } else {
        grouped_weight(s, keys, names.drop_last()) + full_weight(
            picked(s, positions(keys, names.last())),
        )
    }
}

/// Different names pick no more than there is.
pub proof fn lemma_grouped_weight(s: Seq<Amount>, keys: Seq<Seq<char>>, names: Seq<Seq<char>>)
    requires
        s.len() == keys.len(),
        names.no_duplicates(),
    ensures
        0 <= grouped_weight(s, keys, names) <= full_weight(s),
{
    let f = |i: int| names.contains(keys[i]);
    let all = |i: int| true;
    lemma_named_weight(s, keys, names);
    lemma_weight_mono(s, f, all);
}

proof fn lemma_named_weight(s: Seq<Amount>, keys: Seq<Seq<char>>, names: Seq<Seq<char>>)
    requires
        s.len() == keys.len(),
        names.no_duplicates(),
    ensures
        grouped_weight(s, keys, names) == weight(s, |i: int| names.contains(keys[i])),
    decreases names.len(),
{
    let f = |i: int| names.contains(keys[i]);
    if names.len() == 0 {
        lemma_weight_none(s, f);
    } else {
        let before = names.drop_last();
        let last = names.last();
        let g = |i: int| before.contains(keys[i]);
        let h = |i: int| keys[i] == last;
        lemma_named_weight(s, keys, before);
        lemma_picked_weight(s, keys, last);
        assert(!before.contains(last)) by {
            if before.contains(last) {
                let j = choose|j: int| 0 <= j < before.len() && before[j] == last;
                assert(names[j] == names[names.len() - 1]);
            }
        }
        assert forall|i: int| 0 <= i < s.len() implies #[trigger] f(i) == (g(i) || h(i)) by {
            if f(i) && !h(i) {
                let j = choose|j: int| 0 <= j < names.len() && names[j] == keys[i];
                assert(before[j] == keys[i]);
            }
            if g(i) {
                let j = choose|j: int| 0 <= j < before.len() && before[j] == keys[i];
                assert(names[j] == keys[i]);
            }
            if h(i) {
                assert(names[names.len() - 1] == keys[i]);
            }
        }
        lemma_weight_disjoint(s, g, h, f);
    }
}

proof fn lemma_weight_none(s: Seq<Amount>, f: spec_fn(int) -> bool)
    requires
        forall|i: int| 0 <= i < s.len() ==> !#[trigger] f(i),
    ensures
        weight(s, f) == 0,
    decreases s.len(),
{
    if s.len() > 0 {
        assert(!f(s.len() - 1));
        lemma_weight_none(s.drop_last(), f);
    }
}

/// An amount taken out leaves the rest.
pub proof fn lemma_weight_removed(s: Seq<Amount>, j: int)
    requires
        0 <= j < s.len(),
    ensures
        full_weight(s) == full_weight(s.remove(j)) + abs(s[j].scaled()) + one(),
    decreases s.len(),
{
    if j == s.len() - 1 {
        assert(s.remove(j) =~= s.drop_last());
    } else {
        lemma_weight_removed(s.drop_last(), j);
        assert(s.remove(j).drop_last() =~= s.drop_last().remove(j));
    }
}

pub proof fn lemma_weight_same(
    s: Seq<Amount>,
    a: spec_fn(int) -> bool,
    b: spec_fn(int) -> bool,
)
    requires
        forall|i: int| 0 <= i < s.len() ==> #[trigger] a(i) == b(i),
    ensures
        weight(s, a) == weight(s, b),
    decreases s.len(),
{
    if s.len() > 0 {
        assert(a(s.len() - 1) == b(s.len() - 1));
        lemma_weight_same(s.drop_last(), a, b);
    }
}

/// The size of what a predicate picks is the weight of its positions.
pub proof fn lemma_where_weight(s: Seq<Amount>, n: int, f: spec_fn(int) -> bool)
    requires
        0 <= n <= s.len(),
    ensures
        full_weight(picked(s, where_at(n, f))) == weight(s.take(n), f),
    decreases n,
{
    let w = where_at(n, f);
    if n == 0 {
        assert(picked(s, w) =~= Seq::<Amount>::empty());
        assert(s.take(0) =~= Seq::<Amount>::empty());
    } else {
        lemma_where_weight(s, n - 1, f);
        assert(s.take(n).drop_last() =~= s.take(n - 1));
        if f(n - 1) {
            assert(picked(s, w).drop_last() =~= picked(s, where_at(n - 1, f)));
        }
    }
}

/// Positions that a predicate keeps ascend.
pub proof fn lemma_where_ascending(n: int, f: spec_fn(int) -> bool)
    requires
        n >= 0,
    ensures
        ascending(where_at(n, f), n),
{
    lemma_where_at(n, f);
}

/// Whether the positions ascend strictly and stand in a list of that length.
pub open spec fn ascending(at: Seq<int>, n: int) -> bool {
    &&& forall|i: int| 0 <= i < at.len() ==> 0 <= #[trigger] at[i] < n
    &&& forall|i: int, j: int| 0 <= i < j < at.len() ==> at[i] < at[j]
}

/// What ascending positions pick is no larger than the whole.
pub proof fn lemma_ascending_weight(s: Seq<Amount>, at: Seq<int>)
    requires
        ascending(at, s.len() as int),
    ensures
        0 <= full_weight(picked(s, at)) <= full_weight(s),
    decreases s.len(),
{
    let t = |i: int| true;
    lemma_weight_mono(s, t, t);
    if s.len() == 0 {
        if at.len() > 0 {
            assert(0 <= at[0] < s.len());
        }
        assert(picked(s, at) =~= Seq::<Amount>::empty());
    } else {
        let s1 = s.drop_last();
        if at.len() > 0 && at.last() == s.len() - 1 {
            let at1 = at.drop_last();
            assert forall|i: int| 0 <= i < at1.len() implies 0 <= #[trigger] at1[i] < s1.len() by {
                assert(at[i] < at[at.len() - 1]);
            }
            lemma_ascending_weight(s1, at1);
            assert(picked(s, at).drop_last() =~= picked(s1, at1)) by {
                assert forall|i: int| 0 <= i < at1.len() implies picked(s, at)[i] == picked(
                    s1,
                    at1,
                )[i] by {
                    assert(0 <= at1[i] < s1.len());
                }
            }
        } else {
            assert forall|i: int| 0 <= i < at.len() implies 0 <= #[trigger] at[i] < s1.len() by {
                if at[i] == s.len() - 1 {
                    if i < at.len() - 1 {
                        assert(at[i] < at[at.len() - 1]);
                    }
                }
            }
            lemma_ascending_weight(s1, at);
            assert(picked(s, at) =~= picked(s1, at)) by {
                assert forall|i: int| 0 <= i < at.len() implies picked(s, at)[i] == picked(
                    s1,
                    at,
                )[i] by {
                    assert(0 <= at[i] < s1.len());
                }
            }
        }
    }
}

/// The sum of the amounts at the given positions.
pub fn total_at(v: &Vec<Amount>, at: &Vec<usize>) -> (r: Amount)
    requires
        ascending(as_ints(at@), v@.len() as int),
        full_weight(v@) <= limit(),
    ensures
        r == sum_of(picked(v@, as_ints(at@))),
        abs(r.scaled()) <= full_weight(picked(v@, as_ints(at@))),
{
    let mut part: Vec<Amount> = Vec::new();
    let ghost ints = as_ints(at@);
    let mut i: usize = 0;
    while i < at.len()
        invariant
            i <= at.len(),
            ints == as_ints(at@),
            ascending(ints, v@.len() as int),
            part@ == picked(v@, ints).take(i as int),
        decreases at.len() - i,
    {
        assert(ints[i as int] == at@[i as int]);
        part.push(v[at[i]]);
        i = i + 1;
        assert(part@ =~= picked(v@, ints).take(i as int));
    }
    assert(part@ =~= picked(v@, ints));
    proof {
        lemma_ascending_weight(v@, ints);
        lemma_sums_fit(part@);
        lemma_exact_sum_bound(part@);
    }
    total(&part)
}

/// The sum of all the amounts.
pub fn total_of_all(v: &Vec<Amount>) -> (r: Amount)
    requires
        full_weight(v@) <= limit(),
    ensures
        r == sum_of(v@),
        abs(r.scaled()) <= full_weight(v@),
{
    proof {
        lemma_sums_fit(v@);
        lemma_exact_sum_bound(v@);
    }
    total(v)
}

/// A whole number as an amount, counted in the smallest step.
pub proof fn lemma_whole(n: int)
    requires
        abs(n) <= max_units(),
    ensures
        from_signed(n, 0).scaled() == n * one(),
        from_signed(n, 0).units() == abs(n),
{
    broadcast use crate::amount::lemma_made;

    crate::amount::lemma_one();
}

/// The sum divided by how many there are.
pub open spec fn mean_of(s: Seq<Amount>) -> Amount {
    quotient(sum_of(s), from_signed(s.len() as int, 0))
}

/// The mean of the amounts.
pub fn mean(v: &Vec<Amount>) -> (r: Amount)
    requires
        0 < v@.len() <= i64::MAX,
        modest(v@),
    ensures
        r == mean_of(v@),
        abs(r.scaled()) <= full_weight(v@) + one(),
        abs(v@.len() * r.scaled() - sum_of(v@).scaled()) <= v@.len() * one(),
{
    let sum = total_of_all(v);
    let n: i64 = v.len() as i64;
    let count = Amount::new(n, 0);
    proof {
        lemma_whole(n as int);
        let w = full_weight(v@);
        let c = n * one();
        assert(c >= one()) by (nonlinear_arith)
            requires
                n >= 1,
                c == n * one(),
                one() > 0,
        ;
        assert(abs(sum.scaled()) <= (max_units() - 1) * c) by (nonlinear_arith)
            requires
                abs(sum.scaled()) <= w,
                2 * w <= max_units() * one(),
                c >= one(),
                max_units() >= 4,
                one() > 0,
        ;
    }
    let r = sum.divided(&count);
    proof {
        let c = n * one();
        let x = abs(r.scaled());
        let a = abs(sum.scaled());
        assert(x <= a + one()) by (nonlinear_arith)
            requires
                x * c <= (a + c) * one(),
                c >= one(),
                one() > 0,
                x >= 0,
                a >= 0,
        ;
        assert(abs(c) == c);
        lemma_share_near(sum.scaled(), r.scaled(), n as int);
    }
    r
}

/// An amount without a sign, or a zero, is not below zero; one with units and a sign is.
proof fn lemma_not_below(a: Amount, r: Amount)
    requires
        a.in_range(),
        r.in_range(),
        r.sign() ==> a.sign(),
        a.units() == 0 ==> r.units() == 0,
    ensures
        a.scaled() >= 0 ==> r.scaled() >= 0,
{
    let p = crate::amount::pow10((28 - a.places()) as nat);
    let q = crate::amount::pow10((28 - r.places()) as nat);
    crate::amount::lemma_pow10((28 - a.places()) as nat);
    crate::amount::lemma_pow10((28 - r.places()) as nat);
    if a.units() != 0 && a.sign() {
        assert(a.signed() * p < 0) by (nonlinear_arith)
            requires
                a.signed() < 0,
                p > 0,
        ;
    } else {
        assert(r.signed() * q >= 0) by (nonlinear_arith)
            requires
                r.signed() >= 0,
                q > 0,
        ;
    }
}

/// An amount taken `n` times.
pub fn scaled_by(a: &Amount, n: u32) -> (r: Amount)
    requires
        n * abs(a.scaled()) <= limit(),
    ensures
        r == times(*a, from_signed(n as int, 0)),
        abs(r.scaled()) <= n * abs(a.scaled()) + one(),
        abs(r.scaled() - n * a.scaled()) <= one(),
        a.scaled() >= 0 ==> r.scaled() >= 0,
{
    let k = Amount::new(n as i64, 0);
    proof {
        lemma_whole(n as int);
        let x = abs(a.scaled());
        assert(abs(n * one()) == n * one());
        assert(x * (n * one()) == (n * x) * one()) by (nonlinear_arith);
        assert((n * x) * one() <= limit() * one()) by (nonlinear_arith)
            requires
                n * x <= limit(),
                one() >= 0,
        ;
    }
    let r = a.multiplied(&k);
    a.known();
    r.known();
    proof {
        broadcast use crate::amount::lemma_made;

        lemma_not_below(*a, r);
        let x = abs(a.scaled());
        let y = abs(r.scaled());
        assert(y <= n * x + one()) by (nonlinear_arith)
            requires
                y * one() <= (n * x) * one() + one() * one(),
                one() > 0,
        ;
        lemma_multiple_near(a.scaled(), r.scaled(), n as int);
    }
    r
}

/// A product by a whole number, freed of the common factor.
proof fn lemma_multiple_near(a: int, r: int, n: int)
    requires
        abs(r * one() - a * (n * one())) <= one() * one(),
    ensures
        abs(r - n * a) <= one(),
{
    let d = r - n * a;
    assert(r * one() - a * (n * one()) == d * one()) by (nonlinear_arith)
        requires
            d == r - n * a,
    ;
    assert(-one() <= d <= one()) by (nonlinear_arith)
        requires
            -(one() * one()) <= d * one() <= one() * one(),
            one() > 0,
    ;
}

/// A quotient by a whole number, freed of the common factor.
proof fn lemma_share_near(a: int, r: int, n: int)
    requires
        n >= 1,
        abs(r * (n * one()) - a * one()) <= (n * one()) * one(),
    ensures
        abs(n * r - a) <= n * one(),
{
    let d = n * r - a;
    let c = n * one();
    assert(r * (n * one()) - a * one() == d * one()) by (nonlinear_arith)
        requires
            d == n * r - a,
    ;
    assert(-c <= d <= c) by (nonlinear_arith)
        requires
            -(c * one()) <= d * one() <= c * one(),
            one() > 0,
    ;
}

/// An amount divided into `n` parts.
pub fn shared_by(a: &Amount, n: u32) -> (r: Amount)
    requires
        n >= 1,
        n == 1 ==> abs(a.scaled()) + one() <= limit(),
    ensures
        r == quotient(*a, from_signed(n as int, 0)),
        abs(r.scaled()) <= abs(a.scaled()) + one(),
        n * abs(r.scaled()) <= abs(a.scaled()) + n * one(),
        abs(n * r.scaled() - a.scaled()) <= n * one(),
        a.scaled() >= 0 ==> r.scaled() >= 0,
{
    let k = Amount::new(n as i64, 0);
    a.known();
    proof {
        crate::amount::lemma_in_limit(*a);
        lemma_whole(n as int);
        let c = n * one();
        let x = abs(a.scaled());
        assert(c >= one()) by (nonlinear_arith)
            requires
                n >= 1,
                c == n * one(),
                one() > 0,
        ;
        if n == 1 {
            assert(x <= (max_units() - 1) * c) by (nonlinear_arith)
                requires
                    x + one() <= max_units() * one(),
                    c == n * one(),
                    n == 1,
            ;
        } else {
            assert(x <= (max_units() - 1) * c) by (nonlinear_arith)
                requires
                    x <= max_units() * one(),
                    c == n * one(),
                    n >= 2,
                    max_units() >= 4,
                    one() > 0,
            ;
        }
    }
    let r = a.divided(&k);
    a.known();
    r.known();
    proof {
        broadcast use crate::amount::lemma_made;

        lemma_not_below(*a, r);
        let c = n * one();
        let x = abs(r.scaled());
        let y = abs(a.scaled());
        assert(n * x <= y + n * one()) by (nonlinear_arith)
            requires
                x * c <= (y + c) * one(),
                c == n * one(),
                one() > 0,
        ;
        assert(x <= y + one()) by (nonlinear_arith)
            requires
                x * c <= (y + c) * one(),
                c >= one(),
                one() > 0,
                x >= 0,
                y >= 0,
        ;
        assert(abs(c) == c);
        lemma_share_near(a.scaled(), r.scaled(), n as int);
    }
    r
}

/// An amount is no larger than the weight of the list that holds it.
pub proof fn lemma_member_weight(s: Seq<Amount>, i: int)
    requires
        0 <= i < s.len(),
    ensures
        abs(s[i].scaled()) + one() <= full_weight(s),
{
    lemma_weight_take(s, i);
    lemma_weight_take(s, i + 1);
    assert(s.take(i + 1).drop_last() =~= s.take(i));
}

} // verus!
