//! Amounts of few decimal places: what sums, differences and whole multiples of them come
//! to exactly.

use crate::amount::{
    abs, aligned, from_signed, law_plus_exact, lemma_made, lemma_pow10, lemma_pow10_sum,
    lemma_zero_scaled, magnitude, max_places, max_units, minus, negated, one, plus, pow10,
    product_fits, quotient, sum_fits, times, zero, Amount,
};
use vstd::prelude::*;

verus! {

/// Whether the amount has at most `p` decimal places.
pub open spec fn few(a: Amount, p: nat) -> bool {
    a.in_range() && a.places() <= p && p <= 28
}

/// The largest number that `p` decimal places leave room for, counted in the smallest step.
pub open spec fn room(p: nat) -> int {
    max_units() * pow10((28 - p) as nat)
}

/// The sum of two amounts of few places is exact, and has no more places.
pub proof fn law_plus_of_few_places(a: Amount, b: Amount, p: nat)
    requires
        few(a, p),
        few(b, p),
        abs(a.scaled()) + abs(b.scaled()) <= room(p),
    ensures
        few(plus(a, b), p),
        plus(a, b).scaled() == a.scaled() + b.scaled(),
{
    lemma_fits(a, b, p);
    law_plus_exact(a, b);
}

/// The difference of two amounts of few places is exact, and has no more places.
pub proof fn law_minus_of_few_places(a: Amount, b: Amount, p: nat)
    requires
        few(a, p),
        few(b, p),
        abs(a.scaled()) + abs(b.scaled()) <= room(p),
    ensures
        few(minus(a, b), p),
        minus(a, b).scaled() == a.scaled() - b.scaled(),
{
    lemma_zero_scaled(a);
    lemma_zero_scaled(b);
    lemma_negated(b);
    if !(a.units() == 0 && b.units() == 0) {
        law_plus_of_few_places(a, negated(b), p);
    }
}

/// The difference of two amounts that can be written with the same places is exact.
pub proof fn law_minus_exact(a: Amount, b: Amount)
    requires
        a.in_range(),
        b.in_range(),
        sum_fits(a, negated(b)),
    ensures
        minus(a, b).scaled() == a.scaled() - b.scaled(),
{
    lemma_zero_scaled(a);
    lemma_zero_scaled(b);
    lemma_negated(b);
    if !(a.units() == 0 && b.units() == 0) {
        law_plus_exact(a, negated(b));
    }
}

/// A sum of two amounts with at most `p` places keeps its places where it can be written
/// with `p`.
pub proof fn lemma_fits(a: Amount, b: Amount, p: nat)
    requires
        a.in_range(),
        b.in_range(),
        a.places() <= p <= 28,
        b.places() <= p,
        abs(a.scaled()) + abs(b.scaled()) <= max_units() * pow10((28 - p) as nat),
    ensures
        sum_fits(a, b),
        plus(a, b).in_range(),
        plus(a, b).places() <= p,
{
    let q = max_places(a, b);
    let k = pow10((28 - q) as nat);
    lemma_pow10((28 - q) as nat);
    lemma_pow10((28 - p) as nat);
    lemma_pow10((p - q) as nat);
    lemma_pow10_sum((p - q) as nat, (28 - p) as nat);
    assert((p - q) as nat + (28 - p) as nat == (28 - q) as nat);
    let (x, y) = (aligned(a, q), aligned(b, q));
    lemma_aligned(a, q);
    lemma_aligned(b, q);
    let u = max_units();
    let small = pow10((28 - p) as nat);
    assert(u * small <= u * k) by (nonlinear_arith)
        requires
            k == pow10((p - q) as nat) * small,
            pow10((p - q) as nat) >= 1,
            small >= 1,
            u >= 0,
    ;
    assert(abs(x * k) + abs(y * k) <= u * k);
    assert(abs(x) <= u && abs(y) <= u && abs(x + y) <= u) by (nonlinear_arith)
        requires
            abs(x * k) + abs(y * k) <= u * k,
            k >= 1,
            abs(x) == (if x < 0 {
                -x
            } else {
                x
            }),
            abs(y) == (if y < 0 {
                -y
            } else {
                y
            }),
            abs(x + y) == (if x + y < 0 {
                -(x + y)
            } else {
                x + y
            }),
            abs(x * k) == (if x * k < 0 {
                -(x * k)
            } else {
                x * k
            }),
            abs(y * k) == (if y * k < 0 {
                -(y * k)
            } else {
                y * k
            }),
    ;
    lemma_made(x + y < 0, abs(x + y) as nat, q);
}

pub proof fn lemma_aligned(a: Amount, q: nat)
    requires
        a.places() <= q <= 28,
    ensures
        a.scaled() == aligned(a, q) * pow10((28 - q) as nat),
{
    lemma_pow10_sum((q - a.places()) as nat, (28 - q) as nat);
    assert((q - a.places()) as nat + (28 - q) as nat == (28 - a.places()) as nat);
    let (x, y) = (pow10((q - a.places()) as nat), pow10((28 - q) as nat));
    assert(a.signed() * (x * y) == (a.signed() * x) * y) by (nonlinear_arith);
}

/// An amount with the other sign is as far from zero, on the other side.
pub proof fn lemma_negated(a: Amount)
    requires
        a.in_range(),
    ensures
        negated(a).in_range(),
        negated(a).places() == a.places(),
        negated(a).units() == a.units(),
        negated(a).scaled() == -a.scaled(),
{
    lemma_made(!a.sign(), a.units(), a.places());
    let k = pow10((28 - a.places()) as nat);
    assert((-a.signed()) * k == -(a.signed() * k)) by (nonlinear_arith);
    assert(negated(a).signed() == -a.signed());
}

/// An amount without its sign is as far from zero, above it.
pub proof fn lemma_magnitude(a: Amount)
    requires
        a.in_range(),
    ensures
        magnitude(a).in_range(),
        magnitude(a).places() == a.places(),
        magnitude(a).units() == a.units(),
        magnitude(a).scaled() == abs(a.scaled()),
{
    lemma_made(false, a.units(), a.places());
    let k = pow10((28 - a.places()) as nat);
    lemma_pow10((28 - a.places()) as nat);
    let u = a.units() as int;
    assert(u * k >= 0) by (nonlinear_arith)
        requires
            u >= 0,
            k >= 1,
    ;
    assert((-u) * k == -(u * k)) by (nonlinear_arith);
}

/// Zero stands for zero.
pub proof fn lemma_zero()
    ensures
        zero().scaled() == 0,
        zero().in_range(),
        zero().places() == 0,
{
    lemma_made(false, 0, 0);
    lemma_zero_scaled(zero());
}

/// A whole multiple of an amount is exact, as long as its units fit.
pub proof fn law_multiple_exact(a: Amount, n: int)
    requires
        a.in_range(),
        0 <= n,
        n <= max_units(),
        a.units() * n <= max_units(),
    ensures
        times(a, from_signed(n, 0)).scaled() == n * a.scaled(),
        times(a, from_signed(n, 0)).in_range(),
{
    let f = from_signed(n, 0);
    lemma_made(false, n as nat, 0);
    lemma_zero();
    lemma_zero_scaled(a);
    if a.units() == 0 || n == 0 {
        assert(n * a.scaled() == 0) by (nonlinear_arith)
            requires
                a.scaled() == 0 || n == 0,
        ;
    } else {
        let u = a.units() as int;
        assert(product_fits(a, f));
        assert(a.units() * (n as nat) == a.units() * n);
        lemma_made(a.sign() != f.sign(), (a.units() * n) as nat, a.places());
        let r = times(a, f);
        let k = pow10((28 - a.places()) as nat);
        assert(r.signed() == a.signed() * n) by {
            assert((-u) * n == -(u * n)) by (nonlinear_arith);
        }
        assert((a.signed() * n) * k == n * (a.signed() * k)) by (nonlinear_arith);
    }
}

/// Whether dividing the amount into `n` parts rounds each by at most one.
pub open spec fn shares(a: Amount, n: int) -> bool {
    abs(n * quotient(a, from_signed(n, 0)).scaled() - a.scaled()) <= n * one()
}

/// An amount whose units can be divided by a whole number is divided without a remainder.
pub proof fn law_quotient_exact(a: Amount, n: int)
    requires
        a.in_range(),
        1 <= n <= max_units(),
        a.units() % n as nat == 0,
    ensures
        n * quotient(a, from_signed(n, 0)).scaled() == a.scaled(),
        quotient(a, from_signed(n, 0)).in_range(),
        quotient(a, from_signed(n, 0)).places() <= a.places(),
        shares(a, n),
{
    let k = from_signed(n, 0);
    lemma_made(false, n as nat, 0);
    lemma_zero();
    lemma_zero_scaled(a);
    let c = pow10((28 - a.places()) as nat);
    assert(n * one() >= 0) by (nonlinear_arith)
        requires
            n >= 0,
            one() >= 0,
    ;
    if a.units() == 0 {
        assert(n * 0 == 0) by (nonlinear_arith);
    } else {
        let u = a.units() as int;
        let w = u / n;
        assert(u == n * w && 0 <= w <= u) by (nonlinear_arith)
            requires
                u % n == 0,
                w == u / n,
                n >= 1,
                u >= 0,
        ;
        assert(a.units() / n as nat == w);
        lemma_made(a.sign(), w as nat, a.places());
        let q = quotient(a, k);
        assert(q.units() == w && q.places() == a.places());
        assert(n * (w * c) == u * c) by (nonlinear_arith)
            requires
                u == n * w,
        ;
        assert(n * ((-w) * c) == (-u) * c) by (nonlinear_arith)
            requires
                u == n * w,
        ;
    }
}

/// Of two factors one of which is a whole number, the product is that many times the other.
pub proof fn law_tenths(a: Amount, n: int)
    requires
        a.in_range(),
        a.places() <= 27,
        1 <= n <= max_units(),
        a.units() * n <= max_units(),
    ensures
        10 * times(a, from_signed(n, 1)).scaled() == n * a.scaled(),
{
    let k = from_signed(n, 1);
    lemma_made(false, n as nat, 1);
    lemma_zero();
    lemma_zero_scaled(a);
    if a.units() == 0 {
        assert(n * 0 == 0) by (nonlinear_arith);
    } else {
        let u = a.units() as int;
        lemma_made(a.sign(), (u * n) as nat, (a.places() + 1) as nat);
        let c = pow10((27 - a.places()) as nat);
        assert(pow10((28 - a.places()) as nat) == 10 * c);
        assert((28 - (a.places() + 1)) as nat == (27 - a.places()) as nat);
        assert(10 * ((u * n) * c) == n * (u * (10 * c))) by (nonlinear_arith);
        assert(10 * ((-(u * n)) * c) == n * ((-u) * (10 * c))) by (nonlinear_arith);
    }
}

/// So many hundredths of an amount are exact, and can be added to it and taken from it,
/// as long as the units fit.
pub proof fn law_hundredths(a: Amount, n: int)
    requires
        a.places() <= 26,
        0 < n <= 100,
        (100 + n) * a.units() <= max_units(),
    ensures
        ({
            let part = times(a, from_signed(n, 2));
            &&& 100 * part.scaled() == n * a.scaled()
            &&& minus(a, part).scaled() == a.scaled() - part.scaled()
            &&& plus(a, part).scaled() == a.scaled() + part.scaled()
        }),
{
    let part = times(a, from_signed(n, 2));
    let p = (a.places() + 2) as nat;
    lemma_made(false, n as nat, 2);
    lemma_zero();
    lemma_aligned(a, p);
    lemma_pow10((28 - p) as nat);
    let k = pow10((28 - p) as nat);
    let u = a.units() as int;
    let s = a.signed();
    assert(pow10(2) == 100) by {
        reveal_with_fuel(pow10, 3);
    }
    assert(u <= max_units() && n * u <= max_units()) by (nonlinear_arith)
        requires
            (100 + n) * u <= max_units(),
            n > 0,
            u >= 0,
    ;
    if a.units() == 0 {
        assert(a.scaled() == 0) by (nonlinear_arith)
            requires
                a.scaled() == s * 100 * k,
                s == 0,
        ;
        assert(n * 0 == 0) by (nonlinear_arith);
    } else {
        assert(a.units() * n as nat == n * u) by (nonlinear_arith)
            requires
                u == a.units(),
                n > 0,
        ;
        lemma_made(a.sign(), (n * u) as nat, p);
        assert(part.signed() == n * s) by (nonlinear_arith)
            requires
                part.signed() == (if a.sign() {
                    -(n * u)
                } else {
                    n * u
                }),
                s == (if a.sign() {
                    -u
                } else {
                    u
                }),
        ;
        assert(100 * ((n * s) * k) == n * (s * 100 * k)) by (nonlinear_arith);
    }
    let (x, y) = (a.scaled(), part.scaled());
    assert(100 * (abs(x) + abs(y)) <= 100 * (max_units() * k)) by {
        assert(abs(x) == u * 100 * k) by (nonlinear_arith)
            requires
                x == s * 100 * k,
                s == u || s == -u,
                u >= 0,
                k >= 1,
                abs(x) == (if x < 0 {
                    -x
                } else {
                    x
                }),
        ;
        assert(100 * abs(y) == n * abs(x)) by (nonlinear_arith)
            requires
                100 * y == n * x,
                n > 0,
                abs(x) == (if x < 0 {
                    -x
                } else {
                    x
                }),
                abs(y) == (if y < 0 {
                    -y
                } else {
                    y
                }),
        ;
        assert(100 * (u * 100 * k) + n * (u * 100 * k) == 100 * (((100 + n) * u) * k))
            by (nonlinear_arith);
        assert(((100 + n) * u) * k <= max_units() * k) by (nonlinear_arith)
            requires
                (100 + n) * u <= max_units(),
                k >= 1,
        ;
    }
    law_minus_of_few_places(a, part, p);
    law_plus_of_few_places(a, part, p);
}

} // verus!
