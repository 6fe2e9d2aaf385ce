//! What amounts written as money promise: the cents that they tell.

use crate::amount::{
    abs, fraction_text, half_even, lemma_made, lemma_padded, lemma_pow10, lemma_pow10_sum,
    lemma_rounded, magnitude, pow10, rounded, units_at, whole_text, Amount,
};
use crate::money::{brl_abs_text, brl_signed_text, brl_text, thousands};
use crate::places::lemma_magnitude;
use crate::text::{all_digits, digits_value, lemma_digits, lemma_digits_value};
use vstd::prelude::*;

verus! {

/// Rounding moves an amount by at most half a step of the places that are left.
pub proof fn law_rounded_is_near(a: Amount, dp: nat)
    requires
        a.in_range(),
        dp <= 28,
    ensures
        2 * abs(rounded(a, dp).scaled() - a.scaled()) <= pow10((28 - dp) as nat),
        rounded(a, dp).places() <= dp,
{
    lemma_rounded(a, dp);
    lemma_pow10((28 - dp) as nat);
    if a.places() > dp && a.units() > 0 {
        let k = (a.places() - dp) as nat;
        let step = pow10(k);
        let rest = pow10((28 - a.places()) as nat);
        lemma_pow10(k);
        lemma_pow10((28 - a.places()) as nat);
        lemma_pow10_sum(k, (28 - a.places()) as nat);
        assert((k + (28 - a.places()) as nat) as nat == (28 - dp) as nat);
        let n = a.units() as int;
        let u = half_even(a.units(), k) as int;
        assert(2 * abs(u * step - n) <= step) by {
            let q = n / step;
            let r = n % step;
            assert(n == q * step + r && 0 <= r < step) by (nonlinear_arith)
                requires
                    q == n / step,
                    r == n % step,
                    step >= 1,
            ;
            assert(a.units() / step as nat == q && a.units() % step as nat == r);
            assert((q + 1) * step == q * step + step) by (nonlinear_arith);
        }
        assert(u <= n) by {
            lemma_pow10((k - 1) as nat);
            let q = n / step;
            assert(10 * q <= n && q >= 0) by (nonlinear_arith)
                requires
                    q == n / step,
                    step >= 10,
                    n >= 0,
            ;
            assert(a.units() / step as nat == q);
        }
        let d = u * step - n;
        lemma_made(a.sign() && u > 0, u as nat, dp);
        let b = rounded(a, dp);
        assert(b.scaled() == b.signed() * (step * rest));
        assert(u * (step * rest) - n * rest == d * rest) by (nonlinear_arith)
            requires
                d == u * step - n,
        ;
        assert((-u) * (step * rest) - (-n) * rest == -(d * rest)) by (nonlinear_arith)
            requires
                d == u * step - n,
        ;
        assert(-(step * rest) <= 2 * (d * rest) <= step * rest) by (nonlinear_arith)
            requires
                -step <= 2 * d <= step,
                rest >= 1,
        ;
        assert(0 * (step * rest) == 0) by (nonlinear_arith);
        if u == 0 {
            assert((-n) * rest - 0 == -(n * rest)) by (nonlinear_arith);
            assert(u * (step * rest) == 0) by (nonlinear_arith)
                requires
                    u == 0,
            ;
        }
    } else if a.places() > dp {
        lemma_made(a.sign(), 0, dp);
        crate::amount::lemma_zero_scaled(a);
        crate::amount::lemma_zero_scaled(rounded(a, dp));
    }
}

/// The cents that digits of whole reais and two digits behind them tell.
pub open spec fn cents_of(whole: Seq<char>, fraction: Seq<char>) -> int {
    (100 * digits_value(whole) + digits_value(fraction)) as int
}

/// The whole part and the two digits behind the point tell the cents of an amount.
pub proof fn law_text_tells_cents(a: Amount)
    requires
        a.in_range(),
        a.places() <= 2,
    ensures
        all_digits(whole_text(a, 2)),
        all_digits(fraction_text(a, 2)),
        fraction_text(a, 2).len() == 2,
        cents_of(whole_text(a, 2), fraction_text(a, 2)) * pow10(26) == abs(a.scaled()),
{
    let n = units_at(a, 2) as int;
    assert(pow10(2) == 100) by {
        reveal_with_fuel(pow10, 3);
    }
    lemma_digits((n / 100) as nat);
    lemma_digits_value((n / 100) as nat);
    lemma_padded((n % 100) as nat, 2);
    lemma_pow10((2 - a.places()) as nat);
    lemma_pow10(26);
    lemma_pow10_sum((2 - a.places()) as nat, 26);
    let (x, y) = (pow10((2 - a.places()) as nat), pow10(26));
    let u = a.units() as int;
    assert((2 - a.places()) as nat + 26 == (28 - a.places()) as nat);
    assert(n == u * x);
    assert((u * x) * y == u * (x * y)) by (nonlinear_arith);
    assert(u * (x * y) >= 0) by (nonlinear_arith)
        requires
            u >= 0,
            x >= 1,
            y >= 1,
    ;
    assert((-u) * (x * y) == -(u * (x * y))) by (nonlinear_arith);
}

/// The text without its points.
pub open spec fn pointless(s: Seq<char>) -> Seq<char>
    decreases s.len(),
{
    if s.len() == 0 {
        Seq::empty()
    } else if s.last() == '.' {
        pointless(s.drop_last())
    } else {
        pointless(s.drop_last()).push(s.last())
    }
}

proof fn lemma_pointless_joined(a: Seq<char>, b: Seq<char>)
    ensures
        pointless(a + b) == pointless(a) + pointless(b),
    decreases b.len(),
{
    if b.len() == 0 {
        assert(a + b =~= a);
        assert(pointless(a) + pointless(b) =~= pointless(a));
    } else {
        lemma_pointless_joined(a, b.drop_last());
        assert((a + b).drop_last() =~= a + b.drop_last());
        assert(pointless(a + b) =~= pointless(a) + pointless(b));
    }
}

proof fn lemma_pointless_digits(s: Seq<char>)
    requires
        all_digits(s),
    ensures
        pointless(s) == s,
    decreases s.len(),
{
    if s.len() > 0 {
        lemma_pointless_digits(s.drop_last());
        assert(s.last() == s[s.len() - 1]);
        assert(pointless(s) =~= s);
    }
}

/// Points between thousands leave the digits as they are: taking them out gives the number
/// back. Behind each point stand three digits.
pub proof fn law_thousands_keep_digits(s: Seq<char>)
    requires
        all_digits(s),
    ensures
        pointless(thousands(s)) == s,
        s.len() <= 3 ==> thousands(s) == s,
        s.len() > 3 ==> thousands(s).len() > 4 && thousands(s)[thousands(s).len() - 4] == '.',
    decreases s.len(),
{
    lemma_pointless_digits(s);
    if s.len() > 3 {
        let (h, t) = (s.take(s.len() - 3), s.skip(s.len() - 3));
        assert(all_digits(h));
        assert(all_digits(t));
        law_thousands_keep_digits(h);
        lemma_pointless_digits(t);
        lemma_pointless_joined(thousands(h) + seq!['.'], t);
        lemma_pointless_joined(thousands(h), seq!['.']);
        assert(pointless(seq!['.']) =~= Seq::<char>::empty()) by {
            reveal_with_fuel(pointless, 2);
            assert(seq!['.'].drop_last() =~= Seq::<char>::empty());
        }
        assert(h + Seq::<char>::empty() + t =~= s);
        if h.len() <= 3 {
            assert(thousands(h) == h);
        }
        assert(thousands(h).len() >= 1);
    }
}

/// Two amounts are written as the same money without their sign only where they are the
/// same to the cent; what is written is the amount to the nearest cent.
pub proof fn law_money_text_is_near(a: Amount)
    requires
        a.in_range(),
    ensures
        exists|whole: Seq<char>, fraction: Seq<char>|
            {
                &&& brl_abs_text(a) == "R$ "@ + thousands(whole) + seq![','] + fraction
                &&& brl_signed_text(a) == (if a.sign() {
                    "-"@
                } else {
                    "+"@
                }) + brl_abs_text(a)
                &&& brl_text(a) == (if a.sign() {
                    "-"@
                } else {
                    "+"@
                }) + "R$ "@ + (whole + seq![','] + fraction)
                &&& all_digits(whole) && all_digits(fraction) && fraction.len() == 2
                &&& 2 * abs(
                    #[trigger] cents_of(whole, fraction) * pow10(26) - abs(a.scaled()),
                ) <= pow10(26)
            },
{
    lemma_magnitude(a);
    lemma_made(false, a.units(), a.places());
    let m = magnitude(a);
    let r = rounded(m, 2);
    lemma_rounded(m, 2);
    law_rounded_is_near(m, 2);
    law_text_tells_cents(r);
    crate::amount::lemma_zero_scaled(r);
    lemma_unsigned(r);
    let (w, f) = (whole_text(r, 2), fraction_text(r, 2));
    assert(cents_of(w, f) * pow10(26) == r.scaled());
}

proof fn lemma_unsigned(r: Amount)
    requires
        r.in_range(),
        !r.sign(),
    ensures
        r.scaled() >= 0,
{
    let k = pow10((28 - r.places()) as nat);
    lemma_pow10((28 - r.places()) as nat);
    assert(r.signed() * k >= 0) by (nonlinear_arith)
        requires
            r.signed() >= 0,
            k >= 1,
    ;
}

} // verus!
