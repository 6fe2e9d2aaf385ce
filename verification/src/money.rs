//! Amounts as text, in Brazilian form.

use crate::amount::{
    fixed_text, fraction_text, lemma_made, lemma_rounded, magnitude, rounded, whole_text, Amount,
};
use crate::text::{append_chars, chars, digits, from_chars, put, slice_chars};
use vstd::prelude::*;

verus! {

/// The digits in groups of three, counted from the end, with points between them.
pub open spec fn thousands(s: Seq<char>) -> Seq<char>
    decreases s.len(),
{
    if s.len() <= 3 {
        s
    } else {
        thousands(s.take(s.len() - 3)) + seq!['.'] + s.skip(s.len() - 3)
    }
}

pub(crate) fn group_thousands(v: &Vec<char>) -> (r: Vec<char>)
    ensures
        r@ == thousands(v@),
{
    let n: usize = v.len();
    if n <= 3 {
        return slice_chars(v, 0, n);
    }
    let mut at: usize = (n - 1) % 3 + 1;
    let mut out = slice_chars(v, 0, at);
    assert(v@.subrange(0, at as int) =~= v@.take(at as int));
    while at < n
        invariant
            n == v.len(),
            1 <= at <= n,
            (n - at) % 3 == 0,
            out@ == thousands(v@.take(at as int)),
        decreases n - at,
    {
        let ghost head = v@.take(at + 3);
        proof {
            assert(head.take(head.len() - 3) =~= v@.take(at as int));
            assert(head.skip(head.len() - 3) =~= v@.subrange(at as int, at + 3));
        }
        out.push('.');
        append_chars(&mut out, &slice_chars(v, at, at + 3));
        assert(out@ =~= thousands(head));
        at = at + 3;
    }
    assert(v@.take(at as int) =~= v@);
    out
}

/// Puts points between groups of three digits.
pub fn insert_thousands(s: &str) -> (r: String)
    ensures
        r@ == thousands(s@),
{
    from_chars(&group_thousands(&chars(s)))
}

/// The amount, rounded to two places: `-12.30`.
pub open spec fn plain_text(a: Amount) -> Seq<char> {
    fixed_text(rounded(a, 2), 2)
}

/// The amount, rounded to two places, with a point.
pub fn decimal_text(value: Amount) -> (r: String)
    ensures
        r@ == plain_text(value),
{
    let x = value.round_dp(2);
    value.known();
    proof {
        lemma_rounded(value, 2);
    }
    x.fixed(2)
}

/// The size of the amount in reais with thousands apart: `R$ 1.500,00`.
pub open spec fn brl_abs_text(a: Amount) -> Seq<char> {
    let x = rounded(magnitude(a), 2);
    "R$ "@ + thousands(whole_text(x, 2)) + seq![','] + fraction_text(x, 2)
}

pub open spec fn sign_text(a: Amount) -> Seq<char> {
    if a.sign() {
        "-"@
    } else {
        "+"@
    }
}

/// The amount in reais with its sign and thousands apart: `-R$ 1.500,00`.
pub open spec fn brl_signed_text(a: Amount) -> Seq<char> {
    sign_text(a) + brl_abs_text(a)
}

/// The amount in reais with its sign: `-R$ 1500,00`.
pub open spec fn brl_text(a: Amount) -> Seq<char> {
    let x = rounded(magnitude(a), 2);
    sign_text(a) + "R$ "@ + (whole_text(x, 2) + seq![','] + fraction_text(x, 2))
}

/// The whole part and the two digits behind the point of the size of an amount.
fn parts_of(value: &Amount) -> (r: (Vec<char>, Vec<char>))
    ensures
        ({
            let x = rounded(magnitude(*value), 2);
            r.0@ == whole_text(x, 2) && r.1@ == fraction_text(x, 2)
        }),
{
    let size = value.abs();
    size.known();
    value.known();
    let x = size.round_dp(2);
    proof {
        lemma_rounded(size, 2);
        lemma_made(false, value.units(), value.places());
    }
    let v = chars(x.fixed(2).as_str());
    proof {
        reveal_with_fuel(crate::amount::pow10, 3);
        let h = crate::amount::units_at(x, 2);
        crate::text::lemma_digits(h / 100);
        reveal_with_fuel(digits, 3);
        assert(fraction_text(x, 2).len() == 2);
        assert(!x.sign());
        assert(v@ =~= whole_text(x, 2) + seq!['.'] + fraction_text(x, 2));
    }
    let n: usize = v.len();
    let whole = slice_chars(&v, 0, n - 3);
    let cents = slice_chars(&v, n - 2, n);
    assert(whole@ =~= whole_text(x, 2));
    assert(cents@ =~= fraction_text(x, 2));
    (whole, cents)
}

/// The size of the amount in reais.
pub fn brl_abs(value: Amount) -> (r: String)
    ensures
        r@ == brl_abs_text(value),
{
    let (whole, cents) = parts_of(&value);
    let mut out = chars("R$ ");
    append_chars(&mut out, &group_thousands(&whole));
    out.push(',');
    append_chars(&mut out, &cents);
    assert(out@ =~= brl_abs_text(value));
    from_chars(&out)
}

/// The amount in reais with its sign and thousands apart.
pub fn brl_signed(value: Amount) -> (r: String)
    ensures
        r@ == brl_signed_text(value),
{
    let mut out = chars(
        if value.is_sign_negative() {
            "-"
        } else {
            "+"
        },
    );
    put(&mut out, brl_abs(value).as_str());
    from_chars(&out)
}

/// The amount in reais with its sign.
pub fn brl(value: Amount) -> (r: String)
    ensures
        r@ == brl_text(value),
{
    let (whole, cents) = parts_of(&value);
    let mut out = chars(
        if value.is_sign_negative() {
            "-"
        } else {
            "+"
        },
    );
    put(&mut out, "R$ ");
    append_chars(&mut out, &whole);
    out.push(',');
    append_chars(&mut out, &cents);
    assert(out@ =~= brl_text(value));
    from_chars(&out)
}

} // verus!
