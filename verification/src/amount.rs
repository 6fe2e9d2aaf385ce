//! Exact decimal amounts: a sign, up to 96 bits of units and a number of decimal
//! places between 0 and 28. The arithmetic is that of `rust_decimal`.

use crate::text::{
    all_digits, append_chars, digits, digits_value, from_chars, lemma_digits, lemma_digits_value,
    padded_digits, zero_padded,
};
use rust_decimal::Decimal;
use vstd::prelude::*;

verus! {

/// Ten to the power `n`.
pub open spec fn pow10(n: nat) -> int
    decreases n,
{
    if n == 0 {
        1
    } else {
        10 * pow10((n - 1) as nat)
    }
}

pub proof fn lemma_pow10(n: nat)
    ensures
        pow10(n) >= 1,
    decreases n,
{
    if n > 0 {
        lemma_pow10((n - 1) as nat);
    }
}

proof fn lemma_pow10_grows(a: nat, b: nat)
    requires
        a <= b,
    ensures
        pow10(a) <= pow10(b),
    decreases b - a,
{
    lemma_pow10(a);
    if a < b {
        lemma_pow10_grows(a + 1, b);
        assert(pow10(a + 1) == 10 * pow10(a));
    }
}

pub proof fn lemma_pow10_sum(a: nat, b: nat)
    ensures
        pow10(a + b) == pow10(a) * pow10(b),
    decreases a,
{
    if a == 0 {
        assert(pow10(a) * pow10(b) == pow10(b)) by (nonlinear_arith)
            requires
                pow10(a) == 1,
        ;
    } else {
        lemma_pow10_sum((a - 1) as nat, b);
        assert(10 * (pow10((a - 1) as nat) * pow10(b)) == (10 * pow10((a - 1) as nat)) * pow10(b))
            by (nonlinear_arith);
    }
}

/// The largest number of units.
pub open spec fn max_units() -> int {
    0xffff_ffff_ffff_ffff_ffff_ffff
}

/// One, counted in the smallest step that an amount can have.
pub open spec fn one() -> int {
    0x204f_ce5e_3e25_0261_1000_0000
}

/// The largest amount, counted in the smallest step.
pub open spec fn limit() -> int {
    max_units() * one()
}

pub proof fn lemma_one()
    ensures
        one() == pow10(28),
{
    reveal_with_fuel(pow10, 29);
}

pub open spec fn abs(n: int) -> int {
    if n < 0 {
        -n
    } else {
        n
    }
}

/// An amount of money, or any other decimal number.
#[derive(Clone, Copy, Debug)]
pub struct Amount {
    negative: bool,
    units: u128,
    places: u32,
}

impl Amount {
    #[verifier::type_invariant]
    spec fn wf(self) -> bool {
        self.units <= max_units() && self.places <= 28
    }

    /// The sign bit. A zero may carry it too.
    pub closed spec fn sign(self) -> bool {
        self.negative
    }

    /// The digits as one whole number.
    pub closed spec fn units(self) -> nat {
        self.units as nat
    }

    /// How many of the digits stand behind the decimal point.
    pub closed spec fn places(self) -> nat {
        self.places as nat
    }

    /// Whether sign, units and places are in range.
    pub open spec fn in_range(self) -> bool {
        self.units() <= max_units() && self.places() <= 28
    }

    /// The units with their sign.
    pub open spec fn signed(self) -> int {
        if self.sign() {
            -(self.units() as int)
        } else {
            self.units() as int
        }
    }

    /// The number that the amount stands for, counted in the smallest step.
    pub open spec fn scaled(self) -> int {
        self.signed() * pow10((28 - self.places()) as nat)
    }
}

/// The amount with these parts.
pub closed spec fn made(sign: bool, units: nat, places: nat) -> Amount {
    Amount { negative: sign, units: units as u128, places: places as u32 }
}

pub broadcast proof fn lemma_made(sign: bool, units: nat, places: nat)
    requires
        units <= max_units(),
        places <= 28,
    ensures
        (#[trigger] made(sign, units, places)).sign() == sign,
        made(sign, units, places).units() == units,
        made(sign, units, places).places() == places,
{
}

/// The amount of `n` units with its sign taken from the number.
pub open spec fn from_signed(n: int, places: nat) -> Amount {
    made(n < 0, abs(n) as nat, places)
}

pub open spec fn zero() -> Amount {
    made(false, 0, 0)
}

pub open spec fn negated(a: Amount) -> Amount {
    made(!a.sign(), a.units(), a.places())
}

pub open spec fn magnitude(a: Amount) -> Amount {
    made(false, a.units(), a.places())
}

pub open spec fn max_places(a: Amount, b: Amount) -> nat {
    if a.places() >= b.places() {
        a.places()
    } else {
        b.places()
    }
}

/// The signed units of `a` written with `places` decimal places.
pub open spec fn aligned(a: Amount, places: nat) -> int {
    a.signed() * pow10((places - a.places()) as nat)
}

/// Whether both summands and their sum can be written with the same places.
pub open spec fn sum_fits(a: Amount, b: Amount) -> bool {
    let p = max_places(a, b);
    &&& abs(aligned(a, p)) <= max_units()
    &&& abs(aligned(b, p)) <= max_units()
    &&& abs(aligned(a, p) + aligned(b, p)) <= max_units()
}

/// What `rust_decimal` makes of a sum that has to give up decimal places.
pub uninterp spec fn rounded_sum(
    sign_a: bool,
    units_a: nat,
    places_a: nat,
    sign_b: bool,
    units_b: nat,
    places_b: nat,
) -> (bool, nat, nat);

/// The sum: exact, unless it has to give up decimal places to fit.
pub open spec fn plus(a: Amount, b: Amount) -> Amount {
    if a.units() == 0 {
        b
    } else if b.units() == 0 {
        a
    } else if sum_fits(a, b) {
        from_signed(
            aligned(a, max_places(a, b)) + aligned(b, max_places(a, b)),
            max_places(a, b),
        )
    } else {
        let r = rounded_sum(a.sign(), a.units(), a.places(), b.sign(), b.units(), b.places());
        made(r.0, r.1, r.2)
    }
}

/// The difference.
pub open spec fn minus(a: Amount, b: Amount) -> Amount {
    if a.units() == 0 && b.units() == 0 {
        b
    } else {
        plus(a, negated(b))
    }
}

/// Whether a product keeps all its decimal places.
pub open spec fn product_fits(a: Amount, b: Amount) -> bool {
    a.units() * b.units() <= max_units() && a.places() + b.places() <= 28
}

/// What `rust_decimal` makes of a product that has to give up decimal places.
pub uninterp spec fn rounded_product(
    sign_a: bool,
    units_a: nat,
    places_a: nat,
    sign_b: bool,
    units_b: nat,
    places_b: nat,
) -> (bool, nat, nat);

/// The product: exact, unless it has to give up decimal places to fit.
pub open spec fn times(a: Amount, b: Amount) -> Amount {
    if a.units() == 0 || b.units() == 0 {
        zero()
    } else if product_fits(a, b) {
        made(a.sign() != b.sign(), a.units() * b.units(), a.places() + b.places())
    } else {
        let r = rounded_product(a.sign(), a.units(), a.places(), b.sign(), b.units(), b.places());
        made(r.0, r.1, r.2)
    }
}

/// What `rust_decimal` makes of a quotient that its units alone do not give.
pub uninterp spec fn rounded_quotient(
    sign_a: bool,
    units_a: nat,
    places_a: nat,
    sign_b: bool,
    units_b: nat,
    places_b: nat,
) -> (bool, nat, nat);

/// The quotient by a divisor that is not zero: exact where the units divide.
pub open spec fn quotient(a: Amount, b: Amount) -> Amount {
    if a.units() == 0 {
        zero()
    } else if a.units() % b.units() == 0 && a.places() >= b.places() {
        made(a.sign() != b.sign(), a.units() / b.units(), (a.places() - b.places()) as nat)
    } else {
        let r = rounded_quotient(a.sign(), a.units(), a.places(), b.sign(), b.units(), b.places());
        made(r.0, r.1, r.2)
    }
}

/// `units` divided by ten to the power `k`, a half going to the even neighbour.
pub open spec fn half_even(units: nat, k: nat) -> nat {
    let step = pow10(k) as nat;
    let q = units / step;
    let rem = units % step;
    if 2 * rem > step || (2 * rem == step && q % 2 == 1) {
        q + 1
    } else {
        q
    }
}

/// The amount with at most `dp` decimal places, a half going to the even neighbour.
pub open spec fn rounded(a: Amount, dp: nat) -> Amount {
    if a.places() <= dp {
        a
    } else if a.units() == 0 {
        made(a.sign(), 0, dp)
    } else {
        let u = half_even(a.units(), (a.places() - dp) as nat);
        made(a.sign() && u > 0, u, dp)
    }
}

/// Rounding leaves at most `dp` places, no more units, and sets no sign.
pub proof fn lemma_rounded(a: Amount, dp: nat)
    requires
        a.in_range(),
        dp <= 28,
    ensures
        rounded(a, dp).in_range(),
        rounded(a, dp).places() <= dp,
        rounded(a, dp).units() <= a.units(),
        rounded(a, dp).sign() ==> a.sign(),
{
    if a.places() > dp && a.units() > 0 {
        let k = (a.places() - dp) as nat;
        let step = pow10(k);
        lemma_pow10((k - 1) as nat);
        assert(step == 10 * pow10((k - 1) as nat));
        assert(step >= 10);
        let q = a.units() as int / step;
        assert(q * step <= a.units() && a.units() as int % step == a.units() - q * step) by (nonlinear_arith)
            requires
                q == a.units() as int / step,
                step >= 10,
                a.units() >= 0,
        ;
        assert(10 * q <= q * step) by (nonlinear_arith)
            requires
                step >= 10,
                q >= 0,
        ;
        assert(half_even(a.units(), k) <= a.units());
    }
    lemma_made(a.sign(), 0, dp);
}

/// The units of an amount with at most `p` places, counted with `p` places.
pub open spec fn units_at(a: Amount, p: nat) -> nat {
    a.units() * pow10((p - a.places()) as nat) as nat
}

/// The whole part of an amount with at most `p` places.
pub open spec fn whole_text(a: Amount, p: nat) -> Seq<char> {
    digits(units_at(a, p) / pow10(p) as nat)
}

/// The `p` digits behind the point of an amount with at most `p` places.
pub open spec fn fraction_text(a: Amount, p: nat) -> Seq<char> {
    zero_padded(digits(units_at(a, p) % pow10(p) as nat), p)
}

/// An amount with at most `p` places, written with `p`.
pub open spec fn fixed_text(a: Amount, p: nat) -> Seq<char> {
    (if a.sign() {
        seq!['-']
    } else {
        Seq::<char>::empty()
    }) + whole_text(a, p) + (if p == 0 {
        Seq::<char>::empty()
    } else {
        seq!['.'] + fraction_text(a, p)
    })
}

pub proof fn lemma_digits_len(n: nat, k: nat)
    requires
        k >= 1,
        n < pow10(k),
    ensures
        digits(n).len() <= k,
    decreases k,
{
    if n >= 10 {
        if k == 1 {
            reveal_with_fuel(pow10, 3);
        } else {
            assert(pow10(k) == 10 * pow10((k - 1) as nat));
            lemma_digits_len(n / 10, (k - 1) as nat);
        }
    }
}

pub proof fn lemma_zeros(k: nat, s: Seq<char>)
    ensures
        digits_value(Seq::new(k, |i: int| '0') + s) == digits_value(s),
    decreases s.len(), k,
{
    let zeros = Seq::new(k, |i: int| '0');
    if s.len() > 0 {
        lemma_zeros(k, s.drop_last());
        assert((zeros + s).drop_last() =~= zeros + s.drop_last());
    } else if k > 0 {
        let fewer = Seq::new((k - 1) as nat, |i: int| '0');
        lemma_zeros((k - 1) as nat, s);
        assert((zeros + s).drop_last() =~= fewer + s);
    } else {
        assert(zeros + s =~= s);
    }
}

/// A number padded to `w` digits has that many, and keeps its value.
pub proof fn lemma_padded(n: nat, w: nat)
    requires
        w >= 1,
        n < pow10(w),
    ensures
        zero_padded(digits(n), w).len() == w,
        all_digits(zero_padded(digits(n), w)),
        digits_value(zero_padded(digits(n), w)) == n,
{
    lemma_digits_len(n, w);
    lemma_digits(n);
    lemma_digits_value(n);
    lemma_zeros((w - digits(n).len()) as nat, digits(n));
}

/// The amount with all its decimal places: `-12.345`.
pub open spec fn exact_text(a: Amount) -> Seq<char> {
    fixed_text(a, a.places())
}

impl Amount {
    /// `num` divided by ten to the power `places`.
    pub fn new(num: i64, places: u32) -> (r: Amount)
        requires
            places <= 28,
        ensures
            r == from_signed(num as int, places as nat),
    {
        if num < 0 {
            let n: i128 = -(num as i128);
            Amount { negative: true, units: n as u128, places }
        } else {
            Amount { negative: false, units: num as u128, places }
        }
    }

    /// Zero.
    pub fn none() -> (r: Amount)
        ensures
            r == zero(),
    {
        Amount { negative: false, units: 0, places: 0 }
    }

    /// Every amount is in range.
    pub fn known(&self)
        ensures
            self.in_range(),
    {
        proof {
            use_type_invariant(self);
        }
    }

    /// Whether the sign bit is set.
    pub fn is_sign_negative(&self) -> (r: bool)
        ensures
            r == self.sign(),
    {
        self.negative
    }

    pub fn is_zero(&self) -> (r: bool)
        ensures
            r == (self.units() == 0),
    {
        self.units == 0
    }

    /// The amount with the other sign; zero changes its sign bit too.
    pub fn neg(&self) -> (r: Amount)
        ensures
            r == negated(*self),
            r.scaled() == -self.scaled(),
    {
        proof {
            use_type_invariant(self);
            let p = pow10((28 - self.places()) as nat);
            assert((-self.signed()) * p == -(self.signed() * p)) by (nonlinear_arith);
            assert(negated(*self).signed() == -self.signed());
        }
        Amount { negative: !self.negative, units: self.units, places: self.places }
    }

    /// The amount without its sign.
    pub fn abs(&self) -> (r: Amount)
        ensures
            r == magnitude(*self),
            r.scaled() == abs(self.scaled()),
    {
        proof {
            use_type_invariant(self);
            let p = pow10((28 - self.places()) as nat);
            lemma_pow10((28 - self.places()) as nat);
            lemma_abs_product(self.signed(), p);
        }
        Amount { negative: false, units: self.units, places: self.places }
    }

    /// `rust_decimal`'s `+`. It panics where the integer part of the sum needs more
    /// than 96 bits. Where one side is zero it gives the other; where both sides and
    /// the sum fit with the larger number of places it is exact; otherwise it rounds
    /// to the nearest at the largest number of places that fits, which moves the sum by
    /// less than one, and never beyond the side that was added to.
    #[verifier::external_body]
    pub(crate) fn added(&self, other: &Amount) -> (r: Amount)
        requires
            abs(self.scaled() + other.scaled()) <= limit(),
        ensures
            r == plus(*self, *other),
            self.units() != 0 && other.units() != 0 && !sum_fits(*self, *other) ==> (
                r.sign(), r.units(), r.places()) == rounded_sum(
                self.sign(),
                self.units(),
                self.places(),
                other.sign(),
                other.units(),
                other.places(),
            ),
            abs(r.scaled() - (self.scaled() + other.scaled())) <= one(),
            other.scaled() <= 0 ==> r.scaled() <= self.scaled(),
            other.scaled() >= 0 ==> r.scaled() >= self.scaled(),
    {
        let mut x = Decimal::from_i128_with_scale(self.units as i128, self.places);
        x.set_sign_negative(self.negative);
        let mut y = Decimal::from_i128_with_scale(other.units as i128, other.places);
        y.set_sign_negative(other.negative);
        let z = x + y;
        Amount { negative: z.is_sign_negative(), units: z.mantissa().unsigned_abs(), places: z.scale() }
    }

    /// `rust_decimal`'s `*`. It panics where the integer part of the product needs
    /// more than 96 bits. A zero factor gives zero without places; where the product
    /// of the units fits and needs at most 28 places it is exact; otherwise it rounds
    /// at a smaller number of places, which moves the product by less than one. The
    /// signs decide the sign, and a product that rounds to zero may keep it.
    #[verifier::external_body]
    pub(crate) fn multiplied(&self, other: &Amount) -> (r: Amount)
        requires
            abs(self.scaled()) * abs(other.scaled()) <= limit() * one(),
        ensures
            r == times(*self, *other),
            self.units() != 0 && other.units() != 0 && !product_fits(*self, *other) ==> (
                r.sign(), r.units(), r.places()) == rounded_product(
                self.sign(),
                self.units(),
                self.places(),
                other.sign(),
                other.units(),
                other.places(),
            ),
            r.sign() ==> self.sign() != other.sign(),
            r.units() != 0 ==> r.sign() == (self.sign() != other.sign()),
            abs(r.scaled()) * one() <= abs(self.scaled()) * abs(other.scaled()) + one() * one(),
            abs(r.scaled() * one() - self.scaled() * other.scaled()) <= one() * one(),
    {
        let mut x = Decimal::from_i128_with_scale(self.units as i128, self.places);
        x.set_sign_negative(self.negative);
        let mut y = Decimal::from_i128_with_scale(other.units as i128, other.places);
        y.set_sign_negative(other.negative);
        let z = x * y;
        Amount { negative: z.is_sign_negative(), units: z.mantissa().unsigned_abs(), places: z.scale() }
    }

    /// `rust_decimal`'s `/`. It panics on a zero divisor, and where the integer part
    /// of the quotient needs more than 96 bits. Zero divided gives zero without
    /// places; where the units divide and the places suffice it is exact; otherwise
    /// it adds places up to what fits and rounds there, which moves the quotient by
    /// less than one. The signs decide the sign; a zero has none.
    #[verifier::external_body]
    pub(crate) fn divided(&self, other: &Amount) -> (r: Amount)
        requires
            other.units() != 0,
            abs(self.scaled()) <= (max_units() - 1) * abs(other.scaled()),
        ensures
            r == quotient(*self, *other),
            self.units() != 0 && !(self.units() % other.units() == 0 && self.places()
                >= other.places()) ==> (r.sign(), r.units(), r.places()) == rounded_quotient(
                self.sign(),
                self.units(),
                self.places(),
                other.sign(),
                other.units(),
                other.places(),
            ),
            r.sign() ==> self.sign() != other.sign(),
            r.units() != 0 ==> r.sign() == (self.sign() != other.sign()),
            abs(r.scaled()) * abs(other.scaled()) <= (abs(self.scaled()) + abs(other.scaled()))
                * one(),
            abs(r.scaled() * other.scaled() - self.scaled() * one()) <= abs(other.scaled())
                * one(),
    {
        let mut x = Decimal::from_i128_with_scale(self.units as i128, self.places);
        x.set_sign_negative(self.negative);
        let mut y = Decimal::from_i128_with_scale(other.units as i128, other.places);
        y.set_sign_negative(other.negative);
        let z = x / y;
        Amount { negative: z.is_sign_negative(), units: z.mantissa().unsigned_abs(), places: z.scale() }
    }

    /// `rust_decimal`'s `<` compares the numbers that the amounts stand for.
    #[verifier::external_body]
    pub(crate) fn is_less(&self, other: &Amount) -> (r: bool)
        ensures
            r == (self.scaled() < other.scaled()),
    {
        let mut x = Decimal::from_i128_with_scale(self.units as i128, self.places);
        x.set_sign_negative(self.negative);
        let mut y = Decimal::from_i128_with_scale(other.units as i128, other.places);
        y.set_sign_negative(other.negative);
        x < y
    }

    /// `rust_decimal`'s `round_dp`: at most `dp` decimal places, a half going to the
    /// even neighbour; an amount with no more than `dp` places stays as it is.
    #[verifier::external_body]
    pub(crate) fn round_dp(&self, dp: u32) -> (r: Amount)
        requires
            dp <= 28,
        ensures
            r == rounded(*self, dp as nat),
    {
        let mut x = Decimal::from_i128_with_scale(self.units as i128, self.places);
        x.set_sign_negative(self.negative);
        let z = x.round_dp(dp);
        Amount { negative: z.is_sign_negative(), units: z.mantissa().unsigned_abs(), places: z.scale() }
    }

    /// `rust_decimal`'s `Display` with a precision of at most two, of an amount with no
    /// more places than that: the sign where it is set, the whole part, and, where the
    /// precision is not zero, a point and that many digits.
    #[verifier::external_body]
    pub(crate) fn fixed(&self, precision: usize) -> (r: String)
        requires
            self.places() <= precision <= 2,
        ensures
            r@ == fixed_text(*self, precision as nat),
    {
        let mut x = Decimal::from_i128_with_scale(self.units as i128, self.places);
        x.set_sign_negative(self.negative);
        format!("{:.1$}", x, precision)
    }

    /// The amount with all its decimal places.
    pub fn exact(&self) -> (r: String)
        ensures
            r@ == exact_text(*self),
    {
        proof {
            use_type_invariant(self);
            lemma_one();
        }
        let mut step: u128 = 1;
        let mut i: u32 = 0;
        while i < self.places
            invariant
                i <= self.places <= 28,
                step == pow10(i as nat),
                one() == pow10(28),
            decreases self.places - i,
        {
            proof {
                lemma_pow10_grows((i + 1) as nat, 28);
            }
            step = step * 10;
            i = i + 1;
        }
        proof {
            lemma_pow10(self.places());
            assert(units_at(*self, self.places()) == self.units()) by {
                assert(pow10(0) == 1);
                assert(self.units() * 1 == self.units());
            }
        }
        let mut out: Vec<char> = Vec::new();
        if self.negative {
            out.push('-');
        }
        append_chars(&mut out, &padded_digits(self.units / step, 0));
        assert(out@ =~= (if self.sign() {
            seq!['-']
        } else {
            Seq::<char>::empty()
        }) + whole_text(*self, self.places()));
        if self.places > 0 {
            out.push('.');
            append_chars(&mut out, &padded_digits(self.units % step, self.places as usize));
        }
        assert(out@ =~= exact_text(*self));
        from_chars(&out)
    }

    /// The difference.
    pub(crate) fn subtracted(&self, other: &Amount) -> (r: Amount)
        requires
            abs(self.scaled() - other.scaled()) <= limit(),
        ensures
            r == minus(*self, *other),
            abs(r.scaled() - (self.scaled() - other.scaled())) <= one(),
            other.scaled() >= 0 ==> r.scaled() <= self.scaled(),
            other.scaled() <= 0 ==> r.scaled() >= self.scaled(),
    {
        if self.units == 0 && other.units == 0 {
            proof {
                lemma_zero_scaled(*self);
                lemma_zero_scaled(*other);
            }
            *other
        } else {
            let n = other.neg();
            self.added(&n)
        }
    }

    /// Whether the two stand for the same number.
    pub(crate) fn is_same(&self, other: &Amount) -> (r: bool)
        ensures
            r == (self.scaled() == other.scaled()),
    {
        !self.is_less(other) && !other.is_less(self)
    }

    /// The whole number that an amount without places stands for, where 64 bits hold it.
    pub fn to_i64(&self) -> (r: Option<i64>)
        requires
            self.places() == 0,
        ensures
            r == (if i64::MIN <= self.signed() <= i64::MAX {
                Some(self.signed() as i64)
            } else {
                None
            }),
    {
        if self.negative {
            if self.units > 0x8000_0000_0000_0000 {
                None
            } else {
                Some((-(self.units as i128)) as i64)
            }
        } else if self.units > 0x7fff_ffff_ffff_ffff {
            None
        } else {
            Some(self.units as i64)
        }
    }

    /// Whether the amount is below zero.
    pub fn is_below_zero(&self) -> (r: bool)
        ensures
            r == (self.scaled() < 0),
    {
        let z = Amount::none();
        proof {
            lemma_zero_scaled(z);
        }
        self.is_less(&z)
    }

    /// Whether the amount is above zero.
    pub fn is_above_zero(&self) -> (r: bool)
        ensures
            r == (self.scaled() > 0),
    {
        let z = Amount::none();
        proof {
            lemma_zero_scaled(z);
        }
        z.is_less(self)
    }
}

/// What `rust_decimal` reads from a text: sign, units and places.
pub uninterp spec fn parsed_decimal(text: Seq<char>) -> Option<(bool, nat, nat)>;

/// The parts of a number written plainly: a minus sign or none, digits, and a point
/// with digits behind it or none, at most 28 digits in all.
pub open spec fn plain_decimal(sign: bool, whole: Seq<char>, fraction: Seq<char>) -> Seq<char> {
    (if sign {
        seq!['-']
    } else {
        Seq::empty()
    }) + whole + (if fraction.len() > 0 {
        seq!['.'] + fraction
    } else {
        Seq::empty()
    })
}

/// `rust_decimal`'s `Decimal::from_str`. Besides what it reads from other texts, a
/// number written plainly is read as its digits, with as many places as there are
/// digits behind the point; a zero carries no sign.
#[verifier::external_body]
pub(crate) fn parse_amount(text: &str) -> (r: Option<Amount>)
    ensures
        match r {
            Some(a) => a.in_range() && parsed_decimal(text@) == Some(
                (a.sign(), a.units(), a.places()),
            ),
            None => parsed_decimal(text@) is None,
        },
        forall|sign: bool, whole: Seq<char>, fraction: Seq<char>|
            text@ == #[trigger] plain_decimal(sign, whole, fraction) && whole.len() > 0
                && whole.len() + fraction.len() <= 28 && all_digits(whole) && all_digits(fraction)
                ==> r == Some(
                from_signed(
                    (if sign {
                        -(digits_value(whole + fraction) as int)
                    } else {
                        digits_value(whole + fraction) as int
                    }),
                    fraction.len(),
                ),
            ),
{
    match text.parse::<Decimal>() {
        Ok(z) => Some(
            Amount { negative: z.is_sign_negative(), units: z.mantissa().unsigned_abs(), places: z.scale() },
        ),
        Err(_) => None,
    }
}

/// The amount that a text names.
pub fn amount_from_text(text: &str) -> (r: Result<Amount, String>)
    ensures
        match r {
            Ok(a) => parsed_decimal(text@) == Some((a.sign(), a.units(), a.places())),
            Err(e) => parsed_decimal(text@) is None && e@ == "valor inválido: "@ + text@,
        },
{
    match parse_amount(text) {
        Some(a) => Ok(a),
        None => Err(crate::text::glue("valor inválido: ", text)),
    }
}

pub proof fn lemma_abs_product(a: int, p: int)
    requires
        p >= 0,
    ensures
        abs(a * p) == abs(a) * p,
{
    if a < 0 {
        assert(a * p <= 0 && (-a) * p == -(a * p)) by (nonlinear_arith)
            requires
                a < 0,
                p >= 0,
        ;
    } else {
        assert(a * p >= 0) by (nonlinear_arith)
            requires
                a >= 0,
                p >= 0,
        ;
    }
}

/// No amount is larger than the limit.
pub proof fn lemma_in_limit(a: Amount)
    requires
        a.in_range(),
    ensures
        abs(a.scaled()) <= limit(),
{
    lemma_one();
    let p = pow10((28 - a.places()) as nat);
    lemma_pow10((28 - a.places()) as nat);
    lemma_pow10(a.places());
    lemma_pow10_sum((28 - a.places()) as nat, a.places());
    let q = pow10(a.places());
    assert(p * q == one());
    lemma_abs_product(a.signed(), p);
    let u = abs(a.signed());
    assert(u * p <= max_units() * one()) by (nonlinear_arith)
        requires
            0 <= u <= max_units(),
            p >= 1,
            q >= 1,
            p * q == one(),
    ;
}

/// An amount without units stands for zero.
pub proof fn lemma_zero_scaled(a: Amount)
    ensures
        a.units() == 0 ==> a.scaled() == 0,
        a.units() > 0 && a.in_range() ==> a.scaled() != 0 && (a.sign() <==> a.scaled() < 0),
{
    let p = pow10((28 - a.places()) as nat);
    lemma_pow10((28 - a.places()) as nat);
    if a.units() == 0 {
        assert(a.signed() * p == 0) by (nonlinear_arith)
            requires
                a.signed() == 0,
        ;
    } else if a.sign() {
        assert(a.signed() * p < 0) by (nonlinear_arith)
            requires
                a.signed() < 0,
                p >= 1,
        ;
    } else {
        assert(a.signed() * p > 0) by (nonlinear_arith)
            requires
                a.signed() > 0,
                p >= 1,
        ;
    }
}

/// The text of an amount with all its decimal places tells the amount: no two have the
/// same.
pub proof fn law_exact_text_tells_amount(a: Amount, b: Amount)
    requires
        a.in_range(),
        b.in_range(),
        exact_text(a) == exact_text(b),
    ensures
        a.sign() == b.sign(),
        a.units() == b.units(),
        a.places() == b.places(),
{
    let s = exact_text(a);
    let (p, q) = (a.places(), b.places());
    let (w, v) = (whole_text(a, p), whole_text(b, q));
    lemma_exact_parts(a);
    lemma_exact_parts(b);
    if a.sign() != b.sign() {
        assert(s[0] == '-' <==> a.sign());
        assert(s[0] == '-' <==> b.sign());
    }
    let k: int = if a.sign() {
        1
    } else {
        0
    };
    if w.len() < v.len() {
        assert(s[k + w.len()] == v[w.len() as int]);
        assert(p > 0);
        assert(s[k + w.len()] == '.');
    }
    if v.len() < w.len() {
        assert(s[k + v.len()] == w[v.len() as int]);
        assert(q > 0);
        assert(s[k + v.len()] == '.');
    }
    assert(w =~= s.subrange(k, k + w.len()));
    assert(v =~= s.subrange(k, k + v.len()));
    if p > 0 {
        assert(fraction_text(a, p) =~= s.skip(k + w.len() + 1));
        assert(fraction_text(b, q) =~= s.skip(k + v.len() + 1));
    }
}

proof fn lemma_exact_parts(a: Amount)
    requires
        a.in_range(),
    ensures
        whole_text(a, a.places()).len() >= 1,
        all_digits(whole_text(a, a.places())),
        a.places() > 0 ==> fraction_text(a, a.places()).len() == a.places(),
        exact_text(a).len() == (if a.sign() {
            1int
        } else {
            0
        }) + whole_text(a, a.places()).len() + (if a.places() > 0 {
            1 + a.places()
        } else {
            0
        }),
        a.places() == 0 ==> a.units() == digits_value(whole_text(a, a.places())),
        a.places() > 0 ==> a.units() == digits_value(whole_text(a, a.places())) * pow10(a.places())
            + digits_value(fraction_text(a, a.places())),
{
    let p = a.places();
    let n = a.units();
    lemma_pow10(p);
    assert(units_at(a, p) == n) by {
        assert(pow10(0) == 1);
        assert(n * 1 == n);
    }
    let t = pow10(p) as nat;
    lemma_digits(n / t);
    lemma_digits_value(n / t);
    assert(n == (n / t) * t + n % t && n % t < t) by (nonlinear_arith)
        requires
            t > 0,
    ;
    if p > 0 {
        lemma_padded(n % t, p);
    } else {
        assert(t == 1);
        assert(n / 1 == n);
    }
}

/// A sum that keeps its places is exact.
pub proof fn law_plus_exact(a: Amount, b: Amount)
    requires
        a.in_range(),
        b.in_range(),
        sum_fits(a, b),
    ensures
        plus(a, b).scaled() == a.scaled() + b.scaled(),
{
    lemma_zero_scaled(a);
    lemma_zero_scaled(b);
    if a.units() != 0 && b.units() != 0 {
        let p = max_places(a, b);
        let k = pow10((28 - p) as nat);
        lemma_pow10_sum((p - a.places()) as nat, (28 - p) as nat);
        lemma_pow10_sum((p - b.places()) as nat, (28 - p) as nat);
        let x = pow10((p - a.places()) as nat);
        let y = pow10((p - b.places()) as nat);
        assert((p - a.places()) as nat + (28 - p) as nat == (28 - a.places()) as nat);
        assert((p - b.places()) as nat + (28 - p) as nat == (28 - b.places()) as nat);
        let m = aligned(a, p) + aligned(b, p);
        assert(plus(a, b).signed() == m);
        assert((a.signed() * x + b.signed() * y) * k == a.signed() * (x * k) + b.signed() * (y * k))
            by (nonlinear_arith);
    }
}

// ---------------------------------------------------------------------------
// Sums of many amounts

/// The amounts added one after the other, beginning with zero.
pub open spec fn sum_of(s: Seq<Amount>) -> Amount
    decreases s.len(),
{
    if s.len() == 0 {
        zero()
    } else {
        plus(sum_of(s.drop_last()), s.last())
    }
}

/// The exact total, counted in the smallest step.
pub open spec fn exact_sum(s: Seq<Amount>) -> int
    decreases s.len(),
{
    if s.len() == 0 {
        0
    } else {
        exact_sum(s.drop_last()) + s.last().scaled()
    }
}

/// Whether no partial sum can leave the range of amounts: the exact partial sums
/// stay below the largest amount, with one to spare for each rounding.
pub open spec fn sums_fit(s: Seq<Amount>) -> bool {
    forall|k: int|
        0 <= k <= s.len() ==> abs(#[trigger] exact_sum(s.take(k))) + k * one() <= limit()
}

/// The sum of a list of amounts.
pub fn total(v: &Vec<Amount>) -> (r: Amount)
    requires
        sums_fit(v@),
    ensures
        r == sum_of(v@),
        abs(r.scaled() - exact_sum(v@)) <= v.len() * one(),
{
    let mut acc = Amount::none();
    let mut i: usize = 0;
    proof {
        lemma_zero_scaled(zero());
        assert(v@.take(0) =~= Seq::<Amount>::empty());
    }
    while i < v.len()
        invariant
            i <= v.len(),
            sums_fit(v@),
            acc == sum_of(v@.take(i as int)),
            abs(acc.scaled() - exact_sum(v@.take(i as int))) <= i * one(),
        decreases v.len() - i,
    {
        proof {
            assert(v@.take(i + 1).drop_last() =~= v@.take(i as int));
            assert(abs(exact_sum(v@.take(i + 1))) + (i + 1) * one() <= limit());
            assert((i + 1) * one() == i * one() + one()) by (nonlinear_arith);
        }
        acc = acc.added(&v[i]);
        i = i + 1;
    }
    assert(v@.take(i as int) =~= v@);
    acc
}

/// Where each partial sum keeps its places, the sum is exact.
pub proof fn law_sum_exact(s: Seq<Amount>)
    requires
        forall|i: int| 0 <= i < s.len() ==> (#[trigger] s[i]).in_range(),
        forall|k: int|
            0 <= k < s.len() ==> sum_of(#[trigger] s.take(k)).in_range() && sum_fits(
                sum_of(s.take(k)),
                s[k],
            ),
    ensures
        sum_of(s).scaled() == exact_sum(s),
    decreases s.len(),
{
    if s.len() == 0 {
        lemma_zero_scaled(zero());
    } else {
        let t = s.drop_last();
        assert(s.take(s.len() - 1) =~= t);
        assert forall|k: int| 0 <= k < t.len() implies sum_of(#[trigger] t.take(k)).in_range()
            && sum_fits(sum_of(t.take(k)), t[k]) by {
            assert(t.take(k) =~= s.take(k));
        }
        law_sum_exact(t);
        law_plus_exact(sum_of(t), s.last());
    }
}

} // verus!
