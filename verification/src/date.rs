//! Calendar dates and months.

use crate::amount::{abs, lemma_padded, lemma_zeros, pow10};
use crate::text::{
    all_digits, append_chars, digits, digits_value, from_chars, glue, glue3, lemma_digits,
    lemma_digits_value, padded_digits, zero_padded,
};
use chrono::{Datelike, NaiveDate};
use vstd::arithmetic::div_mod::lemma_mod_multiples_vanish;
use vstd::prelude::*;

verus! {

/// The first and the last year that a date can have.
pub const MIN_YEAR: i32 = -262143;

pub const MAX_YEAR: i32 = 262142;

/// The longest span of days that a `chrono` duration holds.
pub const MOST_DAYS: i64 = 106_751_991_167;

pub open spec fn leap_year(y: int) -> bool {
    y % 4 == 0 && (y % 100 != 0 || y % 400 == 0)
}

/// How many days the month has.
pub open spec fn month_length(y: int, m: int) -> int {
    if m == 2 {
        if leap_year(y) {
            29
        } else {
            28
        }
    } else if m == 4 || m == 6 || m == 9 || m == 11 {
        30
    } else {
        31
    }
}

/// Whether the three numbers name a day of the calendar.
pub open spec fn valid_date(y: int, m: int, d: int) -> bool {
    MIN_YEAR <= y <= MAX_YEAR && 1 <= m <= 12 && 1 <= d <= month_length(y, m)
}

/// How many days of the year lie before the month.
pub open spec fn days_before_month(y: int, m: int) -> int
    decreases m,
{
    if m <= 1 {
        0
    } else {
        days_before_month(y, m - 1) + month_length(y, m - 1)
    }
}

/// The days counted from the first of January of the year 1, which is day 1.
pub open spec fn day_count(y: int, m: int, d: int) -> int {
    365 * (y - 1) + (y - 1) / 4 - (y - 1) / 100 + (y - 1) / 400 + days_before_month(y, m) + d
}

/// Whether the calendar reaches to the day with that number.
pub open spec fn in_calendar(n: int) -> bool {
    day_count(MIN_YEAR as int, 1, 1) <= n <= day_count(MAX_YEAR as int, 12, 31)
}

/// A day of the calendar.
#[derive(Clone, Copy, Debug)]
pub struct Date {
    year: i32,
    month: u32,
    day: u32,
}

/// The date with these parts.
pub closed spec fn date_of(y: int, m: int, d: int) -> Date {
    Date { year: y as i32, month: m as u32, day: d as u32 }
}

pub broadcast proof fn lemma_date_of(y: int, m: int, d: int)
    requires
        valid_date(y, m, d),
    ensures
        (#[trigger] date_of(y, m, d)).y() == y,
        date_of(y, m, d).m() == m,
        date_of(y, m, d).d() == d,
{
}

/// Two dates with the same parts are the same.
pub proof fn lemma_same_date(a: Date, b: Date)
    requires
        a.y() == b.y(),
        a.m() == b.m(),
        a.d() == b.d(),
    ensures
        a == b,
{
}

impl Date {
    #[verifier::type_invariant]
    spec fn wf(self) -> bool {
        valid_date(self.year as int, self.month as int, self.day as int)
    }

    pub closed spec fn y(self) -> int {
        self.year as int
    }

    pub closed spec fn m(self) -> int {
        self.month as int
    }

    pub closed spec fn d(self) -> int {
        self.day as int
    }

    pub open spec fn valid(self) -> bool {
        valid_date(self.y(), self.m(), self.d())
    }

    /// The days counted from the beginning of the calendar.
    pub open spec fn number(self) -> int {
        day_count(self.y(), self.m(), self.d())
    }

    /// Whether the date comes before the other.
    pub open spec fn before(self, other: Date) -> bool {
        ||| self.y() < other.y()
        ||| self.y() == other.y() && self.m() < other.m()
        ||| self.y() == other.y() && self.m() == other.m() && self.d() < other.d()
    }

    /// The day with these numbers, where the calendar has it.
    pub fn from_ymd_opt(year: i32, month: u32, day: u32) -> (r: Option<Date>)
        ensures
            r == (if valid_date(year as int, month as int, day as int) {
                Some(date_of(year as int, month as int, day as int))
            } else {
                None
            }),
    {
        if year < MIN_YEAR || year > MAX_YEAR || month < 1 || month > 12 || day < 1 || day
            > length_of_month(year, month) {
            return None;
        }
        Some(Date { year, month, day })
    }

    /// Every date is a day of the calendar.
    pub fn known(&self)
        ensures
            self.valid(),
    {
        proof {
            use_type_invariant(self);
        }
    }

    pub fn year(&self) -> (r: i32)
        ensures
            r == self.y(),
            self.valid(),
    {
        proof {
            use_type_invariant(self);
        }
        self.year
    }

    pub fn month(&self) -> (r: u32)
        ensures
            r == self.m(),
            self.valid(),
    {
        proof {
            use_type_invariant(self);
        }
        self.month
    }

    pub fn day(&self) -> (r: u32)
        ensures
            r == self.d(),
            self.valid(),
    {
        proof {
            use_type_invariant(self);
        }
        self.day
    }

    pub fn is_before(&self, other: &Date) -> (r: bool)
        ensures
            r == self.before(*other),
    {
        self.year < other.year || (self.year == other.year && (self.month < other.month || (
        self.month == other.month && self.day < other.day)))
    }

    pub fn is_same_day(&self, other: &Date) -> (r: bool)
        ensures
            r == (*self == *other),
    {
        self.year == other.year && self.month == other.month && self.day == other.day
    }

    /// `chrono`'s `NaiveDate::checked_add_signed` with `Duration::days`: the day that
    /// many days later, where the calendar has it. `Duration::days` panics beyond
    /// `MOST_DAYS`, where 64 bits no longer hold the milliseconds.
    #[verifier::external_body]
    pub(crate) fn plus_days(&self, days: i64) -> (r: Option<Date>)
        requires
            -MOST_DAYS <= days <= MOST_DAYS,
        ensures
            match r {
                Some(d) => d.valid() && d.number() == self.number() + days,
                None => !in_calendar(self.number() + days),
            },
    {
        let date = NaiveDate::from_ymd_opt(self.year, self.month, self.day)?;
        let moved = date.checked_add_signed(chrono::Duration::days(days))?;
        Some(Date { year: moved.year(), month: moved.month(), day: moved.day() })
    }

    /// `chrono`'s difference of two dates, in days.
    #[verifier::external_body]
    pub(crate) fn days_since(&self, other: &Date) -> (r: i64)
        ensures
            r == self.number() - other.number(),
            -200_000_000 <= r <= 200_000_000,
    {
        let a = NaiveDate::from_ymd_opt(self.year, self.month, self.day).unwrap_or_default();
        let b = NaiveDate::from_ymd_opt(other.year, other.month, other.day).unwrap_or_default();
        (a - b).num_days()
    }

    /// `chrono`'s weekday, counted from Monday, which is 0. The first day of the
    /// calendar was a Monday.
    #[verifier::external_body]
    pub(crate) fn weekday(&self) -> (r: u32)
        ensures
            r == (self.number() - 1) % 7,
    {
        let a = NaiveDate::from_ymd_opt(self.year, self.month, self.day).unwrap_or_default();
        a.weekday().num_days_from_monday()
    }
}

/// How many days the month has.
pub fn length_of_month(year: i32, month: u32) -> (r: u32)
    ensures
        r == month_length(year as int, month as int),
        28 <= r <= 31,
{
    if month == 2 {
        let y: u64 = (year as i64 + 4_000_000_000) as u64;
        proof {
            lemma_mod_multiples_vanish(1_000_000_000, year as int, 4);
            lemma_mod_multiples_vanish(40_000_000, year as int, 100);
            lemma_mod_multiples_vanish(10_000_000, year as int, 400);
        }
        if y % 4 == 0 && (y % 100 != 0 || y % 400 == 0) {
            29
        } else {
            28
        }
    } else if month == 4 || month == 6 || month == 9 || month == 11 {
        30
    } else {
        31
    }
}

/// The order of dates is that of their day numbers.
pub proof fn law_dates_ordered_by_number(a: Date, b: Date)
    requires
        a.valid(),
        b.valid(),
    ensures
        a.before(b) <==> a.number() < b.number(),
        a.number() == b.number() ==> a == b,
{
    lemma_month_bounds(a.y(), a.m());
    lemma_month_bounds(b.y(), b.m());
    if a.y() < b.y() {
        lemma_year_step(a.y(), b.y());
    } else if b.y() < a.y() {
        lemma_year_step(b.y(), a.y());
    } else if a.m() < b.m() {
        lemma_month_step(a.y(), a.m(), b.m());
    } else if b.m() < a.m() {
        lemma_month_step(a.y(), b.m(), a.m());
    } else {
        lemma_same_date_when(a, b);
    }
}

proof fn lemma_same_date_when(a: Date, b: Date)
    ensures
        a.y() == b.y() && a.m() == b.m() && a.d() == b.d() ==> a == b,
{
}

proof fn lemma_month_bounds(y: int, m: int)
    requires
        1 <= m <= 12,
    ensures
        days_before_month(y, m) >= 0,
        days_before_month(y, m) + month_length(y, m) <= (if leap_year(y) {
            366int
        } else {
            365
        }),
{
    reveal_with_fuel(days_before_month, 13);
}

proof fn lemma_month_step(y: int, m: int, n: int)
    requires
        1 <= m < n <= 12,
    ensures
        days_before_month(y, m) + month_length(y, m) <= days_before_month(y, n),
    decreases n - m,
{
    if n > m + 1 {
        lemma_month_step(y, m, n - 1);
    }
}

/// The days of the years before `y`.
spec fn days_before_year(y: int) -> int {
    365 * (y - 1) + (y - 1) / 4 - (y - 1) / 100 + (y - 1) / 400
}

proof fn lemma_year_one(y: int)
    ensures
        days_before_year(y + 1) == days_before_year(y) + (if leap_year(y) {
            366int
        } else {
            365
        }),
{
    lemma_quotient_step(y, 4);
    lemma_quotient_step(y, 100);
    lemma_quotient_step(y, 400);
    lemma_multiple(y, 100, 4, 25);
    lemma_multiple(y, 400, 100, 4);
}

/// Going up by one moves the quotient only at a multiple of the divisor.
proof fn lemma_quotient_step(y: int, d: int)
    requires
        d > 1,
    ensures
        y / d - (y - 1) / d == (if y % d == 0 {
            1int
        } else {
            0
        }),
{
    let q = y / d;
    let r = y % d;
    vstd::arithmetic::div_mod::lemma_fundamental_div_mod(y, d);
    vstd::arithmetic::div_mod::lemma_mod_bound(y, d);
    if r == 0 {
        assert(y - 1 == (q - 1) * d + (d - 1)) by (nonlinear_arith)
            requires
                y == d * q + r,
                r == 0,
        ;
        vstd::arithmetic::div_mod::lemma_fundamental_div_mod_converse(y - 1, d, q - 1, d - 1);
    } else {
        assert(y - 1 == q * d + (r - 1)) by (nonlinear_arith)
            requires
                y == d * q + r,
        ;
        vstd::arithmetic::div_mod::lemma_fundamental_div_mod_converse(y - 1, d, q, r - 1);
    }
}

/// A multiple of `d` is a multiple of what divides `d`.
proof fn lemma_multiple(y: int, d: int, e: int, k: int)
    requires
        d == e * k,
        e > 0,
        k > 0,
    ensures
        y % d == 0 ==> y % e == 0,
{
    if y % d == 0 {
        assert(d > 0) by (nonlinear_arith)
            requires
                d == e * k,
                e > 0,
                k > 0,
        ;
        vstd::arithmetic::div_mod::lemma_fundamental_div_mod(y, d);
        let q = y / d;
        assert(y == (q * k) * e + 0) by (nonlinear_arith)
            requires
                y == d * q + 0,
                d == e * k,
        ;
        vstd::arithmetic::div_mod::lemma_fundamental_div_mod_converse(y, e, q * k, 0);
    }
}

proof fn lemma_year_step(y: int, z: int)
    requires
        y < z,
    ensures
        days_before_year(y) + (if leap_year(y) {
            366int
        } else {
            365
        }) <= days_before_year(z),
    decreases z - y,
{
    lemma_year_one(z - 1);
    if z > y + 1 {
        lemma_year_step(y, z - 1);
    }
}

/// The calendar reaches to every date.
pub proof fn lemma_day_in_calendar(d: Date)
    requires
        d.valid(),
    ensures
        in_calendar(d.number()),
{
    let first = date_of(MIN_YEAR as int, 1, 1);
    let end = date_of(MAX_YEAR as int, 12, 31);
    law_dates_ordered_by_number(d, first);
    law_dates_ordered_by_number(end, d);
}

// ---------------------------------------------------------------------------
// Dates as text

/// The year as `chrono` writes it: four digits, and a sign where four do not do.
pub open spec fn year_text(y: int) -> Seq<char> {
    if 0 <= y <= 9999 {
        zero_padded(digits(y as nat), 4)
    } else if y < 0 {
        seq!['-'] + zero_padded(digits((-y) as nat), 4)
    } else {
        seq!['+'] + zero_padded(digits(y as nat), 4)
    }
}

pub open spec fn two_digits(n: int) -> Seq<char> {
    zero_padded(digits(n as nat), 2)
}

/// The month of the date: `YYYY-MM`.
pub open spec fn month_text(d: Date) -> Seq<char> {
    year_text(d.y()) + seq!['-'] + two_digits(d.m())
}

/// The date as `YYYY-MM-DD`.
pub open spec fn iso_text(d: Date) -> Seq<char> {
    month_text(d) + seq!['-'] + two_digits(d.d())
}

pub(crate) fn year_chars(y: i32) -> (r: Vec<char>)
    ensures
        r@ == year_text(y as int),
{
    let n: i64 = y as i64;
    let size: u128 = (if n < 0 {
        -n
    } else {
        n
    }) as u128;
    let digits = padded_digits(size, 4);
    if 0 <= y && y <= 9999 {
        return digits;
    }
    let mut out: Vec<char> = Vec::new();
    out.push(
        if y < 0 {
            '-'
        } else {
            '+'
        },
    );
    append_chars(&mut out, &digits);
    assert(out@ =~= year_text(y as int));
    out
}

pub(crate) fn month_chars(d: &Date) -> (r: Vec<char>)
    ensures
        r@ == month_text(*d),
{
    let mut out = year_chars(d.year());
    out.push('-');
    append_chars(&mut out, &padded_digits(d.month() as u128, 2));
    assert(out@ =~= month_text(*d));
    out
}

/// The month of the date: `YYYY-MM`.
pub fn month_ref_for(date: &Date) -> (r: String)
    ensures
        r@ == month_text(*date),
{
    from_chars(&month_chars(date))
}

/// The date as `YYYY-MM-DD`.
pub fn iso(date: &Date) -> (r: String)
    ensures
        r@ == iso_text(*date),
{
    let mut out = month_chars(date);
    out.push('-');
    append_chars(&mut out, &padded_digits(date.day() as u128, 2));
    assert(out@ =~= iso_text(*date));
    from_chars(&out)
}

/// The text of a date tells the date: no two have the same.
pub proof fn law_iso_text_tells_date(a: Date, b: Date)
    requires
        a.valid(),
        b.valid(),
        iso_text(a) == iso_text(b),
    ensures
        a.y() == b.y(),
        a.m() == b.m(),
        a.d() == b.d(),
{
    let s = iso_text(a);
    let n = s.len() as int;
    lemma_iso_parts(a);
    lemma_iso_parts(b);
    assert(two_digits(a.d()) =~= s.subrange(n - 2, n));
    assert(two_digits(b.d()) =~= s.subrange(n - 2, n));
    assert(two_digits(a.m()) =~= s.subrange(n - 5, n - 3));
    assert(two_digits(b.m()) =~= s.subrange(n - 5, n - 3));
    assert(year_text(a.y()) =~= s.take(n - 6));
    assert(year_text(b.y()) =~= s.take(n - 6));
    lemma_year_text(a.y());
    lemma_year_text(b.y());
}

proof fn lemma_iso_parts(d: Date)
    requires
        d.valid(),
    ensures
        two_digits(d.m()).len() == 2,
        two_digits(d.d()).len() == 2,
        digits_value(two_digits(d.m())) == d.m(),
        digits_value(two_digits(d.d())) == d.d(),
        iso_text(d).len() == year_text(d.y()).len() + 6,
{
    assert(pow10(2) == 100) by {
        reveal_with_fuel(pow10, 3);
    }
    lemma_padded(d.m() as nat, 2);
    lemma_padded(d.d() as nat, 2);
}

/// What the year's text tells of it.
proof fn lemma_year_text(y: int)
    ensures
        year_text(y).len() > 0,
        y < 0 <==> year_text(y)[0] == '-',
        y > 9999 <==> year_text(y)[0] == '+',
        0 <= y <= 9999 ==> digits_value(year_text(y)) == y,
        y < 0 ==> digits_value(year_text(y).skip(1)) == -y,
        y > 9999 ==> digits_value(year_text(y).skip(1)) == y,
{
    let n = abs(y) as nat;
    lemma_digits(n);
    lemma_digits_value(n);
    lemma_zeros((4 - digits(n).len()) as nat, digits(n));
    assert(0 <= y <= 9999 || year_text(y).skip(1) =~= zero_padded(digits(n), 4));
    assert(all_digits(zero_padded(digits(n), 4)));
}

/// What `chrono` reads from a text in the form `%Y-%m-%d`.
pub uninterp spec fn parsed_date(text: Seq<char>) -> Option<(int, int, int)>;

/// `chrono`'s `NaiveDate::parse_from_str` with `%Y-%m-%d`. Besides what it reads
/// from other texts, a date written as `YYYY-MM-DD` is read back as that date.
#[verifier::external_body]
pub(crate) fn parse_iso(text: &str) -> (r: Option<Date>)
    ensures
        match r {
            Some(d) => d.valid() && parsed_date(text@) == Some((d.y(), d.m(), d.d())),
            None => parsed_date(text@) is None,
        },
        forall|d: Date|
            d.valid() && 0 <= d.y() <= 9999 && text@ == #[trigger] iso_text(d) ==> r == Some(d),
{
    match NaiveDate::parse_from_str(text, "%Y-%m-%d") {
        Ok(d) => Some(Date { year: d.year(), month: d.month(), day: d.day() }),
        Err(_) => None,
    }
}

/// The date that eight digits name: four for the year, two for the month, two for
/// the day.
pub open spec fn compact_date(s: Seq<char>) -> Option<Date> {
    let y = digits_value(s.take(4)) as int;
    let m = digits_value(s.subrange(4, 6)) as int;
    let d = digits_value(s.subrange(6, 8)) as int;
    if valid_date(y, m, d) {
        Some(date_of(y, m, d))
    } else {
        None
    }
}

/// `chrono`'s `NaiveDate::parse_from_str` with `%Y%m%d`, on eight ASCII digits: the
/// fields have widths four, two and two, and must name a day of the calendar.
#[verifier::external_body]
pub(crate) fn parse_compact(text: &str) -> (r: Option<Date>)
    requires
        text@.len() == 8,
        all_digits(text@),
    ensures
        r == compact_date(text@),
{
    match NaiveDate::parse_from_str(text, "%Y%m%d") {
        Ok(d) => Some(Date { year: d.year(), month: d.month(), day: d.day() }),
        Err(_) => None,
    }
}

// ---------------------------------------------------------------------------
// Months

/// The months counted from the beginning of the calendar.
pub open spec fn month_index(y: int, m: int) -> int {
    12 * y + m - 1
}

/// The first day of the month that a month reference names.
pub open spec fn month_start(value: Seq<char>) -> Option<(int, int, int)> {
    parsed_date(value + "-01"@)
}

/// Reads a month reference: the day that `value` names with `-01` behind it.
pub fn parse_month_ref(value: &str) -> (r: Result<Date, String>)
    ensures
        match r {
            Ok(d) => d.valid() && month_start(value@) == Some((d.y(), d.m(), d.d())),
            Err(e) => month_start(value@) is None && e@ == "month inválido: "@ + value@
                + " (esperado YYYY-MM)"@,
        },
        forall|d: Date|
            d.valid() && 0 <= d.y() <= 9999 && d.d() == 1 && value@ == #[trigger] month_text(d)
                ==> r == Ok::<Date, String>(d),
{
    let text = glue(value, "-01");
    let r = parse_iso(text.as_str());
    proof {
        assert forall|d: Date|
            d.valid() && 0 <= d.y() <= 9999 && d.d() == 1 && value@ == #[trigger] month_text(
                d,
            ) implies r == Some(d) by {
            reveal_strlit("-01");
            reveal_with_fuel(digits, 2);
            assert(digits(1) =~= seq!['1']);
            assert(two_digits(1) =~= seq!['0', '1']);
            assert("-01"@ =~= seq!['-'] + two_digits(1));
            assert(text@ =~= iso_text(d));
        }
    }
    match r {
        Some(d) => Ok(d),
        None => Err(glue3("month inválido: ", value, " (esperado YYYY-MM)")),
    }
}

/// The first day of the month `delta` months away, where the calendar has it.
pub open spec fn shifted_month(date: Date, delta: int) -> Option<Date> {
    let n = month_index(date.y(), date.m()) + delta;
    if valid_date(n / 12, n % 12 + 1, 1) {
        Some(date_of(n / 12, n % 12 + 1, 1))
    } else {
        None
    }
}

/// Moves to the first day of another month.
pub fn shift_month(date: &Date, delta: i32) -> (r: Result<Date, String>)
    requires
        date.m() + delta <= i32::MAX,
    ensures
        match r {
            Ok(d) => shifted_month(*date, delta as int) == Some(d),
            Err(e) => shifted_month(*date, delta as int) is None && e@
                == "Falha ao calcular mês deslocado a partir de "@ + iso_text(*date),
        },
{
    let mut year: i32 = date.year();
    let mut month: i32 = date.month() as i32 + delta;
    let ghost n = month_index(date.y(), date.m()) + delta;
    while month > 12
        invariant
            month_index(year as int, month as int) == n,
            MIN_YEAR <= year <= 1_000_000_000 - month / 12,
        decreases month,
    {
        year = year + 1;
        month = month - 12;
    }
    while month < 1
        invariant
            month <= 12,
            month_index(year as int, month as int) == n,
            year <= 1_000_000_000,
            year >= -1_000_000_000 - month / 12,
        decreases 13 - month,
    {
        year = year - 1;
        month = month + 12;
    }
    assert(n / 12 == year && n % 12 + 1 == month);
    match Date::from_ymd_opt(year, month as u32, 1) {
        Some(d) => Ok(d),
        None => Err(
            glue("Falha ao calcular mês deslocado a partir de ", iso(date).as_str()),
        ),
    }
}

/// Moving to another month and back ends at the first day of the month.
pub proof fn law_shift_month_returns(date: Date, delta: int)
    requires
        date.valid(),
        shifted_month(date, delta) is Some,
    ensures
        shifted_month(shifted_month(date, delta)->0, -delta) == Some(
            date_of(date.y(), date.m(), 1),
        ),
{
    let n = month_index(date.y(), date.m()) + delta;
    let e = shifted_month(date, delta)->0;
    assert(month_index(e.y(), e.m()) == n);
    let k = n - delta;
    assert(k / 12 == date.y() && k % 12 + 1 == date.m());
}

/// A month so many months away lies that many months after, or before where the number is
/// negative, and is told by its first day.
pub proof fn law_shift_month_counts(date: Date, delta: int)
    requires
        date.valid(),
        shifted_month(date, delta) is Some,
    ensures
        ({
            let e = shifted_month(date, delta)->0;
            &&& e.valid()
            &&& e.d() == 1
            &&& 12 * e.y() + e.m() == 12 * date.y() + date.m() + delta
        }),
{
    let n = month_index(date.y(), date.m()) + delta;
    lemma_date_of(n / 12, n % 12 + 1, 1);
}

/// The day after a day counts one more, within a month, from month to month and from year
/// to year.
pub proof fn law_days_count_on(a: Date, b: Date)
    requires
        a.valid(),
        b.valid(),
    ensures
        a.y() == b.y() && a.m() == b.m() ==> b.number() - a.number() == b.d() - a.d(),
        a.y() == b.y() && a.m() + 1 == b.m() && a.d() == month_length(a.y(), a.m()) && b.d() == 1
            ==> b.number() == a.number() + 1,
        a.y() + 1 == b.y() && a.m() == 12 && a.d() == 31 && b.m() == 1 && b.d() == 1 ==> b.number()
            == a.number() + 1,
{
    lemma_year_one(a.y());
    assert(days_before_month(a.y(), 12) + 31 == (if leap_year(a.y()) {
        366int
    } else {
        365
    })) by {
        reveal_with_fuel(days_before_month, 13);
    }
}

/// A month has thirty-one days or thirty, but for February, which has twenty-nine in every
/// fourth year and twenty-eight in the others; of the full centuries only every fourth
/// counts.
pub proof fn law_month_lengths(y: int)
    ensures
        month_length(y, 1) == 31 && month_length(y, 3) == 31 && month_length(y, 5) == 31,
        month_length(y, 7) == 31 && month_length(y, 8) == 31 && month_length(y, 10) == 31,
        month_length(y, 12) == 31 && month_length(y, 4) == 30 && month_length(y, 6) == 30,
        month_length(y, 9) == 30 && month_length(y, 11) == 30,
        month_length(y, 2) == 29 <==> (y % 400 == 0 || (y % 4 == 0 && y % 100 != 0)),
        month_length(y, 2) == 28 <==> !(y % 400 == 0 || (y % 4 == 0 && y % 100 != 0)),
{
    if y % 400 == 0 {
        lemma_multiple(y, 400, 4, 100);
    }
}

/// The month that a scenario is about where none is given: today's.
pub fn default_scenario_month(today: &Date) -> (r: String)
    ensures
        r@ == month_text(*today),
{
    month_ref_for(today)
}

/// The month reference of the month before today's.
pub fn default_closed_cards_month(today: &Date) -> (r: Result<String, String>)
    ensures
        match r {
            Ok(t) => shifted_month(*today, -1) is Some && t@ == month_text(
                shifted_month(*today, -1)->0,
            ),
            Err(e) => shifted_month(*today, -1) is None && e@
                == "Falha ao calcular mês deslocado a partir de "@ + iso_text(
                date_of(today.y(), today.m(), 1),
            ),
        },
{
    neighbour_month(today, -1)
}

fn neighbour_month(today: &Date, delta: i32) -> (r: Result<String, String>)
    requires
        -12 <= delta <= 12,
    ensures
        match r {
            Ok(t) => shifted_month(*today, delta as int) is Some && t@ == month_text(
                shifted_month(*today, delta as int)->0,
            ),
            Err(e) => shifted_month(*today, delta as int) is None && e@
                == "Falha ao calcular mês deslocado a partir de "@ + iso_text(
                date_of(today.y(), today.m(), 1),
            ),
        },
{
    let first = first_of_month(today);
    match shift_month(&first, delta) {
        Ok(d) => Ok(month_ref_for(&d)),
        Err(e) => Err(e),
    }
}

/// The first day of the date's month.
pub fn first_of_month(date: &Date) -> (r: Date)
    ensures
        r == date_of(date.y(), date.m(), 1),
        r.valid(),
{
    proof {
        use_type_invariant(date);
    }
    Date { year: date.year, month: date.month, day: 1 }
}

/// The number of days in the date's month.
pub fn days_in_month(date: &Date) -> (r: u32)
    ensures
        r == month_length(date.y(), date.m()),
        28 <= r <= 31,
        date.d() <= r,
{
    proof {
        use_type_invariant(date);
    }
    length_of_month(date.year, date.month)
}

/// The month as `YYYY-MM`, the year filled up to four characters with its sign.
pub open spec fn plain_month_text(y: int, m: int) -> Seq<char> {
    (if y < 0 {
        seq!['-'] + zero_padded(digits((-y) as nat), 3)
    } else {
        zero_padded(digits(y as nat), 4)
    }) + seq!['-'] + two_digits(m)
}

fn plain_month(y: i32, m: u32) -> (r: String)
    ensures
        r@ == plain_month_text(y as int, m as int),
{
    let n: i64 = y as i64;
    let mut out: Vec<char> = Vec::new();
    if n < 0 {
        out.push('-');
        append_chars(&mut out, &padded_digits((-n) as u128, 3));
    } else {
        append_chars(&mut out, &padded_digits(n as u128, 4));
    }
    out.push('-');
    append_chars(&mut out, &padded_digits(m as u128, 2));
    assert(out@ =~= plain_month_text(y as int, m as int));
    from_chars(&out)
}

/// The month of the date as text.
pub fn month_ref(date: &Date) -> (r: String)
    ensures
        r@ == plain_month_text(date.y(), date.m()),
{
    plain_month(date.year(), date.month())
}

/// The month `n` months before the given one, as text.
pub fn months_back(year: i32, month: u32, n: u32) -> (r: String)
    requires
        1 <= month <= 12,
        n <= i32::MAX,
        month_index(year as int, month as int) - n >= 12 * (i32::MIN as int),
    ensures
        ({
            let k = month_index(year as int, month as int) - n;
            r@ == plain_month_text(k / 12, k % 12 + 1)
        }),
{
    let mut y: i32 = year;
    let mut m: i32 = month as i32 - n as i32;
    let ghost k = month_index(year as int, month as int) - n;
    while m <= 0
        invariant
            m <= 12,
            month_index(y as int, m as int) == k,
            k >= 12 * (i32::MIN as int),
        decreases 13 - m,
    {
        m = m + 12;
        y = y - 1;
    }
    assert(k / 12 == y && k % 12 + 1 == m);
    plain_month(y, m as u32)
}

/// The three months before today's, the latest first.
pub fn last_three_closed_months(today: &Date) -> (r: [String; 3])
    ensures
        forall|i: int|
            0 <= i < 3 ==> ({
                let k = month_index(today.y(), today.m()) - 1 - i;
                (#[trigger] r@[i])@ == plain_month_text(k / 12, k % 12 + 1)
            }),
{
    let y: i32 = today.year();
    let m: u32 = today.month();
    [months_back(y, m, 1), months_back(y, m, 2), months_back(y, m, 3)]
}

/// Portuguese short names of the months.
pub open spec fn month_abbreviation(m: int) -> Seq<char> {
    if m == 1 {
        "jan"@
    } else if m == 2 {
        "fev"@
    } else if m == 3 {
        "mar"@
    } else if m == 4 {
        "abr"@
    } else if m == 5 {
        "mai"@
    } else if m == 6 {
        "jun"@
    } else if m == 7 {
        "jul"@
    } else if m == 8 {
        "ago"@
    } else if m == 9 {
        "set"@
    } else if m == 10 {
        "out"@
    } else if m == 11 {
        "nov"@
    } else {
        "dez"@
    }
}

pub fn month_short(m: u32) -> (r: &'static str)
    requires
        1 <= m <= 12,
    ensures
        r@ == month_abbreviation(m as int),
{
    match m {
        1 => "jan",
        2 => "fev",
        3 => "mar",
        4 => "abr",
        5 => "mai",
        6 => "jun",
        7 => "jul",
        8 => "ago",
        9 => "set",
        10 => "out",
        11 => "nov",
        _ => "dez",
    }
}

/// A number with its sign, as Rust writes it.
pub open spec fn signed_text(n: int) -> Seq<char> {
    if n < 0 {
        seq!['-'] + digits((-n) as nat)
    } else {
        digits(n as nat)
    }
}

pub fn signed_number(n: i64) -> (r: String)
    ensures
        r@ == signed_text(n as int),
{
    let size: i128 = n as i128;
    if size < 0 {
        let mut out: Vec<char> = Vec::new();
        out.push('-');
        append_chars(&mut out, &padded_digits((-size) as u128, 0));
        assert(out@ =~= signed_text(n as int));
        from_chars(&out)
    } else {
        from_chars(&padded_digits(size as u128, 0))
    }
}

/// A date such as `14/mai/2026`.
pub fn short_date_pt(date: &Date) -> (r: String)
    ensures
        r@ == two_digits(date.d()) + "/"@ + month_abbreviation(date.m()) + "/"@ + signed_text(
            date.y(),
        ),
{
    let day = from_chars(&padded_digits(date.day() as u128, 2));
    let head = glue3(day.as_str(), "/", month_short(date.month()));
    glue3(head.as_str(), "/", signed_number(date.year() as i64).as_str())
}

} // verus!
