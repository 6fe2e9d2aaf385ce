//! What a report on card bills asks for, and what it has to fetch.

use crate::cards::CardsMode;
use crate::date::{
    in_calendar, law_dates_ordered_by_number, lemma_day_in_calendar, month_index, month_ref_for,
    month_start, month_text, parse_month_ref, shift_month, shifted_month, Date,
};
use crate::text::{push_text, texts};
use vstd::prelude::*;

verus! {

/// How far back the purchases of a report go, in days: the last closed bill and the one
/// before it.
pub const WINDOW_DAYS: i64 = 90;

/// What a report asks for: the bill of a month, the one still open, or the last closed one.
pub fn choose_bills(month: &Option<String>, next: bool, today: &Date) -> (r: Result<
    (CardsMode, String),
    String,
>)
    ensures
        match r {
            Ok((mode, m)) => match *month {
                Some(given) => month_start(given@) is Some && mode == CardsMode::Specific && m@
                    == given@,
                None => m@ == month_text(*today) && mode == (if next {
                    CardsMode::Next
                } else {
                    CardsMode::Closed
                }),
            },
            Err(e) => *month is Some && month_start(month->Some_0@) is None && e@
                == "month inválido: "@ + month->Some_0@ + " (esperado YYYY-MM)"@,
        },
{
    match month {
        Some(given) => match parse_month_ref(given.as_str()) {
            Ok(_) => Ok((CardsMode::Specific, given.clone())),
            Err(e) => Err(e),
        },
        None => if next {
            Ok((CardsMode::Next, month_ref_for(today)))
        } else {
            Ok((CardsMode::Closed, month_ref_for(today)))
        },
    }
}

/// Whether a window that ends today begins on a day: the one so many days before, or today
/// where the calendar has no such day.
pub open spec fn opens_window(start: Date, today: Date) -> bool {
    &&& start.valid()
    &&& if in_calendar(today.number() - WINDOW_DAYS) {
        start.number() == today.number() - WINDOW_DAYS
    } else {
        start == today
    }
}

/// The months from one day to another.
pub open spec fn months_through(start: Date, end: Date) -> Seq<Seq<char>> {
    Seq::new(
        (month_index(end.y(), end.m()) - month_index(start.y(), start.m()) + 1) as nat,
        |i: int| month_text(shifted_month(start, i)->Some_0),
    )
}

/// The day on which the window of a report begins.
pub fn window_opening(today: &Date) -> (r: Date)
    ensures
        opens_window(r, *today),
{
    match today.plus_days(-WINDOW_DAYS) {
        Some(d) => {
            proof {
                lemma_day_in_calendar(d);
            }
            d
        },
        None => {
            today.known();
            *today
        },
    }
}

/// The months whose purchases a report needs, in order.
pub fn window_months(today: &Date) -> (r: Vec<String>)
    ensures
        exists|start: Date| #[trigger]
            opens_window(start, *today) && texts(r@) == months_through(start, *today),
{
    let start = window_opening(today);
    start.known();
    today.known();
    proof {
        law_dates_ordered_by_number(*today, start);
    }
    let n: i32 = (today.year() - start.year()) * 12 + today.month() as i32 - start.month() as i32
        + 1;
    let ghost want = months_through(start, *today);
    assert(want.len() == n);
    let mut out: Vec<String> = Vec::new();
    let mut i: i32 = 0;
    assert(texts(out@) =~= want.take(0));
    while i < n
        invariant
            0 <= i <= n <= 10_000_000,
            n == month_index(today.y(), today.m()) - month_index(start.y(), start.m()) + 1,
            want == months_through(start, *today),
            want.len() == n,
            start.valid(),
            today.valid(),
            texts(out@) == want.take(i as int),
        decreases n - i,
    {
        let ghost k = month_index(start.y(), start.m()) + i;
        assert(start.y() <= k / 12 <= today.y());
        match shift_month(&start, i) {
            Ok(d) => {
                push_text(&mut out, month_ref_for(&d));
            },
            Err(_) => {
                assert(false);
            },
        }
        i = i + 1;
        assert(texts(out@) =~= want.take(i as int));
    }
    assert(want.take(i as int) =~= want);
    assert(opens_window(start, *today));
    out
}

/// The last month of a window is the current one.
pub proof fn law_window_ends_today(start: Date, today: Date)
    requires
        today.valid(),
        opens_window(start, today),
    ensures
        months_through(start, today).len() > 0,
        months_through(start, today).last() == month_text(today),
{
    broadcast use crate::date::lemma_date_of;

    law_dates_ordered_by_number(today, start);
    let n = month_index(today.y(), today.m());
    let k = month_index(start.y(), start.m());
    assert(shifted_month(start, n - k) == shifted_month(today, 0));
}

} // verus!
