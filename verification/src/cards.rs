//! Card bills: which purchases belong to which bill, which bill a report shows, and
//! whether it was paid.

use crate::amount::{abs, from_signed, limit, magnitude, minus, one, plus, sum_of, times, Amount};
use crate::date::{
    date_of, lemma_day_in_calendar, month_chars, month_text, parse_iso, parsed_date, signed_number,
    signed_text, two_digits, valid_date, Date,
};
use crate::metadata::{
    bill_id_path, billing_day, closing_day_of, day_of_value, extract_bill_id, get, member,
    metadata_billing_day, parse_closing_day, string_at,
};
use crate::order::{as_ints, distinct, lemma_where_at, sorted_keys, where_at};
use crate::records::{
    detect_installment_marker, row_marker, AccountRecord, CardClosedTransactionRow,
    TransactionRecord,
};
use crate::sums::{
    ascending, full_weight, lemma_ascending_weight, modest, picked, total_at, weight,
};
use crate::text::{
    append_chars, chars, contains, from_chars, glue, has_prefix, has_text, padded_digits, precedes,
    lowercase_text, same, slice_chars, starts_with, texts, to_lowercase,
};
use vstd::prelude::*;

verus! {

// ---------------------------------------------------------------------------
// Cycles

/// The cycle that a purchase belongs to. A purchase on the closing day or after it
/// goes to the bill that closes in the next month.
pub open spec fn cycle_of(date: Date, closing_day: int) -> (int, int) {
    if date.d() < closing_day {
        (date.y(), date.m())
    } else if date.m() == 12 {
        (date.y() + 1, 1)
    } else {
        (date.y(), date.m() + 1)
    }
}

/// The identifier of a cycle: `cycle-YYYY-MM-DD`, with the day on which it closes.
pub open spec fn cycle_id(date: Date, closing_day: int) -> Seq<char> {
    let c = cycle_of(date, closing_day);
    "cycle-"@ + signed_text(c.0) + "-"@ + two_digits(c.1) + "-"@ + two_digits(closing_day)
}

/// The identifier of the cycle that a purchase belongs to.
pub fn compute_bill_id(date: &Date, closing_day: u32) -> (r: String)
    ensures
        r@ == cycle_id(*date, closing_day as int),
{
    let (year, month): (i32, u32) = if date.day() < closing_day {
        (date.year(), date.month())
    } else if date.month() == 12 {
        (date.year() + 1, 1)
    } else {
        (date.year(), date.month() + 1)
    };
    let mut out = chars("cycle-");
    append_chars(&mut out, &chars(signed_number(year as i64).as_str()));
    append_chars(&mut out, &chars("-"));
    append_chars(&mut out, &padded_digits(month as u128, 2));
    append_chars(&mut out, &chars("-"));
    append_chars(&mut out, &padded_digits(closing_day as u128, 2));
    from_chars(&out)
}

/// Every purchase belongs to the cycle that closes next after it.
pub proof fn law_cycle_closes_after_purchase(date: Date, closing_day: int)
    requires
        date.valid(),
        1 <= closing_day <= 28,
        valid_date(cycle_of(date, closing_day).0, cycle_of(date, closing_day).1, closing_day),
    ensures
        ({
            let c = cycle_of(date, closing_day);
            date.before(date_of(c.0, c.1, closing_day))
        }),
{
    broadcast use crate::date::lemma_date_of;

}

/// The day that a cycle identifier names, where it is one.
pub open spec fn closing_date_of(bill_id: Seq<char>) -> Option<Date> {
    if has_prefix(bill_id, "cycle-"@) {
        match parsed_date(bill_id.skip(6)) {
            Some((y, m, d)) => Some(date_of(y, m, d)),
            None => None,
        }
    } else {
        None
    }
}

/// The day that a cycle identifier names.
pub fn parse_synthetic_close_date(bill_id: &str) -> (r: Option<Date>)
    ensures
        r == closing_date_of(bill_id@),
{
    if !starts_with(bill_id, "cycle-") {
        return None;
    }
    proof {
        reveal_strlit("cycle-");
    }
    let v = chars(bill_id);
    let rest = from_chars(&slice_chars(&v, 6, v.len()));
    let r = parse_iso(rest.as_str());
    proof {
        broadcast use crate::date::lemma_date_of;

        if r is Some {
            crate::date::lemma_same_date(r->0, date_of(r->0.y(), r->0.m(), r->0.d()));
        }
    }
    r
}

// ---------------------------------------------------------------------------
// Closing days learned from tagged bills

/// The texts without repetition, in the order in which they first appear.
pub open spec fn firsts(keys: Seq<Seq<char>>) -> Seq<Seq<char>>
    decreases keys.len(),
{
    if keys.len() == 0 {
        Seq::empty()
    } else {
        let before = firsts(keys.drop_last());
        if before.contains(keys.last()) {
            before
        } else {
            before.push(keys.last())
        }
    }
}

/// The bill identifiers with which purchases of the account are tagged, each with the
/// day of the purchase.
pub open spec fn tagged(rows: Seq<CardClosedTransactionRow>, account: Seq<char>) -> Seq<
    (Seq<char>, Date),
>
    decreases rows.len(),
{
    if rows.len() == 0 {
        Seq::empty()
    } else {
        let before = tagged(rows.drop_last(), account);
        match string_at(rows.last().metadata_json, bill_id_path()) {
            Some(id) if rows.last().account_id@ == account => before.push(
                (id, rows.last().transaction_date),
            ),
            _ => before,
        }
    }
}

pub open spec fn tag_ids(tags: Seq<(Seq<char>, Date)>) -> Seq<Seq<char>> {
    tags.map_values(|t: (Seq<char>, Date)| t.0)
}

/// The latest day with that identifier.
pub open spec fn latest(tags: Seq<(Seq<char>, Date)>, id: Seq<char>) -> Option<Date>
    decreases tags.len(),
{
    if tags.len() == 0 {
        None
    } else {
        let before = latest(tags.drop_last(), id);
        if tags.last().0 == id {
            match before {
                Some(d) => if d.before(tags.last().1) {
                    Some(tags.last().1)
                } else {
                    before
                },
                None => Some(tags.last().1),
            }
        } else {
            before
        }
    }
}

/// Two days after the last purchase, at most the 28th.
pub open spec fn close_after(d: Date) -> int {
    if d.d() + 2 <= 28 {
        d.d() + 2
    } else {
        28
    }
}

/// The closing days that the tagged bills suggest, one for each bill.
pub open spec fn suggested_days(tags: Seq<(Seq<char>, Date)>) -> Seq<int> {
    firsts(tag_ids(tags)).map_values(|id: Seq<char>| close_after(latest(tags, id)->0))
}

pub open spec fn count_of(days: Seq<int>, d: int) -> nat
    decreases days.len(),
{
    if days.len() == 0 {
        0
    } else {
        count_of(days.drop_last(), d) + (if days.last() == d {
            1nat
        } else {
            0
        })
    }
}

/// Whether the day is suggested most often, the smallest of those that are.
pub open spec fn is_mode(days: Seq<int>, d: int) -> bool {
    &&& count_of(days, d) > 0
    &&& forall|e: int|
        (#[trigger] count_of(days, e)) < count_of(days, d) || (count_of(days, e) == count_of(
            days,
            d,
        ) && d <= e)
}

/// The closing day that the tagged bills suggest; none where there are fewer than two.
pub open spec fn inferred_day(rows: Seq<CardClosedTransactionRow>, account: Seq<char>) -> Option<
    int,
> {
    let days = suggested_days(tagged(rows, account));
    if days.len() < 2 {
        None
    } else {
        Some(choose|d: int| is_mode(days, d))
    }
}

fn position_of(ids: &Vec<String>, id: &str) -> (r: Option<usize>)
    ensures
        match r {
            Some(i) => i < ids@.len() && ids@[i as int]@ == id@,
            None => !texts(ids@).contains(id@),
        },
{
    let mut i: usize = 0;
    while i < ids.len()
        invariant
            i <= ids.len(),
            forall|j: int| 0 <= j < i ==> (#[trigger] ids@[j])@ != id@,
        decreases ids.len() - i,
    {
        if same(ids[i].as_str(), id) {
            return Some(i);
        }
        i = i + 1;
    }
    proof {
        if texts(ids@).contains(id@) {
            let j = choose|j: int| 0 <= j < texts(ids@).len() && texts(ids@)[j] == id@;
            assert(ids@[j]@ == id@);
        }
    }
    None
}

proof fn lemma_firsts_distinct(keys: Seq<Seq<char>>)
    ensures
        firsts(keys).no_duplicates(),
        forall|k: Seq<char>| #[trigger] firsts(keys).contains(k) <==> keys.contains(k),
    decreases keys.len(),
{
    if keys.len() > 0 {
        let t = keys.drop_last();
        lemma_firsts_distinct(t);
        let a = firsts(t);
        let b = firsts(keys);
        assert forall|k: Seq<char>| #[trigger] b.contains(k) <==> keys.contains(k) by {
            if b.contains(k) {
                if k == keys.last() {
                    assert(keys[keys.len() - 1] == k);
                } else {
                    let i = choose|i: int| 0 <= i < b.len() && b[i] == k;
                    assert(a[i] == k);
                    assert(a.contains(k));
                    assert(t.contains(k));
                    let j = choose|j: int| 0 <= j < t.len() && t[j] == k;
                    assert(keys[j] == k);
                }
            }
            if keys.contains(k) {
                if k == keys.last() {
                    if !a.contains(k) {
                        assert(b[a.len() as int] == k);
                    }
                } else {
                    let j = choose|j: int| 0 <= j < keys.len() && keys[j] == k;
                    assert(t[j] == k);
                    assert(a.contains(k));
                    let i = choose|i: int| 0 <= i < a.len() && a[i] == k;
                    assert(b[i] == k);
                }
            }
        }
    }
}

/// The distinct tags of an account with the latest day of each.
fn latest_tags(rows: &Vec<CardClosedTransactionRow>, account: &str) -> (r: (Vec<String>, Vec<Date>))
    ensures
        texts(r.0@) == firsts(tag_ids(tagged(rows@, account@))),
        r.1@.len() == r.0@.len(),
        forall|k: int|
            0 <= k < r.0@.len() ==> latest(tagged(rows@, account@), (#[trigger] r.0@[k])@) == Some(
                r.1@[k],
            ),
{
    let mut ids: Vec<String> = Vec::new();
    let mut dates: Vec<Date> = Vec::new();
    let mut i: usize = 0;
    assert(texts(ids@) =~= firsts(tag_ids(tagged(rows@.take(0), account@))));
    while i < rows.len()
        invariant
            i <= rows.len(),
            texts(ids@) == firsts(tag_ids(tagged(rows@.take(i as int), account@))),
            dates@.len() == ids@.len(),
            forall|k: int|
                0 <= k < ids@.len() ==> latest(
                    tagged(rows@.take(i as int), account@),
                    (#[trigger] ids@[k])@,
                ) == Some(dates@[k]),
        decreases rows.len() - i,
    {
        let ghost before = tagged(rows@.take(i as int), account@);
        let ghost after = tagged(rows@.take(i + 1), account@);
        let ghost old_ids = ids@;
        let ghost old_dates = dates@;
        assert(rows@.take(i + 1).drop_last() =~= rows@.take(i as int));
        if same(rows[i].account_id.as_str(), account) {
            match extract_bill_id(&rows[i].metadata_json) {
                Some(id) => {
                    let date = rows[i].transaction_date;
                    proof {
                        assert(after.drop_last() =~= before);
                        assert(tag_ids(after).drop_last() =~= tag_ids(before));
                        lemma_firsts_distinct(tag_ids(before));
                    }
                    match position_of(&ids, id.as_str()) {
                        Some(k) => {
                            assert(texts(ids@)[k as int] == id@);
                            assert(latest(before, ids@[k as int]@) == Some(dates@[k as int]));
                            if dates[k].is_before(&date) {
                                dates.set(k, date);
                            }
                            assert forall|j: int| 0 <= j < ids@.len() implies latest(
                                after,
                                (#[trigger] ids@[j])@,
                            ) == Some(dates@[j]) by {
                                assert(latest(before, ids@[j]@) == Some(old_dates[j]));
                                if ids@[j]@ == id@ {
                                    assert(texts(ids@)[j] == texts(ids@)[k as int]);
                                }
                            }
                        },
                        None => {
                            ids.push(id);
                            dates.push(date);
                            assert(texts(ids@) =~= texts(old_ids).push(id@));
                            proof {
                                lemma_latest_none(before, id@);
                            }
                            assert forall|j: int| 0 <= j < ids@.len() implies latest(
                                after,
                                (#[trigger] ids@[j])@,
                            ) == Some(dates@[j]) by {
                                if j < old_ids.len() {
                                    assert(old_ids[j] == ids@[j]);
                                    assert(texts(old_ids)[j] == ids@[j]@);
                                    assert(ids@[j]@ != id@);
                                }
                            }
                        },
                    }
                },
                None => {},
            }
        }
        i = i + 1;
    }
    assert(rows@.take(i as int) =~= rows@);
    (ids, dates)
}

proof fn lemma_latest_none(tags: Seq<(Seq<char>, Date)>, id: Seq<char>)
    requires
        !tag_ids(tags).contains(id),
    ensures
        latest(tags, id) is None,
    decreases tags.len(),
{
    if tags.len() > 0 {
        let t = tags.drop_last();
        assert(tag_ids(tags)[tags.len() - 1] == tags.last().0);
        assert forall|k: int| 0 <= k < tag_ids(t).len() implies tag_ids(t)[k] != id by {
            assert(tag_ids(tags)[k] == tag_ids(t)[k]);
        }
        lemma_latest_none(t, id);
    }
}

proof fn lemma_mode_unique(days: Seq<int>, a: int, b: int)
    requires
        is_mode(days, a),
        is_mode(days, b),
    ensures
        a == b,
{
    assert(count_of(days, a) <= count_of(days, b));
    assert(count_of(days, b) <= count_of(days, a));
}

fn day_count_in(days: &Vec<u32>, d: u32) -> (r: usize)
    ensures
        r == count_of(days@.map_values(|x: u32| x as int), d as int),
        r <= days@.len(),
{
    let ghost all = days@.map_values(|x: u32| x as int);
    let mut n: usize = 0;
    let mut i: usize = 0;
    while i < days.len()
        invariant
            i <= days.len(),
            n <= i,
            all == days@.map_values(|x: u32| x as int),
            n == count_of(all.take(i as int), d as int),
        decreases days.len() - i,
    {
        assert(all.take(i + 1).drop_last() =~= all.take(i as int));
        if days[i] == d {
            n = n + 1;
        }
        i = i + 1;
    }
    assert(all.take(i as int) =~= all);
    n
}

proof fn lemma_count_bounds(days: Seq<int>, d: int)
    ensures
        count_of(days, d) > 0 ==> days.contains(d),
        days.contains(d) ==> count_of(days, d) > 0,
    decreases days.len(),
{
    if days.len() > 0 {
        lemma_count_bounds(days.drop_last(), d);
        if days.last() == d {
            assert(days[days.len() - 1] == d);
        } else {
            if days.drop_last().contains(d) {
                let k = choose|k: int|
                    0 <= k < days.drop_last().len() && days.drop_last()[k] == d;
                assert(days[k] == d);
            }
            if days.contains(d) {
                let k = choose|k: int| 0 <= k < days.len() && days[k] == d;
                assert(days.drop_last()[k] == d);
            }
        }
    }
}

/// The closing day of an account, learned from the bills with which its purchases are
/// tagged: the most frequent of two days after each bill's last purchase.
pub fn infer_closing_day_from_pluggy(rows: &Vec<CardClosedTransactionRow>, account: &str) -> (r:
    Option<u32>)
    ensures
        match r {
            Some(d) => inferred_day(rows@, account@) == Some(d as int) && is_mode(
                suggested_days(tagged(rows@, account@)),
                d as int,
            ),
            None => inferred_day(rows@, account@) is None,
        },
{
    let (ids, dates) = latest_tags(rows, account);
    let ghost tags = tagged(rows@, account@);
    let ghost days = suggested_days(tags);
    if ids.len() < 2 {
        return None;
    }
    let mut found: Vec<u32> = Vec::new();
    let mut i: usize = 0;
    while i < dates.len()
        invariant
            i <= dates.len(),
            found@.len() == i,
            forall|k: int|
                0 <= k < i ==> (#[trigger] found@[k]) as int == close_after(dates@[k]),
        decreases dates.len() - i,
    {
        let d: u32 = dates[i].day() + 2;
        found.push(
            if d <= 28 {
                d
            } else {
                28
            },
        );
        i = i + 1;
    }
    let ghost ints = found@.map_values(|x: u32| x as int);
    proof {
        assert(ints =~= days) by {
            assert forall|k: int| 0 <= k < ints.len() implies ints[k] == days[k] by {
                assert(texts(ids@)[k] == ids@[k]@);
                assert(latest(tags, ids@[k]@) == Some(dates@[k]));
                assert(found@[k] as int == close_after(dates@[k]));
            }
        }
    }
    let mut best: u32 = found[0];
    let mut best_count: usize = day_count_in(&found, best);
    let mut k: usize = 1;
    proof {
        assert(ints[0] == best);
        lemma_count_bounds(ints, best as int);
        assert(ints.contains(best as int));
    }
    while k < found.len()
        invariant
            1 <= k <= found.len(),
            ints == found@.map_values(|x: u32| x as int),
            best_count == count_of(ints, best as int),
            best_count > 0,
            forall|j: int|
                0 <= j < k ==> count_of(ints, #[trigger] ints[j]) < best_count || (count_of(
                    ints,
                    ints[j],
                ) == best_count && best <= ints[j]),
        decreases found.len() - k,
    {
        let n: usize = day_count_in(&found, found[k]);
        if n > best_count || (n == best_count && found[k] < best) {
            best = found[k];
            best_count = n;
        }
        assert(ints[k as int] == found@[k as int]);
        k = k + 1;
    }
    proof {
        assert forall|e: int|
            (#[trigger] count_of(ints, e)) < count_of(ints, best as int) || (count_of(ints, e)
                == count_of(ints, best as int) && best <= e) by {
            lemma_count_bounds(ints, e);
            if count_of(ints, e) > 0 {
                let j = choose|j: int| 0 <= j < ints.len() && ints[j] == e;
                assert(count_of(ints, ints[j]) <= best_count);
            }
        }
        assert(is_mode(days, best as int));
        lemma_mode_unique(days, best as int, choose|d: int| is_mode(days, d));
    }
    Some(best)
}

/// The configured closing day of an account: that of the last record with its name
/// that has one.
pub open spec fn configured_day(accounts: Seq<AccountRecord>, account: Seq<char>) -> Option<u32>
    decreases accounts.len(),
{
    if accounts.len() == 0 {
        None
    } else if accounts.last().account_id@ == account && closing_day_of(
        accounts.last().metadata_json,
    ) is Some {
        closing_day_of(accounts.last().metadata_json)
    } else {
        configured_day(accounts.drop_last(), account)
    }
}

/// The closing day of an account: the configured one, else the one learned from its
/// tagged bills.
pub open spec fn closing_day_for(
    accounts: Seq<AccountRecord>,
    rows: Seq<CardClosedTransactionRow>,
    account: Seq<char>,
) -> Option<int> {
    match configured_day(accounts, account) {
        Some(d) => Some(d as int),
        None => inferred_day(rows, account),
    }
}

fn find_configured_day(accounts: &Vec<AccountRecord>, account: &str) -> (r: Option<u32>)
    ensures
        r == configured_day(accounts@, account@),
{
    let mut found: Option<u32> = None;
    let mut i: usize = 0;
    while i < accounts.len()
        invariant
            i <= accounts.len(),
            found == configured_day(accounts@.take(i as int), account@),
        decreases accounts.len() - i,
    {
        assert(accounts@.take(i + 1).drop_last() =~= accounts@.take(i as int));
        if same(accounts[i].account_id.as_str(), account) {
            let d = parse_closing_day(&accounts[i].metadata_json);
            if d.is_some() {
                found = d;
            }
        }
        i = i + 1;
    }
    assert(accounts@.take(i as int) =~= accounts@);
    found
}

/// The configured due day of an account: that of the last record with its name that
/// has one.
pub open spec fn configured_due_day(accounts: Seq<AccountRecord>, account: Seq<char>) -> Option<u32>
    decreases accounts.len(),
{
    if accounts.len() == 0 {
        None
    } else {
        let named = day_of_value(member(accounts.last().metadata_json, "billing_due_day"@));
        if accounts.last().account_id@ == account && named is Some {
            named
        } else {
            configured_due_day(accounts.drop_last(), account)
        }
    }
}

fn find_due_day(accounts: &Vec<AccountRecord>, account: &str) -> (r: Option<u32>)
    ensures
        r == configured_due_day(accounts@, account@),
{
    let mut found: Option<u32> = None;
    let mut i: usize = 0;
    while i < accounts.len()
        invariant
            i <= accounts.len(),
            found == configured_due_day(accounts@.take(i as int), account@),
        decreases accounts.len() - i,
    {
        assert(accounts@.take(i + 1).drop_last() =~= accounts@.take(i as int));
        if same(accounts[i].account_id.as_str(), account) {
            let d = metadata_billing_day(get(&accounts[i].metadata_json, "billing_due_day"));
            if d.is_some() {
                found = d;
            }
        }
        i = i + 1;
    }
    assert(accounts@.take(i as int) =~= accounts@);
    found
}

fn find_closing_day(
    accounts: &Vec<AccountRecord>,
    rows: &Vec<CardClosedTransactionRow>,
    account: &str,
) -> (r: Option<u32>)
    ensures
        match r {
            Some(d) => closing_day_for(accounts@, rows@, account@) == Some(d as int),
            None => closing_day_for(accounts@, rows@, account@) is None,
        },
{
    match find_configured_day(accounts, account) {
        Some(d) => Some(d),
        None => infer_closing_day_from_pluggy(rows, account),
    }
}

// ---------------------------------------------------------------------------
// Bills

/// The bill that a row belongs to: the cycle of its account's closing day; else the
/// bill that it is tagged with; else its calendar month.
pub open spec fn bill_of(
    accounts: Seq<AccountRecord>,
    rows: Seq<CardClosedTransactionRow>,
    row: CardClosedTransactionRow,
) -> Seq<char> {
    match closing_day_for(accounts, rows, row.account_id@) {
        Some(d) => cycle_id(row.transaction_date, d),
        None => match string_at(row.metadata_json, bill_id_path()) {
            Some(id) => id,
            None => "no-bill-"@ + month_text(row.transaction_date),
        },
    }
}

pub open spec fn bills_of_rows(
    accounts: Seq<AccountRecord>,
    rows: Seq<CardClosedTransactionRow>,
) -> Seq<Seq<char>> {
    rows.map_values(|r: CardClosedTransactionRow| bill_of(accounts, rows, r))
}

fn find_bill(
    accounts: &Vec<AccountRecord>,
    rows: &Vec<CardClosedTransactionRow>,
    row: &CardClosedTransactionRow,
) -> (r: String)
    ensures
        r@ == bill_of(accounts@, rows@, *row),
{
    match find_closing_day(accounts, rows, row.account_id.as_str()) {
        Some(d) => compute_bill_id(&row.transaction_date, d),
        None => match extract_bill_id(&row.metadata_json) {
            Some(id) => id,
            None => glue("no-bill-", from_chars(&month_chars(&row.transaction_date)).as_str()),
        },
    }
}

fn find_bills(accounts: &Vec<AccountRecord>, rows: &Vec<CardClosedTransactionRow>) -> (r: Vec<
    String,
>)
    ensures
        texts(r@) == bills_of_rows(accounts@, rows@),
{
    let mut out: Vec<String> = Vec::new();
    let mut i: usize = 0;
    while i < rows.len()
        invariant
            i <= rows.len(),
            texts(out@) == bills_of_rows(accounts@, rows@).take(i as int),
        decreases rows.len() - i,
    {
        let ghost before = texts(out@);
        let bill = find_bill(accounts, rows, &rows[i]);
        out.push(bill);
        assert(texts(out@) =~= before.push(bill@));
        assert(texts(out@) =~= bills_of_rows(accounts@, rows@).take(i + 1));
        i = i + 1;
    }
    assert(texts(out@) =~= bills_of_rows(accounts@, rows@));
    out
}

/// The accounts of the rows.
pub open spec fn accounts_of(rows: Seq<CardClosedTransactionRow>) -> Seq<Seq<char>> {
    rows.map_values(|r: CardClosedTransactionRow| r.account_id@)
}

/// A bill of an account: the rows on it, the day of the latest, and the day on which
/// it closes where its identifier names one.
pub struct Bill {
    pub account: Seq<char>,
    pub bill_id: Seq<char>,
    pub members: Seq<int>,
    pub max_date: Date,
    pub close_date: Option<Date>,
}

/// Whether a row stands on the bill of the account.
pub open spec fn on_bill(
    rows: Seq<CardClosedTransactionRow>,
    bills: Seq<Seq<char>>,
    account: Seq<char>,
    bill_id: Seq<char>,
) -> spec_fn(int) -> bool {
    |i: int| rows[i].account_id@ == account && bills[i] == bill_id
}

/// The rows of an account on a bill.
pub open spec fn members_of(
    rows: Seq<CardClosedTransactionRow>,
    bills: Seq<Seq<char>>,
    account: Seq<char>,
    bill_id: Seq<char>,
) -> Seq<int> {
    where_at(rows.len() as int, on_bill(rows, bills, account, bill_id))
}

/// The latest day among rows.
pub open spec fn latest_day(rows: Seq<CardClosedTransactionRow>, at: Seq<int>) -> Date
    decreases at.len(),
{
    if at.len() <= 1 {
        rows[at[0]].transaction_date
    } else {
        let before = latest_day(rows, at.drop_last());
        let d = rows[at.last()].transaction_date;
        if before.before(d) {
            d
        } else {
            before
        }
    }
}

pub open spec fn bill_view(
    rows: Seq<CardClosedTransactionRow>,
    bills: Seq<Seq<char>>,
    account: Seq<char>,
    bill_id: Seq<char>,
) -> Bill {
    let members = members_of(rows, bills, account, bill_id);
    Bill {
        account,
        bill_id,
        members,
        max_date: latest_day(rows, members),
        close_date: closing_date_of(bill_id),
    }
}

/// Whether a row is one of the account.
pub open spec fn in_account(
    rows: Seq<CardClosedTransactionRow>,
    account: Seq<char>,
) -> spec_fn(int) -> bool {
    |i: int| rows[i].account_id@ == account
}

/// The identifiers of the bills that rows of the account stand on.
pub open spec fn ids_of_account(
    rows: Seq<CardClosedTransactionRow>,
    bills: Seq<Seq<char>>,
    account: Seq<char>,
) -> Seq<Seq<char>> {
    where_at(rows.len() as int, in_account(rows, account)).map_values(|i: int| bills[i])
}

/// The bills of an account, in the order of their identifiers.
pub open spec fn account_bills(
    rows: Seq<CardClosedTransactionRow>,
    bills: Seq<Seq<char>>,
    account: Seq<char>,
) -> Seq<Bill> {
    sorted_keys(ids_of_account(rows, bills, account)).map_values(
        |id: Seq<char>| bill_view(rows, bills, account, id),
    )
}

/// A bill of an account.
pub struct BillCandidate {
    pub account_id: String,
    pub bill_id: String,
    pub members: Vec<usize>,
    pub max_date: Date,
    pub close_date: Option<Date>,
}

impl View for BillCandidate {
    type V = Bill;

    open spec fn view(&self) -> Bill {
        Bill {
            account: self.account_id@,
            bill_id: self.bill_id@,
            members: as_ints(self.members@),
            max_date: self.max_date,
            close_date: self.close_date,
        }
    }
}

pub open spec fn views(bills: Seq<BillCandidate>) -> Seq<Bill> {
    bills.map_values(|b: BillCandidate| b@)
}

fn make_bill(
    rows: &Vec<CardClosedTransactionRow>,
    bills: &Vec<String>,
    account: &String,
    bill_id: &String,
) -> (r: BillCandidate)
    requires
        bills@.len() == rows@.len(),
        exists|i: int|
            0 <= i < rows@.len() && (#[trigger] rows@[i]).account_id@ == account@ && texts(
                bills@,
            )[i] == bill_id@,
    ensures
        r@ == bill_view(rows@, texts(bills@), account@, bill_id@),
        r.members@.len() > 0,
{
    let ghost f = on_bill(rows@, texts(bills@), account@, bill_id@);
    let mut members: Vec<usize> = Vec::new();
    let mut latest: Option<Date> = None;
    let mut i: usize = 0;
    while i < rows.len()
        invariant
            i <= rows.len(),
            bills@.len() == rows@.len(),
            f == on_bill(rows@, texts(bills@), account@, bill_id@),
            as_ints(members@) == where_at(i as int, f),
            match latest {
                Some(d) => members@.len() > 0 && d == latest_day(rows@, as_ints(members@)),
                None => members@.len() == 0,
            },
        decreases rows.len() - i,
    {
        assert(texts(bills@)[i as int] == bills@[i as int]@);
        let ghost before = as_ints(members@);
        if same(rows[i].account_id.as_str(), account.as_str()) && same(
            bills[i].as_str(),
            bill_id.as_str(),
        ) {
            members.push(i);
            assert(as_ints(members@) =~= before.push(i as int));
            assert(as_ints(members@).drop_last() =~= before);
            let date = rows[i].transaction_date;
            latest = match latest {
                Some(d) => if d.is_before(&date) {
                    Some(date)
                } else {
                    Some(d)
                },
                None => Some(date),
            };
        }
        i = i + 1;
    }
    proof {
        let k = choose|k: int|
            0 <= k < rows@.len() && (#[trigger] rows@[k]).account_id@ == account@ && texts(
                bills@,
            )[k] == bill_id@;
        lemma_where_at(rows@.len() as int, f);
        assert(f(k));
        assert(where_at(rows@.len() as int, f).contains(k));
    }
    let max_date = match latest {
        Some(d) => d,
        None => rows[0].transaction_date,
    };
    let close_date = parse_synthetic_close_date(bill_id.as_str());
    let b = BillCandidate {
        account_id: account.clone(),
        bill_id: bill_id.clone(),
        members,
        max_date,
        close_date,
    };
    assert(as_ints(b.members@) == members_of(rows@, texts(bills@), account@, bill_id@));
    b
}

fn bills_of_account(
    rows: &Vec<CardClosedTransactionRow>,
    bills: &Vec<String>,
    account: &String,
) -> (r: Vec<BillCandidate>)
    requires
        bills@.len() == rows@.len(),
    ensures
        views(r@) == account_bills(rows@, texts(bills@), account@),
        forall|k: int| 0 <= k < r@.len() ==> (#[trigger] r@[k]).members@.len() > 0,
{
    let ghost f = in_account(rows@, account@);
    let ghost tb = texts(bills@);
    let mut ids: Vec<String> = Vec::new();
    let mut i: usize = 0;
    assert(texts(ids@) =~= where_at(0, f).map_values(|i: int| tb[i]));
    while i < rows.len()
        invariant
            i <= rows.len(),
            bills@.len() == rows@.len(),
            tb == texts(bills@),
            f == in_account(rows@, account@),
            texts(ids@) == where_at(i as int, f).map_values(|i: int| tb[i]),
        decreases rows.len() - i,
    {
        assert(tb[i as int] == bills@[i as int]@);
        let ghost before = texts(ids@);
        if same(rows[i].account_id.as_str(), account.as_str()) {
            ids.push(bills[i].clone());
            assert(texts(ids@) =~= before.push(tb[i as int]));
            assert(texts(ids@) =~= where_at(i + 1, f).map_values(|i: int| tb[i]));
        }
        i = i + 1;
    }
    assert(texts(ids@) == ids_of_account(rows@, tb, account@));
    let keys = distinct(&ids);
    let mut out: Vec<BillCandidate> = Vec::new();
    let mut k: usize = 0;
    let ghost goal = account_bills(rows@, tb, account@);
    while k < keys.len()
        invariant
            k <= keys.len(),
            bills@.len() == rows@.len(),
            tb == texts(bills@),
            f == in_account(rows@, account@),
            texts(ids@) == where_at(rows@.len() as int, f).map_values(|i: int| tb[i]),
            texts(keys@) == sorted_keys(texts(ids@)),
            texts(ids@) == ids_of_account(rows@, tb, account@),
            goal == account_bills(rows@, tb, account@),
            views(out@) == goal.take(k as int),
            forall|j: int| 0 <= j < out@.len() ==> (#[trigger] out@[j]).members@.len() > 0,
        decreases keys.len() - k,
    {
        proof {
            crate::order::law_sorted_keys(texts(ids@));
            assert(texts(keys@)[k as int] == keys@[k as int]@);
            assert(sorted_keys(texts(ids@)).contains(keys@[k as int]@));
            assert(texts(ids@).contains(keys@[k as int]@));
            let w = where_at(rows@.len() as int, f);
            let j = choose|j: int|
                0 <= j < texts(ids@).len() && texts(ids@)[j] == keys@[k as int]@;
            lemma_where_at(rows@.len() as int, f);
            assert(f(w[j]));
            assert(rows@[w[j]].account_id@ == account@);
        }
        let ghost before = views(out@);
        let b = make_bill(rows, bills, account, &keys[k]);
        out.push(b);
        assert(views(out@) =~= before.push(b@));
        assert(goal[k as int] == b@);
        assert(views(out@) =~= goal.take(k + 1));
        k = k + 1;
    }
    assert(goal.take(k as int) =~= goal);
    out
}

// ---------------------------------------------------------------------------
// Which bill a report shows

/// What a card report asks for: the last closed bill, the one that is still open, or
/// the one of a given month.
#[derive(Clone, Copy, Debug, PartialEq, Eq, Structural)]
pub enum CardsMode {
    Closed,
    Next,
    Specific,
}

/// Whether the bill closed by today.
pub open spec fn is_closed(b: Bill, today: Date) -> bool {
    b.close_date is Some && !today.before(b.close_date->0)
}

/// The closed bill that closed last, the last of several.
pub open spec fn last_closed(bills: Seq<Bill>, today: Date) -> Option<int>
    decreases bills.len(),
{
    if bills.len() == 0 {
        None
    } else {
        let before = last_closed(bills.drop_last(), today);
        if is_closed(bills.last(), today) && (before is None || !bills.last().close_date->0.before(
            bills[before->0].close_date->0,
        )) {
            Some(bills.len() - 1)
        } else {
            before
        }
    }
}

/// The open bill that closes first, the first of several.
pub open spec fn next_to_close(bills: Seq<Bill>, today: Date) -> Option<int>
    decreases bills.len(),
{
    if bills.len() == 0 {
        None
    } else {
        let before = next_to_close(bills.drop_last(), today);
        if bills.last().close_date is Some && today.before(bills.last().close_date->0) && (before
            is None || bills.last().close_date->0.before(bills[before->0].close_date->0)) {
            Some(bills.len() - 1)
        } else {
            before
        }
    }
}

/// The bill with the latest purchase, the first of several, `skip` left out.
pub open spec fn first_latest(bills: Seq<Bill>, skip: int) -> Option<int>
    decreases bills.len(),
{
    if bills.len() == 0 {
        None
    } else {
        let before = first_latest(bills.drop_last(), skip);
        if bills.len() - 1 != skip && (before is None || bills[before->0].max_date.before(
            bills.last().max_date,
        )) {
            Some(bills.len() - 1)
        } else {
            before
        }
    }
}

/// The bill with the latest purchase, the last of several.
pub open spec fn last_latest(bills: Seq<Bill>) -> Option<int>
    decreases bills.len(),
{
    if bills.len() == 0 {
        None
    } else {
        let before = last_latest(bills.drop_last());
        if before is None || !bills.last().max_date.before(bills[before->0].max_date) {
            Some(bills.len() - 1)
        } else {
            before
        }
    }
}

/// The day that a bill is filed under: its closing day, else that of its last purchase.
pub open spec fn filing_day(b: Bill) -> Date {
    match b.close_date {
        Some(d) => d,
        None => b.max_date,
    }
}

/// The first bill that is filed in the month.
pub open spec fn filed_in(bills: Seq<Bill>, month: Seq<char>) -> Option<int>
    decreases bills.len(),
{
    if bills.len() == 0 {
        None
    } else {
        let before = filed_in(bills.drop_last(), month);
        if before is Some {
            before
        } else if month_text(filing_day(bills.last())) == month {
            Some(bills.len() - 1)
        } else {
            None
        }
    }
}

/// The bill that a report shows for an account. Without a closing day known, the bill
/// with the latest purchase counts as the open one.
pub open spec fn picked_bill(
    bills: Seq<Bill>,
    mode: CardsMode,
    today: Date,
    month: Seq<char>,
) -> Option<int> {
    match mode {
        CardsMode::Closed => if last_closed(bills, today) is Some {
            last_closed(bills, today)
        } else {
            match first_latest(bills, -1) {
                Some(top) => if first_latest(bills, top) is Some {
                    first_latest(bills, top)
                } else {
                    Some(top)
                },
                None => None,
            }
        },
        CardsMode::Next => if next_to_close(bills, today) is Some {
            next_to_close(bills, today)
        } else {
            last_latest(bills)
        },
        CardsMode::Specific => filed_in(bills, month),
    }
}

fn find_last_closed(bills: &Vec<BillCandidate>, today: &Date) -> (r: Option<usize>)
    ensures
        match r {
            Some(i) => i < bills@.len() && last_closed(views(bills@), *today) == Some(i as int),
            None => last_closed(views(bills@), *today) is None,
        },
{
    let ghost all = views(bills@);
    let mut best: Option<usize> = None;
    let mut i: usize = 0;
    while i < bills.len()
        invariant
            i <= bills.len(),
            all == views(bills@),
            match best {
                Some(b) => b < i && last_closed(all.take(i as int), *today) == Some(b as int)
                    && is_closed(all[b as int], *today),
                None => last_closed(all.take(i as int), *today) is None,
            },
        decreases bills.len() - i,
    {
        assert(all.take(i + 1).drop_last() =~= all.take(i as int));
        assert(all[i as int] == bills@[i as int]@);
        match bills[i].close_date {
            Some(d) => {
                if !today.is_before(&d) {
                    match best {
                        None => {
                            best = Some(i);
                        },
                        Some(b) => {
                            assert(all[b as int] == bills@[b as int]@);
                            match bills[b].close_date {
                                Some(e) => {
                                    if !d.is_before(&e) {
                                        best = Some(i);
                                    }
                                },
                                None => {},
                            }
                        },
                    }
                }
            },
            None => {},
        }
        i = i + 1;
    }
    assert(all.take(i as int) =~= all);
    best
}

fn find_next_to_close(bills: &Vec<BillCandidate>, today: &Date) -> (r: Option<usize>)
    ensures
        match r {
            Some(i) => i < bills@.len() && next_to_close(views(bills@), *today) == Some(i as int),
            None => next_to_close(views(bills@), *today) is None,
        },
{
    let ghost all = views(bills@);
    let mut best: Option<usize> = None;
    let mut i: usize = 0;
    while i < bills.len()
        invariant
            i <= bills.len(),
            all == views(bills@),
            match best {
                Some(b) => b < i && next_to_close(all.take(i as int), *today) == Some(b as int)
                    && all[b as int].close_date is Some,
                None => next_to_close(all.take(i as int), *today) is None,
            },
        decreases bills.len() - i,
    {
        assert(all.take(i + 1).drop_last() =~= all.take(i as int));
        assert(all[i as int] == bills@[i as int]@);
        match bills[i].close_date {
            Some(d) => {
                if today.is_before(&d) {
                    match best {
                        None => {
                            best = Some(i);
                        },
                        Some(b) => {
                            assert(all[b as int] == bills@[b as int]@);
                            match bills[b].close_date {
                                Some(e) => {
                                    if d.is_before(&e) {
                                        best = Some(i);
                                    }
                                },
                                None => {},
                            }
                        },
                    }
                }
            },
            None => {},
        }
        i = i + 1;
    }
    assert(all.take(i as int) =~= all);
    best
}

fn find_first_latest(bills: &Vec<BillCandidate>, skip: Option<usize>) -> (r: Option<usize>)
    ensures
        ({
            let s = match skip {
                Some(k) => k as int,
                None => -1,
            };
            match r {
                Some(i) => i < bills@.len() && first_latest(views(bills@), s) == Some(i as int),
                None => first_latest(views(bills@), s) is None,
            }
        }),
{
    let ghost all = views(bills@);
    let ghost s = match skip {
        Some(k) => k as int,
        None => -1,
    };
    let mut best: Option<usize> = None;
    let mut i: usize = 0;
    while i < bills.len()
        invariant
            i <= bills.len(),
            all == views(bills@),
            s == (match skip {
                Some(k) => k as int,
                None => -1,
            }),
            match best {
                Some(b) => b < i && first_latest(all.take(i as int), s) == Some(b as int),
                None => first_latest(all.take(i as int), s) is None,
            },
        decreases bills.len() - i,
    {
        assert(all.take(i + 1).drop_last() =~= all.take(i as int));
        assert(all[i as int] == bills@[i as int]@);
        let skipped = match skip {
            Some(k) => k == i,
            None => false,
        };
        if !skipped {
            match best {
                None => {
                    best = Some(i);
                },
                Some(b) => {
                    assert(all[b as int] == bills@[b as int]@);
                    if bills[b].max_date.is_before(&bills[i].max_date) {
                        best = Some(i);
                    }
                },
            }
        }
        i = i + 1;
    }
    assert(all.take(i as int) =~= all);
    best
}

fn find_last_latest(bills: &Vec<BillCandidate>) -> (r: Option<usize>)
    ensures
        match r {
            Some(i) => i < bills@.len() && last_latest(views(bills@)) == Some(i as int),
            None => last_latest(views(bills@)) is None,
        },
{
    let ghost all = views(bills@);
    let mut best: Option<usize> = None;
    let mut i: usize = 0;
    while i < bills.len()
        invariant
            i <= bills.len(),
            all == views(bills@),
            match best {
                Some(b) => b < i && last_latest(all.take(i as int)) == Some(b as int),
                None => last_latest(all.take(i as int)) is None,
            },
        decreases bills.len() - i,
    {
        assert(all.take(i + 1).drop_last() =~= all.take(i as int));
        assert(all[i as int] == bills@[i as int]@);
        match best {
            None => {
                best = Some(i);
            },
            Some(b) => {
                assert(all[b as int] == bills@[b as int]@);
                if !bills[i].max_date.is_before(&bills[b].max_date) {
                    best = Some(i);
                }
            },
        }
        i = i + 1;
    }
    assert(all.take(i as int) =~= all);
    best
}

fn find_filed_in(bills: &Vec<BillCandidate>, month: &str) -> (r: Option<usize>)
    ensures
        match r {
            Some(i) => i < bills@.len() && filed_in(views(bills@), month@) == Some(i as int),
            None => filed_in(views(bills@), month@) is None,
        },
{
    let ghost all = views(bills@);
    let wanted = chars(month);
    let mut best: Option<usize> = None;
    let mut i: usize = 0;
    while i < bills.len()
        invariant
            i <= bills.len(),
            all == views(bills@),
            wanted@ == month@,
            match best {
                Some(b) => b < i && filed_in(all.take(i as int), month@) == Some(b as int),
                None => filed_in(all.take(i as int), month@) is None,
            },
        decreases bills.len() - i,
    {
        assert(all.take(i + 1).drop_last() =~= all.take(i as int));
        assert(all[i as int] == bills@[i as int]@);
        if best.is_none() {
            let day = match bills[i].close_date {
                Some(d) => d,
                None => bills[i].max_date,
            };
            if crate::text::same_chars(&month_chars(&day), &wanted) {
                best = Some(i);
            }
        }
        i = i + 1;
    }
    assert(all.take(i as int) =~= all);
    best
}

/// Picks the bill that a report shows for an account.
pub fn pick_bill(bills: &Vec<BillCandidate>, mode: CardsMode, today: &Date, month: &str) -> (r:
    Option<usize>)
    ensures
        match r {
            Some(i) => i < bills@.len() && picked_bill(views(bills@), mode, *today, month@)
                == Some(i as int),
            None => picked_bill(views(bills@), mode, *today, month@) is None,
        },
{
    match mode {
        CardsMode::Closed => {
            let closed = find_last_closed(bills, today);
            if closed.is_some() {
                return closed;
            }
            let top = find_first_latest(bills, None);
            match top {
                Some(t) => {
                    let second = find_first_latest(bills, Some(t));
                    if second.is_some() {
                        second
                    } else {
                        top
                    }
                },
                None => None,
            }
        },
        CardsMode::Next => {
            let open = find_next_to_close(bills, today);
            if open.is_some() {
                return open;
            }
            find_last_latest(bills)
        },
        CardsMode::Specific => find_filed_in(bills, month),
    }
}

/// Except in a given month, an account with purchases is never left out.
pub proof fn law_account_with_bills_is_shown(
    bills: Seq<Bill>,
    mode: CardsMode,
    today: Date,
    month: Seq<char>,
)
    requires
        bills.len() > 0,
        mode != CardsMode::Specific,
    ensures
        picked_bill(bills, mode, today, month) is Some,
{
}

// ---------------------------------------------------------------------------
// Payments

/// Whether a transaction pays a card bill: money going out, by its category or by
/// its description.
pub open spec fn pays_bill(tx: TransactionRecord) -> bool {
    let text = lowercase_text(tx.raw_description@);
    &&& tx.amount.scaled() < 0
    &&& (tx.category_id is Some && (has_text(tx.category_id->0@, "credit-card-payment"@)
        || has_text(tx.category_id->0@, "pagamento-fatura"@)) || has_text(
        text,
        "pagamento de fatura"@,
    ) || has_text(text, "pagamento cart"@) || has_text(text, "pagamento de cart"@) || has_text(
        text,
        "nubank pagamento"@,
    ))
}

/// Whether a transaction pays a card bill.
pub fn is_bill_payment(tx: &TransactionRecord) -> (r: bool)
    ensures
        r == pays_bill(*tx),
{
    if !tx.amount.is_below_zero() {
        return false;
    }
    match &tx.category_id {
        Some(c) => {
            if contains(c.as_str(), "credit-card-payment") || contains(
                c.as_str(),
                "pagamento-fatura",
            ) {
                return true;
            }
        },
        None => {},
    }
    let text = to_lowercase(tx.raw_description.as_str());
    contains(text.as_str(), "pagamento de fatura") || contains(text.as_str(), "pagamento cart")
        || contains(text.as_str(), "pagamento de cart") || contains(
        text.as_str(),
        "nubank pagamento",
    )
}

/// The day from which a payment counts for a bill: a week before it closes.
pub open spec fn search_start(close: Date) -> int {
    if crate::date::in_calendar(close.number() - 7) {
        close.number() - 7
    } else {
        close.number()
    }
}

/// A tenth of the bill.
pub open spec fn tolerance_of(total: Amount) -> Amount {
    times(total, from_signed(10, 2))
}

/// Whether the amount is within a tenth of the bill.
pub open spec fn near_total(amount: Amount, total: Amount) -> bool {
    minus(total, tolerance_of(total)).scaled() <= magnitude(amount).scaled()
        && magnitude(amount).scaled() <= plus(total, tolerance_of(total)).scaled()
}

/// Whether a payment can be that of the bill.
pub open spec fn may_pay(tx: TransactionRecord, close: Date, total: Amount) -> bool {
    pays_bill(tx) && tx.transaction_date.number() >= search_start(close) && near_total(
        tx.amount,
        total,
    )
}

/// The days between a payment and the closing of a bill.
pub open spec fn payment_gap(tx: TransactionRecord, close: Date) -> int {
    abs(tx.transaction_date.number() - close.number())
}

/// The payment nearest to the closing of a bill, the first of several.
pub open spec fn payment_of(txs: Seq<TransactionRecord>, close: Date, total: Amount) -> Option<int>
    decreases txs.len(),
{
    if txs.len() == 0 {
        None
    } else {
        let before = payment_of(txs.drop_last(), close, total);
        if may_pay(txs.last(), close, total) && (before is None || payment_gap(txs.last(), close)
            < payment_gap(txs[before->0], close)) {
            Some(txs.len() - 1)
        } else {
            before
        }
    }
}

/// Whether a tenth can be added to the bill within the range of amounts.
pub open spec fn tenth_fits(total: Amount) -> bool {
    11 * abs(total.scaled()) + 10 * one() <= 10 * limit()
}

proof fn lemma_tenth(total: Amount, tenth: Amount, r: Amount)
    requires
        total.in_range(),
        tenth == from_signed(10, 2),
    ensures
        abs(total.scaled()) * abs(tenth.scaled()) <= limit() * one(),
        tenth_fits(total) && abs(r.scaled()) * one() <= abs(total.scaled()) * abs(tenth.scaled())
            + one() * one() ==> abs(total.scaled() - r.scaled()) <= limit() && abs(
            total.scaled() + r.scaled(),
        ) <= limit(),
{
    broadcast use crate::amount::lemma_made;

    crate::amount::lemma_one();
    assert(tenth.scaled() == 10 * crate::amount::pow10(26));
    reveal_with_fuel(crate::amount::pow10, 3);
    assert(crate::amount::pow10(28) == 100 * crate::amount::pow10(26));
    let t = tenth.scaled();
    assert(10 * t == one());
    let a = abs(total.scaled());
    crate::amount::lemma_in_limit(total);
    assert(a * t <= limit() * one()) by (nonlinear_arith)
        requires
            0 <= a <= limit(),
            10 * t == one(),
            t >= 0,
            limit() >= 0,
    ;
    if tenth_fits(total) && abs(r.scaled()) * one() <= a * t + one() * one() {
        let x = abs(r.scaled());
        assert(10 * x <= a + 10 * one()) by (nonlinear_arith)
            requires
                x * one() <= a * t + one() * one(),
                10 * t == one(),
                one() > 0,
        ;
    }
}

/// The payment of a bill, where there is one.
pub fn matched_card_payment(
    payments: &Vec<TransactionRecord>,
    close_date: &Date,
    full_total: &Amount,
) -> (r: Option<usize>)
    requires
        tenth_fits(*full_total),
    ensures
        match r {
            Some(i) => i < payments@.len() && payment_of(payments@, *close_date, *full_total)
                == Some(i as int),
            None => payment_of(payments@, *close_date, *full_total) is None,
        },
{
    let tenth = Amount::new(10, 2);
    full_total.known();
    proof {
        lemma_tenth(*full_total, tenth, tenth);
    }
    let tolerance = full_total.multiplied(&tenth);
    proof {
        lemma_tenth(*full_total, tenth, tolerance);
    }
    let lower = full_total.subtracted(&tolerance);
    let upper = full_total.added(&tolerance);
    close_date.known();
    let start = match close_date.plus_days(-7) {
        Some(d) => d,
        None => *close_date,
    };
    proof {
        if start.number() != close_date.number() {
            lemma_day_in_calendar(start);
        } else {
            lemma_day_in_calendar(*close_date);
        }
    }
    let mut best: Option<usize> = None;
    let mut i: usize = 0;
    while i < payments.len()
        invariant
            i <= payments.len(),
            start.number() == search_start(*close_date),
            start.valid(),
            lower == minus(*full_total, tolerance_of(*full_total)),
            upper == plus(*full_total, tolerance_of(*full_total)),
            match best {
                Some(b) => b < i && payment_of(
                    payments@.take(i as int),
                    *close_date,
                    *full_total,
                ) == Some(b as int),
                None => payment_of(payments@.take(i as int), *close_date, *full_total) is None,
            },
        decreases payments.len() - i,
    {
        assert(payments@.take(i + 1).drop_last() =~= payments@.take(i as int));
        let tx = &payments[i];
        let size = tx.amount.abs();
        let since: i64 = tx.transaction_date.days_since(&start);
        if is_bill_payment(tx) && since >= 0 && !size.is_less(&lower) && !upper.is_less(&size) {
            let gap: i64 = tx.transaction_date.days_since(close_date);
            let gap: i64 = if gap < 0 {
                -gap
            } else {
                gap
            };
            match best {
                None => {
                    best = Some(i);
                },
                Some(b) => {
                    let other: i64 = payments[b].transaction_date.days_since(close_date);
                    let other: i64 = if other < 0 {
                        -other
                    } else {
                        other
                    };
                    if gap < other {
                        best = Some(i);
                    }
                },
            }
        }
        i = i + 1;
    }
    assert(payments@.take(i as int) =~= payments@);
    best
}

// ---------------------------------------------------------------------------
// Status

/// Whether a bill was paid, is open, is overdue, or is still being filled.
#[derive(Clone, Copy, Debug, PartialEq, Eq, Structural)]
pub enum BillState {
    Paid,
    Open,
    Overdue,
    Partial,
}

impl BillState {
    /// The name of the state in reports.
    pub fn as_str(self) -> (r: &'static str)
        ensures
            r@ == (match self {
                BillState::Paid => "paid"@,
                BillState::Open => "open"@,
                BillState::Overdue => "overdue"@,
                BillState::Partial => "partial"@,
            }),
    {
        match self {
            BillState::Paid => "paid",
            BillState::Open => "open",
            BillState::Overdue => "overdue",
            BillState::Partial => "partial",
        }
    }
}

/// The status of a bill.
pub struct CardsBillStatus {
    pub state: BillState,
    pub close_date: Date,
    pub due_date: Date,
    pub paid_on: Option<Date>,
    pub total: Amount,
}

/// A week after a bill closes, or the closing day where the calendar ends before that.
pub open spec fn week_after(close: Date) -> int {
    if crate::date::in_calendar(close.number() + 7) {
        close.number() + 7
    } else {
        close.number()
    }
}

/// The next month.
pub open spec fn month_behind(y: int, m: int) -> (int, int) {
    if m == 12 {
        (y + 1, 1)
    } else {
        (y, m + 1)
    }
}

/// The first day with that number in its month that comes after the day.
pub open spec fn next_on(close: Date, n: int) -> Option<Date> {
    let (y, m) = if close.d() < n {
        (close.y(), close.m())
    } else {
        month_behind(close.y(), close.m())
    };
    if valid_date(y, m, n) {
        Some(date_of(y, m, n))
    } else {
        None
    }
}

/// The number of the day on which a bill falls due: the account's due day next after it
/// closes; a week after it closes where the account has none.
pub open spec fn due_number(close: Date, due_day: Option<u32>) -> int {
    match due_day {
        Some(n) => match next_on(close, n as int) {
            Some(d) => d.number(),
            None => week_after(close),
        },
        None => week_after(close),
    }
}

fn find_next_on(close: &Date, n: u32) -> (r: Option<Date>)
    ensures
        r == next_on(*close, n as int),
{
    close.known();
    if close.day() < n {
        Date::from_ymd_opt(close.year(), close.month(), n)
    } else if close.month() == 12 {
        Date::from_ymd_opt(close.year() + 1, 1, n)
    } else {
        Date::from_ymd_opt(close.year(), close.month() + 1, n)
    }
}

fn find_due_date(close: &Date, due_day: Option<u32>) -> (r: Date)
    ensures
        r.valid(),
        r.number() == due_number(*close, due_day),
{
    close.known();
    if let Some(n) = due_day {
        if let Some(d) = find_next_on(close, n) {
            d.known();
            return d;
        }
    }
    match close.plus_days(7) {
        Some(d) => {
            proof {
                lemma_day_in_calendar(d);
            }
            d
        },
        None => *close,
    }
}

/// A bill of an account with a due day falls due on that day of a month, after it
/// closes; the calendar's last month but one is the last that such a bill closes in.
pub proof fn law_due_day_is_kept(close: Date, due_day: u32)
    requires
        close.valid(),
        billing_day(due_day as int),
        valid_date(month_behind(close.y(), close.m()).0, month_behind(close.y(), close.m()).1, 1),
    ensures
        exists|d: Date|
            {
                &&& d.valid()
                &&& #[trigger] d.number() == due_number(close, Some(due_day))
                &&& d.d() == due_day
                &&& close.before(d)
            },
{
    broadcast use crate::date::lemma_date_of;

    let d = next_on(close, due_day as int)->0;
    assert(d.number() == due_number(close, Some(due_day)));
    assert(close.before(d));
}

/// The state of a bill: still being filled where the report looks ahead; open before
/// it closes; then paid where a payment fits; else overdue once the due day is past.
pub open spec fn state_of(
    mode: CardsMode,
    today: Date,
    close: Date,
    due_day: Option<u32>,
    full_total: Amount,
    payments: Seq<TransactionRecord>,
) -> BillState {
    if mode == CardsMode::Next {
        BillState::Partial
    } else if today.before(close) {
        BillState::Open
    } else if payment_of(payments, close, full_total) is Some {
        BillState::Paid
    } else if due_number(close, due_day) < today.number() {
        BillState::Overdue
    } else {
        BillState::Open
    }
}

/// Whether the status is that of the bill.
pub open spec fn tells_status(
    s: CardsBillStatus,
    mode: CardsMode,
    today: Date,
    close: Date,
    due_day: Option<u32>,
    total: Amount,
    full_total: Amount,
    payments: Seq<TransactionRecord>,
) -> bool {
    &&& s.state == state_of(mode, today, close, due_day, full_total, payments)
    &&& s.close_date == close
    &&& s.due_date.number() == due_number(close, due_day)
    &&& s.total == total
    &&& s.paid_on == (if s.state == BillState::Paid {
        Some(payments[payment_of(payments, close, full_total)->0].transaction_date)
    } else {
        None
    })
}

/// The status of a bill. `due_day` is the account's due day, where it has one; `total` is
/// what the report shows; the payment is matched with `full_total`.
pub fn card_bill_status(
    mode: CardsMode,
    today: &Date,
    close_date: &Date,
    due_day: Option<u32>,
    total: Amount,
    full_total: &Amount,
    payments: &Vec<TransactionRecord>,
) -> (r: CardsBillStatus)
    requires
        tenth_fits(*full_total),
    ensures
        tells_status(r, mode, *today, *close_date, due_day, total, *full_total, payments@),
{
    let due_date = find_due_date(close_date, due_day);
    let close = *close_date;
    if mode == CardsMode::Next {
        return CardsBillStatus {
            state: BillState::Partial,
            close_date: close,
            due_date,
            paid_on: None,
            total,
        };
    }
    if today.is_before(close_date) {
        return CardsBillStatus {
            state: BillState::Open,
            close_date: close,
            due_date,
            paid_on: None,
            total,
        };
    }
    match matched_card_payment(payments, close_date, full_total) {
        Some(i) => CardsBillStatus {
            state: BillState::Paid,
            close_date: close,
            due_date,
            paid_on: Some(payments[i].transaction_date),
            total,
        },
        None => {
            let late: i64 = today.days_since(&due_date);
            let state = if late > 0 {
                BillState::Overdue
            } else {
                BillState::Open
            };
            CardsBillStatus { state, close_date: close, due_date, paid_on: None, total }
        },
    }
}

/// A bill is never called overdue before its due day is past.
pub proof fn law_overdue_only_after_due(
    mode: CardsMode,
    today: Date,
    close: Date,
    due_day: Option<u32>,
    full_total: Amount,
    payments: Seq<TransactionRecord>,
)
    ensures
        state_of(mode, today, close, due_day, full_total, payments) == BillState::Overdue ==> {
            &&& today.number() > due_number(close, due_day)
            &&& payment_of(payments, close, full_total) is None
        },
{
}

// ---------------------------------------------------------------------------
// The report

pub open spec fn row_amounts(rows: Seq<CardClosedTransactionRow>) -> Seq<Amount> {
    rows.map_values(|r: CardClosedTransactionRow| r.amount)
}

/// The bills that a report shows, one for each account in ascending order, an account
/// without a bill to show left out.
pub open spec fn shown_bills(
    rows: Seq<CardClosedTransactionRow>,
    bills: Seq<Seq<char>>,
    mode: CardsMode,
    today: Date,
    month: Seq<char>,
    accounts: Seq<Seq<char>>,
) -> Seq<Bill>
    decreases accounts.len(),
{
    if accounts.len() == 0 {
        Seq::empty()
    } else {
        let before = shown_bills(rows, bills, mode, today, month, accounts.drop_last());
        let list = account_bills(rows, bills, accounts.last());
        match picked_bill(list, mode, today, month) {
            Some(i) => before.push(list[i]),
            None => before,
        }
    }
}

/// The bills that a report shows.
pub open spec fn report_bills(
    accounts: Seq<AccountRecord>,
    rows: Seq<CardClosedTransactionRow>,
    mode: CardsMode,
    today: Date,
    month: Seq<char>,
) -> Seq<Bill> {
    shown_bills(
        rows,
        bills_of_rows(accounts, rows),
        mode,
        today,
        month,
        sorted_keys(accounts_of(rows)),
    )
}

fn row_accounts(rows: &Vec<CardClosedTransactionRow>) -> (r: Vec<String>)
    ensures
        texts(r@) == accounts_of(rows@),
{
    let mut out: Vec<String> = Vec::new();
    let mut i: usize = 0;
    while i < rows.len()
        invariant
            i <= rows.len(),
            texts(out@) == accounts_of(rows@).take(i as int),
        decreases rows.len() - i,
    {
        let ghost before = texts(out@);
        out.push(rows[i].account_id.clone());
        assert(texts(out@) =~= before.push(rows@[i as int].account_id@));
        assert(texts(out@) =~= accounts_of(rows@).take(i + 1));
        i = i + 1;
    }
    assert(texts(out@) =~= accounts_of(rows@));
    out
}

/// The bills of the accounts, account by account.
pub open spec fn bills_of_all(
    rows: Seq<CardClosedTransactionRow>,
    bills: Seq<Seq<char>>,
    accounts: Seq<Seq<char>>,
) -> Seq<Bill>
    decreases accounts.len(),
{
    if accounts.len() == 0 {
        Seq::empty()
    } else {
        bills_of_all(rows, bills, accounts.drop_last()) + account_bills(
            rows,
            bills,
            accounts.last(),
        )
    }
}

/// Every bill that rows stand on, by account and identifier.
pub fn bill_candidates(accounts: &Vec<AccountRecord>, rows: &Vec<CardClosedTransactionRow>) -> (r:
    Vec<BillCandidate>)
    ensures
        views(r@) == bills_of_all(
            rows@,
            bills_of_rows(accounts@, rows@),
            sorted_keys(accounts_of(rows@)),
        ),
        forall|i: int|
            0 <= i < r@.len() ==> ascending(
                as_ints((#[trigger] r@[i]).members@),
                rows@.len() as int,
            ),
{
    let ids = find_bills(accounts, rows);
    let ghost tb = bills_of_rows(accounts@, rows@);
    let names = distinct(&row_accounts(rows));
    let ghost all = sorted_keys(accounts_of(rows@));
    let mut out: Vec<BillCandidate> = Vec::new();
    let mut i: usize = 0;
    assert(ids@.len() == rows@.len()) by {
        assert(texts(ids@).len() == ids@.len());
    }
    assert(views(out@) =~= Seq::<Bill>::empty());
    while i < names.len()
        invariant
            i <= names.len(),
            ids@.len() == rows@.len(),
            texts(ids@) == tb,
            texts(names@) == all,
            views(out@) == bills_of_all(rows@, tb, all.take(i as int)),
        decreases names.len() - i,
    {
        assert(all.take(i + 1).drop_last() =~= all.take(i as int));
        assert(all[i as int] == names@[i as int]@);
        let ghost before = views(out@);
        let mut bills = bills_of_account(rows, &ids, &names[i]);
        let ghost list = views(bills@);
        out.append(&mut bills);
        assert(views(out@) =~= before + list);
        i = i + 1;
    }
    assert(all.take(i as int) =~= all) by {
        assert(texts(names@).len() == names@.len());
    }
    proof {
        lemma_bills_ascend(rows@, tb, all);
        assert forall|k: int| 0 <= k < out@.len() implies ascending(
            as_ints((#[trigger] out@[k]).members@),
            rows@.len() as int,
        ) by {
            assert(views(out@)[k] == out@[k]@);
        }
    }
    out
}

proof fn lemma_bills_ascend(
    rows: Seq<CardClosedTransactionRow>,
    bills: Seq<Seq<char>>,
    accounts: Seq<Seq<char>>,
)
    ensures
        forall|i: int|
            0 <= i < bills_of_all(rows, bills, accounts).len() ==> ascending(
                (#[trigger] bills_of_all(rows, bills, accounts)[i]).members,
                rows.len() as int,
            ),
    decreases accounts.len(),
{
    if accounts.len() > 0 {
        lemma_bills_ascend(rows, bills, accounts.drop_last());
        let all = bills_of_all(rows, bills, accounts);
        let n = bills_of_all(rows, bills, accounts.drop_last()).len();
        assert forall|i: int| 0 <= i < all.len() implies ascending(
            (#[trigger] all[i]).members,
            rows.len() as int,
        ) by {
            if i < n {
                assert(all[i] == bills_of_all(rows, bills, accounts.drop_last())[i]);
            } else {
                let id = sorted_keys(ids_of_account(rows, bills, accounts.last()))[i - n];
                crate::sums::lemma_where_ascending(
                    rows.len() as int,
                    on_bill(rows, bills, accounts.last(), id),
                );
            }
        }
    }
}

/// What each row costs, without its sign.
pub open spec fn row_sizes(rows: Seq<CardClosedTransactionRow>) -> Seq<Amount> {
    rows.map_values(|r: CardClosedTransactionRow| magnitude(r.amount))
}

/// What the rows of a bill come to, without their signs.
pub fn candidate_total(rows: &Vec<CardClosedTransactionRow>, bill: &BillCandidate) -> (r: Amount)
    requires
        ascending(as_ints(bill.members@), rows@.len() as int),
        full_weight(row_sizes(rows@)) <= limit(),
    ensures
        r == sum_of(picked(row_sizes(rows@), as_ints(bill.members@))),
{
    let mut sizes: Vec<Amount> = Vec::new();
    let mut i: usize = 0;
    while i < rows.len()
        invariant
            i <= rows.len(),
            sizes@ == row_sizes(rows@).take(i as int),
        decreases rows.len() - i,
    {
        sizes.push(rows[i].amount.abs());
        i = i + 1;
        assert(sizes@ =~= row_sizes(rows@).take(i as int));
    }
    assert(sizes@ =~= row_sizes(rows@));
    total_at(&sizes, &bill.members)
}

/// Whether the bills belong to different accounts, each with the rows of its account
/// on it, at least one.
pub open spec fn sound_bills(
    bills: Seq<Bill>,
    rows: Seq<CardClosedTransactionRow>,
    ids: Seq<Seq<char>>,
) -> bool {
    &&& forall|i: int|
        0 <= i < bills.len() ==> (#[trigger] bills[i]).members == members_of(
            rows,
            ids,
            bills[i].account,
            bills[i].bill_id,
        ) && bills[i].members.len() > 0
    &&& forall|i: int, j: int|
        0 <= i < j < bills.len() ==> (#[trigger] bills[i]).account != (#[trigger] bills[j]).account
}

/// Picks for each account the bill that a report shows.
pub fn select_bills(
    accounts: &Vec<AccountRecord>,
    rows: &Vec<CardClosedTransactionRow>,
    mode: CardsMode,
    today: &Date,
    month: &str,
) -> (r: Vec<BillCandidate>)
    ensures
        views(r@) == report_bills(accounts@, rows@, mode, *today, month@),
        sound_bills(views(r@), rows@, bills_of_rows(accounts@, rows@)),
{
    let ids = find_bills(accounts, rows);
    let ghost tb = bills_of_rows(accounts@, rows@);
    let names = distinct(&row_accounts(rows));
    let ghost all = sorted_keys(accounts_of(rows@));
    let mut out: Vec<BillCandidate> = Vec::new();
    let mut i: usize = 0;
    proof {
        crate::order::law_sorted_keys(accounts_of(rows@));
        assert(ids@.len() == rows@.len()) by {
            assert(texts(ids@).len() == ids@.len());
        }
    }
    assert(views(out@) =~= Seq::<Bill>::empty());
    while i < names.len()
        invariant
            i <= names.len(),
            ids@.len() == rows@.len(),
            texts(ids@) == tb,
            texts(names@) == all,
            crate::order::strictly_ascending(all),
            views(out@) == shown_bills(rows@, tb, mode, *today, month@, all.take(i as int)),
            sound_bills(views(out@), rows@, tb),
            forall|k: int|
                0 <= k < out@.len() ==> all.take(i as int).contains(
                    (#[trigger] views(out@)[k]).account,
                ),
        decreases names.len() - i,
    {
        assert(all.take(i + 1).drop_last() =~= all.take(i as int));
        assert(all[i as int] == names@[i as int]@);
        let mut bills = bills_of_account(rows, &ids, &names[i]);
        let ghost list = views(bills@);
        let ghost before = views(out@);
        match pick_bill(&bills, mode, today, month) {
            Some(k) => {
                assert(list[k as int] == bills@[k as int]@);
                let chosen = bills.remove(k);
                out.push(chosen);
                assert(views(out@) =~= before.push(list[k as int]));
                proof {
                    let now = views(out@);
                    assert(now.last().account == names@[i as int]@);
                    assert(now.last().members.len() == chosen.members@.len());
                    assert forall|a: int, b: int| 0 <= a < b < now.len() implies (
                    #[trigger] now[a]).account != (#[trigger] now[b]).account by {
                        if b == before.len() {
                            assert(now[a] == before[a]);
                            assert(all.take(i as int).contains(before[a].account));
                            let q = choose|q: int|
                                0 <= q < i && all.take(i as int)[q] == before[a].account;
                            assert(precedes(all[q], all[i as int]));
                            crate::text::lemma_precedes_irreflexive(all[i as int]);
                        } else {
                            assert(now[a] == before[a] && now[b] == before[b]);
                        }
                    }
                    assert forall|a: int| 0 <= a < now.len() implies (
                    #[trigger] now[a]).members == members_of(
                        rows@,
                        tb,
                        now[a].account,
                        now[a].bill_id,
                    ) && now[a].members.len() > 0 by {
                        if a < before.len() {
                            assert(now[a] == before[a]);
                        }
                    }
                    assert forall|a: int| 0 <= a < out@.len() implies all.take(i + 1).contains(
                        (#[trigger] now[a]).account,
                    ) by {
                        if a < before.len() {
                            assert(now[a] == before[a]);
                            let q = choose|q: int|
                                0 <= q < i && all.take(i as int)[q] == before[a].account;
                            assert(all.take(i + 1)[q] == before[a].account);
                        } else {
                            assert(all.take(i + 1)[i as int] == now[a].account);
                        }
                    }
                }
            },
            None => {
                proof {
                    assert forall|a: int| 0 <= a < out@.len() implies all.take(i + 1).contains(
                        (#[trigger] views(out@)[a]).account,
                    ) by {
                        let q = choose|q: int|
                            0 <= q < i && all.take(i as int)[q] == views(out@)[a].account;
                        assert(all.take(i + 1)[q] == views(out@)[a].account);
                    }
                }
            },
        }
        i = i + 1;
    }
    assert(all.take(i as int) =~= all);
    out
}

/// The rows of a bill that a report shows: all, or those that are installments.
pub open spec fn shown_members(
    rows: Seq<CardClosedTransactionRow>,
    members: Seq<int>,
    installments_only: bool,
) -> Seq<int> {
    if installments_only {
        members.filter(|i: int| row_marker(rows[i]) is Some)
    } else {
        members
    }
}

proof fn lemma_filter_ascending(at: Seq<int>, n: int, f: spec_fn(int) -> bool)
    requires
        ascending(at, n),
    ensures
        ascending(at.filter(f), n),
        at.filter(f).len() > 0 ==> at.filter(f).last() <= at.last(),
    decreases at.len(),
{
    reveal(Seq::filter);
    if at.len() > 0 {
        let t = at.drop_last();
        lemma_filter_ascending(t, n, f);
        let a = t.filter(f);
        let b = at.filter(f);
        if f(at.last()) {
            assert forall|i: int, j: int| 0 <= i < j < b.len() implies b[i] < b[j] by {
                if j == a.len() {
                    assert(a[i] <= a.last()) by {
                        if i < a.len() - 1 {
                            assert(a[i] < a[a.len() - 1]);
                        }
                    }
                    assert(t.len() > 0) by {
                        if t.len() == 0 {
                            assert(t.filter(f).len() == 0);
                        }
                    }
                    assert(at[t.len() - 1] < at[at.len() - 1]);
                }
            }
        } else if b.len() > 0 {
            assert(t.len() > 0) by {
                if t.len() == 0 {
                    assert(t.filter(f).len() == 0);
                }
            }
            assert(at[t.len() - 1] < at[at.len() - 1]);
        }
    }
}

fn show_members(
    rows: &Vec<CardClosedTransactionRow>,
    members: &Vec<usize>,
    installments_only: bool,
) -> (r: Vec<usize>)
    requires
        ascending(as_ints(members@), rows@.len() as int),
    ensures
        as_ints(r@) == shown_members(rows@, as_ints(members@), installments_only),
{
    let ghost f = |i: int| row_marker(rows@[i]) is Some;
    let ghost all = as_ints(members@);
    let mut out: Vec<usize> = Vec::new();
    let mut i: usize = 0;
    reveal(Seq::filter);
    assert(as_ints(out@) =~= shown_members(rows@, all.take(0), installments_only));
    while i < members.len()
        invariant
            i <= members.len(),
            all == as_ints(members@),
            f == (|i: int| row_marker(rows@[i]) is Some),
            ascending(all, rows@.len() as int),
            as_ints(out@) == shown_members(rows@, all.take(i as int), installments_only),
        decreases members.len() - i,
    {
        reveal(Seq::filter);
        assert(all.take(i + 1).drop_last() =~= all.take(i as int));
        assert(all[i as int] == members@[i as int]);
        let ghost before = as_ints(out@);
        if !installments_only || detect_installment_marker(&rows[members[i]]).is_some() {
            out.push(members[i]);
            assert(as_ints(out@) =~= before.push(all[i as int]));
        }
        assert(installments_only || as_ints(out@) =~= all.take(i + 1));
        i = i + 1;
    }
    assert(all.take(i as int) =~= all);
    out
}

/// What a report says of an account.
pub struct CardsAccountReport {
    pub account_id: String,
    pub transaction_count: usize,
    pub status: CardsBillStatus,
}

/// A card report, with the positions of the rows that it shows.
pub struct CardsReport {
    pub month_ref: String,
    pub accounts: Vec<CardsAccountReport>,
    pub grand_total: Amount,
    pub shown_rows: Vec<usize>,
}

/// What the shown rows of a bill cost.
pub open spec fn shown_total(
    rows: Seq<CardClosedTransactionRow>,
    b: Bill,
    installments_only: bool,
) -> Amount {
    magnitude(
        sum_of(picked(row_amounts(rows), shown_members(rows, b.members, installments_only))),
    )
}

/// What all the rows of a bill cost.
pub open spec fn full_total(rows: Seq<CardClosedTransactionRow>, b: Bill) -> Amount {
    magnitude(sum_of(picked(row_amounts(rows), b.members)))
}

/// Whether the line is what a report says of a bill.
pub open spec fn tells_bill(
    line: CardsAccountReport,
    b: Bill,
    accounts: Seq<AccountRecord>,
    rows: Seq<CardClosedTransactionRow>,
    payments: Seq<TransactionRecord>,
    mode: CardsMode,
    today: Date,
    installments_only: bool,
) -> bool {
    &&& line.account_id@ == b.account
    &&& line.transaction_count == shown_members(rows, b.members, installments_only).len()
    &&& tells_status(
        line.status,
        mode,
        today,
        filing_day(b),
        configured_due_day(accounts, b.account),
        shown_total(rows, b, installments_only),
        full_total(rows, b),
        payments,
    )
}

/// The bills with rows to show. Where all rows are shown, these are all bills.
pub open spec fn bills_with_rows(
    bills: Seq<Bill>,
    rows: Seq<CardClosedTransactionRow>,
    installments_only: bool,
) -> Seq<Bill> {
    bills.filter(
        |b: Bill|
            !installments_only || shown_members(rows, b.members, installments_only).len() > 0,
    )
}

pub open spec fn shown_totals(
    bills: Seq<Bill>,
    rows: Seq<CardClosedTransactionRow>,
    installments_only: bool,
) -> Seq<Amount> {
    bills.map_values(|b: Bill| shown_total(rows, b, installments_only))
}

/// The latest purchase on any of the bills.
pub open spec fn latest_purchase(bills: Seq<Bill>) -> Option<Date>
    decreases bills.len(),
{
    if bills.len() == 0 {
        None
    } else {
        match latest_purchase(bills.drop_last()) {
            Some(d) => if d.before(bills.last().max_date) {
                Some(bills.last().max_date)
            } else {
                Some(d)
            },
            None => Some(bills.last().max_date),
        }
    }
}

/// The rows that a report shows, bill by bill.
pub open spec fn all_shown(
    bills: Seq<Bill>,
    rows: Seq<CardClosedTransactionRow>,
    installments_only: bool,
) -> Seq<int>
    decreases bills.len(),
{
    if bills.len() == 0 {
        Seq::empty()
    } else {
        all_shown(bills.drop_last(), rows, installments_only) + shown_members(
            rows,
            bills.last().members,
            installments_only,
        )
    }
}

pub fn copy_amounts(rows: &Vec<CardClosedTransactionRow>) -> (r: Vec<Amount>)
    ensures
        r@ == row_amounts(rows@),
{
    let mut out: Vec<Amount> = Vec::new();
    let mut i: usize = 0;
    while i < rows.len()
        invariant
            i <= rows.len(),
            out@ == row_amounts(rows@).take(i as int),
        decreases rows.len() - i,
    {
        out.push(rows[i].amount);
        i = i + 1;
        assert(out@ =~= row_amounts(rows@).take(i as int));
    }
    assert(out@ =~= row_amounts(rows@));
    out
}

/// Whether a row belongs to the account of one of the first `k` bills.
spec fn of_first(bills: Seq<Bill>, rows: Seq<CardClosedTransactionRow>, k: int) -> spec_fn(
    int,
) -> bool {
    |i: int| exists|j: int| 0 <= j < k && (#[trigger] bills[j]).account == rows[i].account_id@
}

proof fn lemma_bill_weight(
    bills: Seq<Bill>,
    rows: Seq<CardClosedTransactionRow>,
    ids: Seq<Seq<char>>,
    k: int,
)
    requires
        sound_bills(bills, rows, ids),
        0 <= k < bills.len(),
    ensures
        ascending(bills[k].members, rows.len() as int),
        one() <= full_weight(picked(row_amounts(rows), bills[k].members)),
        weight(row_amounts(rows), of_first(bills, rows, k)) + full_weight(
            picked(row_amounts(rows), bills[k].members),
        ) <= weight(row_amounts(rows), of_first(bills, rows, k + 1)),
{
    let b = bills[k];
    let amounts = row_amounts(rows);
    let n = rows.len() as int;
    let mine = on_bill(rows, ids, b.account, b.bill_id);
    let of_account = |i: int| rows[i].account_id@ == b.account;
    let before = of_first(bills, rows, k);
    let after = of_first(bills, rows, k + 1);
    assert(b.members == where_at(n, mine));
    crate::sums::lemma_where_ascending(n, mine);
    crate::sums::lemma_where_weight(amounts, n, mine);
    assert(amounts.take(n) =~= amounts);
    crate::sums::lemma_weight_mono(amounts, mine, of_account);
    assert forall|i: int| 0 <= i < amounts.len() implies !(#[trigger] before(i) && of_account(
        i,
    )) by {
        if before(i) && of_account(i) {
            let j = choose|j: int|
                0 <= j < k && (#[trigger] bills[j]).account == rows[i].account_id@;
            assert(bills[j].account != bills[k].account);
        }
    }
    assert forall|i: int| 0 <= i < amounts.len() implies #[trigger] after(i) == (before(i)
        || of_account(i)) by {
        if after(i) {
            let j = choose|j: int|
                0 <= j < k + 1 && (#[trigger] bills[j]).account == rows[i].account_id@;
            if j < k {
                assert(before(i));
            }
        }
        if of_account(i) {
            assert(bills[k].account == rows[i].account_id@);
        }
        if before(i) {
            let j = choose|j: int|
                0 <= j < k && (#[trigger] bills[j]).account == rows[i].account_id@;
            assert(bills[j].account == rows[i].account_id@);
        }
    }
    crate::sums::lemma_weight_disjoint(amounts, before, of_account, after);
    let part = picked(amounts, b.members);
    crate::sums::lemma_exact_sum_bound(part);
    assert(part.len() * one() >= one()) by (nonlinear_arith)
        requires
            part.len() >= 1,
            one() >= 0,
    ;
}

proof fn lemma_filtered_weight(s: Seq<Amount>, at: Seq<int>, f: spec_fn(int) -> bool)
    ensures
        full_weight(picked(s, at.filter(f))) <= full_weight(picked(s, at)),
    decreases at.len(),
{
    reveal(Seq::filter);
    if at.len() > 0 {
        let a = at.drop_last();
        lemma_filtered_weight(s, a, f);
        assert(picked(s, at).drop_last() =~= picked(s, a));
        if f(at.last()) {
            assert(picked(s, at.filter(f)).drop_last() =~= picked(s, a.filter(f)));
        }
    } else {
        assert(picked(s, at.filter(f)) =~= picked(s, at));
    }
}

fn find_latest_purchase(bills: &Vec<BillCandidate>) -> (r: Option<Date>)
    ensures
        r == latest_purchase(views(bills@)),
{
    let ghost all = views(bills@);
    let mut latest: Option<Date> = None;
    let mut i: usize = 0;
    while i < bills.len()
        invariant
            i <= bills.len(),
            all == views(bills@),
            latest == latest_purchase(all.take(i as int)),
        decreases bills.len() - i,
    {
        assert(all.take(i + 1).drop_last() =~= all.take(i as int));
        assert(all[i as int] == bills@[i as int]@);
        let day = bills[i].max_date;
        latest = match latest {
            Some(d) => if d.is_before(&day) {
                Some(day)
            } else {
                Some(d)
            },
            None => Some(day),
        };
        i = i + 1;
    }
    assert(all.take(i as int) =~= all);
    latest
}

fn append_positions(out: &mut Vec<usize>, more: &Vec<usize>)
    ensures
        as_ints(final(out)@) == as_ints(old(out)@) + as_ints(more@),
{
    let ghost start = as_ints(out@);
    let mut j: usize = 0;
    assert(as_ints(out@) =~= start + as_ints(more@).take(0));
    while j < more.len()
        invariant
            j <= more.len(),
            as_ints(out@) == start + as_ints(more@).take(j as int),
        decreases more.len() - j,
    {
        let ghost now = as_ints(out@);
        out.push(more[j]);
        assert(as_ints(out@) =~= now.push(more@[j as int] as int));
        assert(as_ints(out@) =~= start + as_ints(more@).take(j + 1));
        j = j + 1;
    }
    assert(as_ints(more@).take(j as int) =~= as_ints(more@));
}

fn collect_shown(
    rows: &Vec<CardClosedTransactionRow>,
    bills: &Vec<BillCandidate>,
    installments_only: bool,
) -> (r: Vec<usize>)
    requires
        forall|i: int|
            0 <= i < bills@.len() ==> ascending(
                (#[trigger] views(bills@)[i]).members,
                rows@.len() as int,
            ),
    ensures
        as_ints(r@) == all_shown(views(bills@), rows@, installments_only),
{
    let ghost all = views(bills@);
    let mut out: Vec<usize> = Vec::new();
    let mut i: usize = 0;
    assert(as_ints(out@) =~= Seq::<int>::empty());
    while i < bills.len()
        invariant
            i <= bills.len(),
            all == views(bills@),
            forall|k: int|
                0 <= k < bills@.len() ==> ascending(
                    (#[trigger] views(bills@)[k]).members,
                    rows@.len() as int,
                ),
            as_ints(out@) == all_shown(all.take(i as int), rows@, installments_only),
        decreases bills.len() - i,
    {
        assert(all.take(i + 1).drop_last() =~= all.take(i as int));
        assert(all[i as int] == bills@[i as int]@);
        let shown = show_members(rows, &bills[i].members, installments_only);
        append_positions(&mut out, &shown);
        i = i + 1;
    }
    assert(all.take(i as int) =~= all);
    out
}

/// The line for a bill; none where there is nothing to show of it.
fn report_line(
    accounts: &Vec<AccountRecord>,
    rows: &Vec<CardClosedTransactionRow>,
    amounts: &Vec<Amount>,
    bill: &BillCandidate,
    transactions: &Vec<TransactionRecord>,
    mode: CardsMode,
    today: &Date,
    installments_only: bool,
) -> (r: Option<CardsAccountReport>)
    requires
        amounts@ == row_amounts(rows@),
        modest(amounts@),
        ascending(bill@.members, rows@.len() as int),
        one() <= full_weight(picked(amounts@, bill@.members)),
    ensures
        match r {
            Some(line) => (!installments_only || shown_members(
                rows@,
                bill@.members,
                installments_only,
            ).len() > 0) && tells_bill(
                line,
                bill@,
                accounts@,
                rows@,
                transactions@,
                mode,
                *today,
                installments_only,
            ) && abs(line.status.total.scaled()) <= full_weight(picked(amounts@, bill@.members)),
            None => installments_only && shown_members(
                rows@,
                bill@.members,
                installments_only,
            ).len() == 0,
        },
{
    let shown = show_members(rows, &bill.members, installments_only);
    if installments_only && shown.len() == 0 {
        return None;
    }
    let ghost f = |j: int| row_marker(rows@[j]) is Some;
    proof {
        lemma_filter_ascending(bill@.members, rows@.len() as int, f);
        lemma_filtered_weight(amounts@, bill@.members, f);
        lemma_ascending_weight(amounts@, bill@.members);
        crate::sums::lemma_weight_mono(amounts@, |i: int| true, |i: int| true);
    }
    let full = total_at(amounts, &bill.members).abs();
    let total = total_at(amounts, &shown).abs();
    let close = match bill.close_date {
        Some(d) => d,
        None => bill.max_date,
    };
    let due_day = find_due_day(accounts, bill.account_id.as_str());
    let status = card_bill_status(mode, today, &close, due_day, total, &full, transactions);
    Some(
        CardsAccountReport {
            account_id: bill.account_id.clone(),
            transaction_count: shown.len(),
            status,
        },
    )
}

/// The lines of a report and what they come to.
fn report_lines(
    accounts: &Vec<AccountRecord>,
    rows: &Vec<CardClosedTransactionRow>,
    bills: &Vec<BillCandidate>,
    ids: Ghost<Seq<Seq<char>>>,
    transactions: &Vec<TransactionRecord>,
    mode: CardsMode,
    today: &Date,
    installments_only: bool,
) -> (r: (Vec<CardsAccountReport>, Amount))
    requires
        modest(row_amounts(rows@)),
        sound_bills(views(bills@), rows@, ids@),
    ensures
        ({
            let lines = bills_with_rows(views(bills@), rows@, installments_only);
            &&& r.0@.len() == lines.len()
            &&& forall|i: int|
                0 <= i < lines.len() ==> tells_bill(
                    #[trigger] r.0@[i],
                    lines[i],
                    accounts@,
                    rows@,
                    transactions@,
                    mode,
                    *today,
                    installments_only,
                )
            &&& r.1 == sum_of(shown_totals(lines, rows@, installments_only))
        }),
{
    let amounts = copy_amounts(rows);
    let ghost all = views(bills@);
    let mut lines: Vec<CardsAccountReport> = Vec::new();
    let mut totals: Vec<Amount> = Vec::new();
    let mut i: usize = 0;
    proof {
        reveal(Seq::filter);
        assert(bills_with_rows(all.take(0), rows@, installments_only) =~= Seq::<Bill>::empty());
        assert(totals@ =~= shown_totals(
            bills_with_rows(all.take(0), rows@, installments_only),
            rows@,
            installments_only,
        ));
        crate::sums::lemma_weight_mono(
            amounts@,
            of_first(all, rows@, 0),
            of_first(all, rows@, 0),
        );
    }
    while i < bills.len()
        invariant
            i <= bills.len(),
            all == views(bills@),
            sound_bills(all, rows@, ids@),
            amounts@ == row_amounts(rows@),
            modest(row_amounts(rows@)),
            lines@.len() == bills_with_rows(all.take(i as int), rows@, installments_only).len(),
            forall|k: int|
                0 <= k < lines@.len() ==> tells_bill(
                    #[trigger] lines@[k],
                    bills_with_rows(all.take(i as int), rows@, installments_only)[k],
                    accounts@,
                    rows@,
                    transactions@,
                    mode,
                    *today,
                    installments_only,
                ),
            totals@ == shown_totals(
                bills_with_rows(all.take(i as int), rows@, installments_only),
                rows@,
                installments_only,
            ),
            full_weight(totals@) <= 2 * weight(amounts@, of_first(all, rows@, i as int)),
        decreases bills.len() - i,
    {
        let ghost before = bills_with_rows(all.take(i as int), rows@, installments_only);
        let ghost after = bills_with_rows(all.take(i + 1), rows@, installments_only);
        proof {
            assert(all[i as int] == bills@[i as int]@);
            assert(all.take(i + 1).drop_last() =~= all.take(i as int));
            lemma_bill_weight(all, rows@, ids@, i as int);
        }
        let line = report_line(
            accounts,
            rows,
            &amounts,
            &bills[i],
            transactions,
            mode,
            today,
            installments_only,
        );
        match line {
            Some(l) => {
                let ghost totals_before = totals@;
                totals.push(l.status.total);
                lines.push(l);
                proof {
                    assert(after =~= before.push(all[i as int])) by {
                        reveal(Seq::filter);
                    }
                    assert(totals@ =~= shown_totals(after, rows@, installments_only));
                    assert(totals@.drop_last() =~= totals_before);
                }
            },
            None => {
                proof {
                    assert(after =~= before) by {
                        reveal(Seq::filter);
                    }
                }
            },
        }
        i = i + 1;
    }
    proof {
        assert(all.take(i as int) =~= all);
        crate::sums::lemma_weight_mono(amounts@, of_first(all, rows@, i as int), |k: int| true);
    }
    let grand_total = crate::sums::total_of_all(&totals);
    (lines, grand_total)
}

/// Builds a card report. Payments are looked for among `transactions`.
pub fn cards_report(
    accounts: &Vec<AccountRecord>,
    rows: &Vec<CardClosedTransactionRow>,
    transactions: &Vec<TransactionRecord>,
    mode: CardsMode,
    today: &Date,
    month: &str,
    installments_only: bool,
) -> (r: CardsReport)
    requires
        modest(row_amounts(rows@)),
    ensures
        ({
            let bills = report_bills(accounts@, rows@, mode, *today, month@);
            let lines = bills_with_rows(bills, rows@, installments_only);
            &&& r.month_ref@ == (match latest_purchase(bills) {
                Some(d) => month_text(d),
                None => month@,
            })
            &&& r.accounts@.len() == lines.len()
            &&& forall|i: int|
                0 <= i < lines.len() ==> tells_bill(
                    #[trigger] r.accounts@[i],
                    lines[i],
                    accounts@,
                    rows@,
                    transactions@,
                    mode,
                    *today,
                    installments_only,
                )
            &&& r.grand_total == sum_of(shown_totals(lines, rows@, installments_only))
            &&& as_ints(r.shown_rows@) == all_shown(bills, rows@, installments_only)
        }),
{
    let bills = select_bills(accounts, rows, mode, today, month);
    let ghost ids = bills_of_rows(accounts@, rows@);
    proof {
        assert forall|i: int| 0 <= i < bills@.len() implies ascending(
            (#[trigger] views(bills@)[i]).members,
            rows@.len() as int,
        ) by {
            lemma_bill_weight(views(bills@), rows@, ids, i);
        }
    }
    let shown_rows = collect_shown(rows, &bills, installments_only);
    let (lines, grand_total) = report_lines(
        accounts,
        rows,
        &bills,
        Ghost(ids),
        transactions,
        mode,
        today,
        installments_only,
    );
    let month_ref = match find_latest_purchase(&bills) {
        Some(d) => from_chars(&month_chars(&d)),
        None => month.to_string(),
    };
    CardsReport { month_ref, accounts: lines, grand_total, shown_rows }
}

} // verus!
