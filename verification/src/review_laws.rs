//! What the queue of a review and its window promise.

use crate::amount::{abs, Amount};
use crate::categories::{first_at, ranked_score, rotated, shown_matches};
use crate::date::{date_of, law_dates_ordered_by_number, law_days_count_on, lemma_date_of, Date};
use crate::order::{law_sorted, lemma_same_elements, sorted, Ranked};
use crate::records::{opt_text, AccountRecord, TransactionRecord};
use crate::review::{
    ids_of, in_review_order, kept_rows, owned, parsed_month, queue_of, review_rows,
    review_window_of, unseen_rows, ReviewFilters,
};
use crate::seqs::lemma_contains_last;
use crate::text::{precedes, texts};
use vstd::prelude::*;

verus! {

/// Whether the first row comes before the second in a review: the later day first; of one
/// day the larger amount; of the same the smaller identifier, or the same.
pub open spec fn comes_first(a: TransactionRecord, b: TransactionRecord) -> bool {
    let (x, y) = (a.transaction_date.number(), b.transaction_date.number());
    let (s, t) = (abs(a.amount.scaled()), abs(b.amount.scaled()));
    x > y || (x == y && (s > t || (s == t && !precedes(b.transaction_id@, a.transaction_id@))))
}

/// Whether a review takes the row: the filters keep it, and it is as large as asked for.
pub open spec fn takes(row: TransactionRecord, filters: ReviewFilters, least: Option<Amount>) -> bool {
    filters.keeps(row) && (least matches Some(a) ==> abs(row.amount.scaled()) >= a.scaled())
}

/// The queue of a review is in order, and a row that the review takes is left out only
/// where the queue is full and every row in it comes before that one.
pub proof fn law_queue_is_complete(
    rows: Seq<TransactionRecord>,
    filters: ReviewFilters,
    least: Option<Amount>,
    limit: nat,
    j: int,
)
    requires
        0 <= j < rows.len(),
        takes(rows[j], filters, least),
        forall|i: int| 0 <= i < rows.len() ==> (#[trigger] rows[i]).transaction_date.valid(),
    ensures
        ({
            let queue = queue_of(rows, filters, least, limit as int);
            &&& queue.contains(rows[j]) || (queue.len() == limit && forall|i: int|
                0 <= i < queue.len() ==> comes_first(#[trigger] queue[i], rows[j]))
            &&& forall|i: int| 0 <= i < queue.len() ==> takes(#[trigger] queue[i], filters, least)
            &&& forall|i: int, k: int|
                0 <= i < k < queue.len() ==> comes_first(#[trigger] queue[i], #[trigger] queue[k])
        }),
{
    let kept = kept_rows(rows, filters, least);
    lemma_kept(rows, filters, least);
    let wrapped = review_rows(kept);
    let list = sorted(wrapped);
    law_sorted(wrapped);
    lemma_same_elements(wrapped, list);
    let all = in_review_order(kept);
    let queue = queue_of(rows, filters, least, limit as int);
    assert forall|i: int| 0 <= i < all.len() implies kept.contains(#[trigger] all[i]) && all[i]
        == list[i].row && all[i].transaction_date.valid() by {
        assert(list.contains(list[i]));
        let w = choose|w: int| 0 <= w < wrapped.len() && wrapped[w] == list[i];
        assert(kept[w] == all[i]);
        assert(kept.contains(kept[w]));
        assert(rows.contains(all[i]));
        let r = choose|r: int| 0 <= r < rows.len() && rows[r] == all[i];
        assert(rows[r].transaction_date.valid());
    }
    assert forall|i: int, k: int| 0 <= i < k < all.len() implies comes_first(
        #[trigger] all[i],
        #[trigger] all[k],
    ) by {
        assert(Ranked::le(list[i], list[k]));
        law_dates_ordered_by_number(all[i].transaction_date, all[k].transaction_date);
        law_dates_ordered_by_number(all[k].transaction_date, all[i].transaction_date);
    }
    assert(rows.contains(rows[j]));
    assert(kept.contains(rows[j]));
    let w = choose|w: int| 0 <= w < kept.len() && kept[w] == rows[j];
    assert(wrapped[w].row == rows[j]);
    assert(wrapped.contains(wrapped[w]));
    let p = choose|p: int| 0 <= p < list.len() && list[p] == wrapped[w];
    assert(all[p] == rows[j]);
    if p < queue.len() {
        assert(queue[p] == rows[j]);
    } else {
        assert forall|i: int| 0 <= i < queue.len() implies comes_first(
            #[trigger] queue[i],
            rows[j],
        ) by {
            assert(queue[i] == all[i]);
        }
    }
    assert forall|i: int| 0 <= i < queue.len() implies takes(#[trigger] queue[i], filters, least) by {
        assert(queue[i] == all[i]);
    }
    assert forall|i: int, k: int| 0 <= i < k < queue.len() implies comes_first(
        #[trigger] queue[i],
        #[trigger] queue[k],
    ) by {
        assert(queue[i] == all[i] && queue[k] == all[k]);
    }
}

proof fn lemma_kept(rows: Seq<TransactionRecord>, filters: ReviewFilters, least: Option<Amount>)
    ensures
        forall|r: TransactionRecord| #[trigger]
            kept_rows(rows, filters, least).contains(r) <==> rows.contains(r) && takes(
                r,
                filters,
                least,
            ),
    decreases rows.len(),
{
    if rows.len() > 0 {
        let t = rows.drop_last();
        lemma_kept(t, filters, least);
        let (a, b) = (kept_rows(t, filters, least), kept_rows(rows, filters, least));
        assert forall|r: TransactionRecord| #[trigger] b.contains(r) <==> rows.contains(r)
            && takes(r, filters, least) by {
            lemma_contains_last(rows, r);
            assert(a.contains(r) <==> t.contains(r) && takes(r, filters, least));
            if b.len() > a.len() {
                assert(b.drop_last() =~= a);
                lemma_contains_last(b, r);
            }
        }
    }
}

/// A filter keeps only what it asks for: the month, the account, an account of the owner,
/// the category.
pub proof fn law_filters_narrow(filters: ReviewFilters, row: TransactionRecord)
    requires
        filters.keeps(row),
    ensures
        filters.month matches Some(m) ==> crate::date::month_text(row.transaction_date) == m@,
        filters.account_id matches Some(a) ==> opt_text(row.account_id) == Some(a@),
        filters.category matches Some(c) ==> opt_text(row.category_id) == Some(c@),
        filters.owner_accounts matches Some(list) ==> row.account_id is Some && texts(
            list@,
        ).contains(row.account_id->0@),
{
}

/// A merchant is found by a part of its name or of either description, whatever the case of
/// its ASCII letters.
pub proof fn law_merchant_is_found(filters: ReviewFilters, row: TransactionRecord, m: String, i: int)
    requires
        filters.merchant == Some(m),
        0 <= i < crate::review::merchant_texts(row).len(),
        crate::text::has_text(
            crate::review::merchant_texts(row)[i],
            crate::text::lower_ascii(crate::text::trimmed(m@)),
        ),
    ensures
        filters.merchant_fits(row),
        crate::review::merchant_texts(row).contains(
            crate::text::lower_ascii(crate::text::trimmed(row.raw_description@)),
        ),
        row.merchant_name matches Some(name) ==> crate::review::merchant_texts(row).contains(
            crate::text::lower_ascii(crate::text::trimmed(name@)),
        ),
        row.description matches Some(d) ==> crate::review::merchant_texts(row).contains(
            crate::text::lower_ascii(crate::text::trimmed(d@)),
        ),
{
    let list = crate::review::merchant_texts(row);
    lemma_in_joined(list, " "@, i, crate::text::lower_ascii(crate::text::trimmed(m@)));
    let n: int = if row.merchant_name is Some {
        1
    } else {
        0
    };
    assert(list[n] == crate::text::lower_ascii(crate::text::trimmed(row.raw_description@)));
    if row.merchant_name is Some {
        assert(list[0] == crate::text::lower_ascii(crate::text::trimmed(row.merchant_name->0@)));
    }
    if row.description is Some {
        assert(list[n + 1] == crate::text::lower_ascii(crate::text::trimmed(row.description->0@)));
    }
}

/// What stands in a part stands in the parts joined.
proof fn lemma_in_joined(parts: Seq<Seq<char>>, sep: Seq<char>, i: int, needle: Seq<char>)
    requires
        0 <= i < parts.len(),
        crate::text::has_text(parts[i], needle),
    ensures
        crate::text::has_text(crate::text::joined(parts, sep), needle),
    decreases parts.len(),
{
    let all = crate::text::joined(parts, sep);
    if parts.len() == 1 {
    } else if i < parts.len() - 1 {
        let t = parts.drop_last();
        lemma_in_joined(t, sep, i, needle);
        let head = crate::text::joined(t, sep);
        let k = choose|k: int| crate::text::occurs_at(head, needle, k);
        assert(all.subrange(k, k + needle.len()) =~= head.subrange(k, k + needle.len()));
        assert(crate::text::occurs_at(all, needle, k));
    } else {
        let head = crate::text::joined(parts.drop_last(), sep) + sep;
        let k = choose|k: int| crate::text::occurs_at(parts[i], needle, k);
        let n = head.len() as int;
        assert(all =~= head + parts.last());
        assert(all.subrange(n + k, n + k + needle.len()) =~= parts[i].subrange(
            k,
            k + needle.len(),
        ));
        assert(crate::text::occurs_at(all, needle, n + k));
    }
}

/// The accounts of an owner are those that name the owner.
pub proof fn law_owned_accounts(accounts: Seq<AccountRecord>, owner: Seq<char>, id: Seq<char>)
    ensures
        owned(accounts, owner).contains(id) <==> exists|i: int|
            0 <= i < accounts.len() && (#[trigger] accounts[i]).owner@ == owner
                && accounts[i].account_id@ == id,
    decreases accounts.len(),
{
    if accounts.len() > 0 {
        let t = accounts.drop_last();
        law_owned_accounts(t, owner, id);
        let (a, b) = (owned(t, owner), owned(accounts, owner));
        let last = accounts.len() - 1;
        assert(accounts[last] == accounts.last());
        if b.len() > a.len() {
            assert(b.drop_last() =~= a);
            lemma_contains_last(b, id);
        }
        if a.contains(id) {
            let i = choose|i: int|
                0 <= i < t.len() && (#[trigger] t[i]).owner@ == owner && t[i].account_id@ == id;
            assert(accounts[i] == t[i]);
        }
        if exists|i: int|
            0 <= i < accounts.len() && (#[trigger] accounts[i]).owner@ == owner
                && accounts[i].account_id@ == id {
            let i = choose|i: int|
                0 <= i < accounts.len() && (#[trigger] accounts[i]).owner@ == owner
                    && accounts[i].account_id@ == id;
            if i < last {
                assert(t[i] == accounts[i]);
            }
        }
    } else {
        assert(!owned(accounts, owner).contains(id));
    }
}

/// Of the rows with one identifier the first stays, and no other.
pub proof fn law_unseen_rows(rows: Seq<TransactionRecord>)
    ensures
        ids_of(unseen_rows(rows)).no_duplicates(),
        forall|id: Seq<char>| #[trigger]
            ids_of(unseen_rows(rows)).contains(id) <==> ids_of(rows).contains(id),
        forall|i: int|
            0 <= i < unseen_rows(rows).len() ==> rows.contains(#[trigger] unseen_rows(rows)[i]),
    decreases rows.len(),
{
    if rows.len() > 0 {
        let t = rows.drop_last();
        law_unseen_rows(t);
        let (a, b) = (unseen_rows(t), unseen_rows(rows));
        assert(ids_of(rows).drop_last() =~= ids_of(t));
        if b.len() > a.len() {
            assert(ids_of(b).drop_last() =~= ids_of(a));
            assert(ids_of(b).no_duplicates()) by {
                assert forall|i: int, j: int|
                    0 <= i < ids_of(b).len() && 0 <= j < ids_of(b).len() && i != j implies ids_of(
                    b,
                )[i] != ids_of(b)[j] by {
                    let n = ids_of(a).len() as int;
                    if i < n && j < n {
                        assert(ids_of(a)[i] == ids_of(b)[i] && ids_of(a)[j] == ids_of(b)[j]);
                    } else if i < n {
                        assert(ids_of(a)[i] == ids_of(b)[i]);
                        assert(ids_of(a).contains(ids_of(a)[i]));
                    } else {
                        assert(ids_of(a)[j] == ids_of(b)[j]);
                        assert(ids_of(a).contains(ids_of(a)[j]));
                    }
                }
            }
        }
        assert forall|id: Seq<char>| #[trigger] ids_of(b).contains(id) <==> ids_of(rows).contains(
            id,
        ) by {
            lemma_contains_last(ids_of(rows), id);
            assert(ids_of(a).contains(id) <==> ids_of(t).contains(id));
            if b.len() > a.len() {
                lemma_contains_last(ids_of(b), id);
            }
        }
        assert forall|i: int| 0 <= i < b.len() implies rows.contains(#[trigger] b[i]) by {
            lemma_contains_last(rows, b[i]);
            if i < a.len() {
                assert(a[i] == b[i]);
            }
        }
    }
}

// ---------------------------------------------------------------------------
// The window

/// The window of a month holds exactly the days of that month.
pub proof fn law_window_is_the_month(
    text: Seq<char>,
    y: int,
    m: int,
    today: Date,
    from: Date,
    to: Date,
    day: Date,
)
    requires
        parsed_month(text) == Some((y, m)),
        1 <= m <= 12,
        crate::date::MIN_YEAR < y < crate::date::MAX_YEAR,
        review_window_of(Some(text), today, from, to),
        day.valid(),
    ensures
        from.number() <= day.number() <= to.number() <==> day.y() == y && day.m() == m,
{
    lemma_date_of(y, m, 1);
    let (ny, nm) = if m == 12 {
        (y + 1, 1)
    } else {
        (y, m + 1)
    };
    lemma_date_of(ny, nm, 1);
    let next = date_of(ny, nm, 1);
    let eve = date_of(y, m, crate::date::month_length(y, m));
    lemma_date_of(y, m, crate::date::month_length(y, m));
    law_days_count_on(eve, next);
    crate::date::lemma_day_in_calendar(eve);
    law_dates_ordered_by_number(day, from);
    law_dates_ordered_by_number(from, day);
    law_dates_ordered_by_number(day, next);
    assert(to.number() == next.number() - 1);
}

/// Without a month the window reaches from the first day of the month two months before to
/// today.
pub proof fn law_window_of_three_months(today: Date, from: Date, to: Date)
    requires
        today.valid(),
        crate::date::MIN_YEAR < today.y(),
        review_window_of(None, today, from, to),
    ensures
        to == today,
        from.valid(),
        from.d() == 1,
        12 * from.y() + from.m() == 12 * today.y() + today.m() - 2,
{
    if today.m() <= 2 {
        lemma_date_of(today.y() - 1, today.m() + 10, 1);
    } else {
        lemma_date_of(today.y(), today.m() - 2, 1);
    }
}

// ---------------------------------------------------------------------------
// Categories

/// Of two categories that match a query as well, the one used more lately scores higher,
/// and one that was used scores higher than one that was not.
pub proof fn law_recent_scores_higher(
    a: Seq<char>,
    b: Seq<char>,
    needle: Seq<char>,
    recent: Seq<Seq<char>>,
    found: u16,
    i: int,
)
    requires
        0 <= i < recent.len() < 8000,
        recent[i] == a,
        forall|k: int| 0 <= k <= i ==> #[trigger] recent[k] != b,
    ensures
        ({
            let (x, y) = (
                ranked_score(a, needle, recent, Some(found)),
                ranked_score(b, needle, recent, Some(found)),
            );
            &&& x is Some && y is Some
            &&& crate::text::has_text(
                crate::text::lower_ascii(crate::categories::searched_text(a)),
                needle,
            ) || !crate::text::has_text(
                crate::text::lower_ascii(crate::categories::searched_text(b)),
                needle,
            ) ==> x->0 > y->0
        }),
        ranked_score(a, needle, recent, None) is None,
{
    lemma_first_at(recent, a, 0);
    lemma_first_at(recent, b, 0);
}

/// The first position of a text is where it first stands.
proof fn lemma_first_at(list: Seq<Seq<char>>, key: Seq<char>, from: int)
    requires
        0 <= from <= list.len(),
    ensures
        match first_at(list, key, from) {
            Some(i) => from <= i < list.len() && list[i] == key && forall|k: int|
                from <= k < i ==> #[trigger] list[k] != key,
            None => forall|k: int| from <= k < list.len() ==> #[trigger] list[k] != key,
        },
    decreases list.len() - from,
{
    if from < list.len() && list[from] != key {
        lemma_first_at(list, key, from + 1);
    }
}

/// What a search shows begins with the match under the cursor, and goes on in the order of
/// the matches, from the last round to the first.
pub proof fn law_shown_from_cursor(list: Seq<Seq<char>>, cursor: int, k: int)
    requires
        cursor >= 0,
        0 <= k < shown_matches(list, cursor).len(),
    ensures
        shown_matches(list, cursor)[k] == list[(cursor + k) % (list.len() as int)],
        shown_matches(list, cursor).len() <= list.len(),
{
    let n = list.len() as int;
    let c = cursor % n;
    assert(0 <= c < n);
    assert((cursor + k) % n == (if c + k < n {
        c + k
    } else {
        c + k - n
    })) by {
        vstd::arithmetic::div_mod::lemma_add_mod_noop(cursor, k, n);
        assert(k % n == k || k == n) by {
            if k < n {
                vstd::arithmetic::div_mod::lemma_small_mod(k as nat, n as nat);
            }
        }
        if c + k < n {
            vstd::arithmetic::div_mod::lemma_small_mod((c + k) as nat, n as nat);
        } else {
            vstd::arithmetic::div_mod::lemma_mod_multiples_vanish(1, c + k - n, n);
            vstd::arithmetic::div_mod::lemma_small_mod((c + k - n) as nat, n as nat);
            assert(n * 1 + (c + k - n) == c + k) by (nonlinear_arith);
        }
    }
    let turned = rotated(list, c);
    assert(turned[k] == (if c + k < n {
        list[c + k]
    } else {
        list[c + k - n]
    }));
}

} // verus!
