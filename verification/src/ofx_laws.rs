//! What the comparison of a statement with the stored transactions promises, in days and
//! in cents.

use crate::amount::{abs, lemma_made, lemma_one, negated, one, pow10, sum_fits};
use crate::date::{law_dates_ordered_by_number, Date};
use crate::description::distance;
use crate::ofx::{
    agrees, amount_gap, asks_for, best_among, candidate, closer, compares, day_gap, fit_accounts,
    hit_of, law_best_match_is_closest, law_pairing_is_one_to_one, matched_count, most_common,
    of_account, pairing, selected, taken, unmarked, OfxConsistencyOutput, OfxQuery, OfxTransaction,
};
use crate::order::{in_order, law_sorted, sorted};
use crate::places::{law_minus_exact, lemma_magnitude};
use crate::records::{opt_text, TransactionRecord};
use crate::seqs::lemma_filtered;
use vstd::prelude::*;

verus! {

/// Whether the difference of a stored and a statement's amount needs no rounding.
pub open spec fn differ_exactly(a: TransactionRecord, b: OfxTransaction) -> bool {
    a.amount.in_range() && b.amount.in_range() && sum_fits(a.amount, negated(b.amount))
}

/// How many days lie between a stored transaction and one of a statement.
pub open spec fn days_apart(a: TransactionRecord, b: OfxTransaction) -> int {
    let d = a.transaction_date.number() - b.transaction_date.number();
    if d < 0 {
        -d
    } else {
        d
    }
}

/// How far a stored amount and one of a statement are apart, counted in the smallest step.
pub open spec fn money_apart(a: TransactionRecord, b: OfxTransaction) -> int {
    let d = a.amount.scaled() - b.amount.scaled();
    if d < 0 {
        -d
    } else {
        d
    }
}

/// Whether the two are at most a cent and `tolerance` days apart.
pub open spec fn near(a: TransactionRecord, b: OfxTransaction, tolerance: int) -> bool {
    100 * money_apart(a, b) <= one() && days_apart(a, b) <= tolerance
}

/// Two transactions agree exactly where they are at most a cent and the tolerance apart.
pub proof fn law_agreeing_rows_are_near(a: TransactionRecord, b: OfxTransaction, tolerance: int)
    requires
        differ_exactly(a, b),
    ensures
        agrees(a, b, tolerance) <==> near(a, b, tolerance),
        amount_gap(a, b).scaled() == money_apart(a, b),
        day_gap(a, b) == days_apart(a, b),
{
    law_minus_exact(a.amount, b.amount);
    let d = crate::amount::minus(a.amount, b.amount);
    lemma_difference_in_range(a, b);
    lemma_magnitude(d);
    lemma_made(false, 1, 2);
    lemma_one();
    assert(pow10(28) == 10 * pow10(27) && pow10(27) == 10 * pow10(26));
    let cent = crate::amount::from_signed(1, 2);
    assert(cent.signed() == 1);
    vstd::arithmetic::mul::lemma_mul_basics_4(pow10(26));
    assert(cent.scaled() == pow10(26));
}

proof fn lemma_difference_in_range(a: TransactionRecord, b: OfxTransaction)
    requires
        differ_exactly(a, b),
    ensures
        crate::amount::minus(a.amount, b.amount).in_range(),
{
    crate::places::lemma_negated(b.amount);
    let (x, y) = (a.amount, negated(b.amount));
    let q = crate::amount::max_places(x, y);
    let n = crate::amount::aligned(x, q) + crate::amount::aligned(y, q);
    lemma_made(n < 0, abs(n) as nat, q);
}

/// The pairing of the first transactions of a statement does not hang on those behind
/// them.
proof fn lemma_pairing_prefix(
    rows: Seq<OfxTransaction>,
    db: Seq<TransactionRecord>,
    tolerance: int,
    k: int,
)
    requires
        0 <= k <= rows.len(),
    ensures
        pairing(rows, db, tolerance).len() == rows.len(),
        pairing(rows, db, tolerance).take(k) == pairing(rows.take(k), db, tolerance),
    decreases rows.len(),
{
    let all = pairing(rows, db, tolerance);
    law_pairing_is_one_to_one(rows, db, tolerance);
    if k == rows.len() {
        assert(rows.take(k) =~= rows);
        assert(all.take(k) =~= all);
    } else {
        lemma_pairing_prefix(rows.drop_last(), db, tolerance, k);
        assert(rows.drop_last().take(k) =~= rows.take(k));
        assert(all.take(k) =~= pairing(rows.drop_last(), db, tolerance).take(k));
    }
}

proof fn lemma_pairing_at(
    rows: Seq<OfxTransaction>,
    db: Seq<TransactionRecord>,
    tolerance: int,
    i: int,
)
    requires
        0 <= i < rows.len(),
    ensures
        pairing(rows, db, tolerance).len() == rows.len(),
        pairing(rows, db, tolerance)[i] == best_among(
            rows[i],
            db,
            taken(pairing(rows, db, tolerance).take(i), db.len()),
            tolerance,
            db.len() as int,
        ),
{
    lemma_pairing_prefix(rows, db, tolerance, i);
    lemma_pairing_prefix(rows, db, tolerance, i + 1);
    let all = pairing(rows, db, tolerance);
    assert(rows.take(i + 1).drop_last() =~= rows.take(i));
    assert(rows.take(i + 1).last() == rows[i]);
    assert(all.take(i + 1)[i] == all[i]);
}

/// Whether no earlier transaction of the statement took the stored one at `j`.
pub open spec fn left_over(pairs: Seq<Option<int>>, i: int, j: int) -> bool {
    forall|k: int| 0 <= k < i ==> (#[trigger] pairs[k]) != Some(j)
}

proof fn lemma_left_over(pairs: Seq<Option<int>>, n: nat, i: int, j: int)
    requires
        0 <= i <= pairs.len(),
        0 <= j < n,
    ensures
        taken(pairs.take(i), n)[j] == !left_over(pairs, i, j),
{
    let t = pairs.take(i);
    if t.contains(Some(j)) {
        let k = choose|k: int| 0 <= k < t.len() && t[k] == Some(j);
        assert(pairs[k] == Some(j));
    }
    if !left_over(pairs, i, j) {
        let k = choose|k: int| 0 <= k < i && (#[trigger] pairs[k]) == Some(j);
        assert(t[k] == Some(j));
    }
}

/// What a transaction of a statement is matched with was left over by those before it, and
/// is at most a cent and the tolerance in days from it.
pub proof fn law_matched_row_is_near(
    rows: Seq<OfxTransaction>,
    db: Seq<TransactionRecord>,
    tolerance: int,
    i: int,
    j: int,
)
    requires
        0 <= i < rows.len(),
        pairing(rows, db, tolerance)[i] == Some(j),
        differ_exactly(db[j], rows[i]),
    ensures
        0 <= j < db.len(),
        left_over(pairing(rows, db, tolerance), i, j),
        100 * money_apart(db[j], rows[i]) <= one(),
        days_apart(db[j], rows[i]) <= tolerance,
{
    law_pairing_is_one_to_one(rows, db, tolerance);
    law_agreeing_rows_are_near(db[j], rows[i], tolerance);
    let pairs = pairing(rows, db, tolerance);
    assert forall|k: int| 0 <= k < i implies (#[trigger] pairs[k]) != Some(j) by {
        if pairs[k] is Some {
            assert(pairs[k] != pairs[i]);
        }
    }
}

/// A transaction of a statement is missing only where every stored one was taken before, or
/// is more than a cent or the tolerance away.
pub proof fn law_missing_row_has_no_match(
    rows: Seq<OfxTransaction>,
    db: Seq<TransactionRecord>,
    tolerance: int,
    i: int,
    j: int,
)
    requires
        0 <= i < rows.len(),
        0 <= j < db.len(),
        pairing(rows, db, tolerance)[i] is None,
        differ_exactly(db[j], rows[i]),
        left_over(pairing(rows, db, tolerance), i, j),
    ensures
        100 * money_apart(db[j], rows[i]) > one() || days_apart(db[j], rows[i]) > tolerance,
{
    let pairs = pairing(rows, db, tolerance);
    lemma_pairing_at(rows, db, tolerance, i);
    let used = taken(pairs.take(i), db.len());
    lemma_left_over(pairs, db.len(), i, j);
    law_best_match_is_closest(rows[i], db, used, tolerance, db.len() as int);
    assert(!candidate(rows[i], db, used, tolerance, j));
    law_agreeing_rows_are_near(db[j], rows[i], tolerance);
}

/// Whether the first of two stored transactions stands before the second for a statement's:
/// by amount, then by day, then by description, then by position.
pub open spec fn stands_first(
    row: OfxTransaction,
    db: Seq<TransactionRecord>,
    a: int,
    b: int,
) -> bool {
    let (x, y) = (money_apart(db[a], row), money_apart(db[b], row));
    let (s, t) = (days_apart(db[a], row), days_apart(db[b], row));
    let (m, n) = (
        distance(row.description@, db[a].raw_description@),
        distance(row.description@, db[b].raw_description@),
    );
    x < y || (x == y && (s < t || (s == t && (m < n || (m == n && a < b)))))
}

/// Of all the stored transactions that are left over and near enough, a statement's takes
/// the first.
pub proof fn law_match_stands_first(
    rows: Seq<OfxTransaction>,
    db: Seq<TransactionRecord>,
    tolerance: int,
    i: int,
    p: int,
    j: int,
)
    requires
        0 <= i < rows.len(),
        0 <= j < db.len(),
        p != j,
        pairing(rows, db, tolerance)[i] == Some(p),
        forall|k: int| 0 <= k < db.len() ==> differ_exactly(#[trigger] db[k], rows[i]),
        left_over(pairing(rows, db, tolerance), i, j),
        near(db[j], rows[i], tolerance),
    ensures
        stands_first(rows[i], db, p, j),
{
    let pairs = pairing(rows, db, tolerance);
    lemma_pairing_at(rows, db, tolerance, i);
    let used = taken(pairs.take(i), db.len());
    lemma_left_over(pairs, db.len(), i, j);
    law_best_match_is_closest(rows[i], db, used, tolerance, db.len() as int);
    law_agreeing_rows_are_near(db[j], rows[i], tolerance);
    law_agreeing_rows_are_near(db[p], rows[i], tolerance);
    assert(candidate(rows[i], db, used, tolerance, j));
    assert(!closer(rows[i], db[j], db[p]));
    if j < p {
        lemma_earliest(rows[i], db, used, tolerance, db.len() as int, j);
    }
}

proof fn lemma_earliest(
    row: OfxTransaction,
    db: Seq<TransactionRecord>,
    used: Seq<bool>,
    tolerance: int,
    n: int,
    j: int,
)
    requires
        0 <= n <= db.len(),
        best_among(row, db, used, tolerance, n) is Some,
        0 <= j < best_among(row, db, used, tolerance, n)->0,
        candidate(row, db, used, tolerance, j),
    ensures
        closer(row, db[best_among(row, db, used, tolerance, n)->0], db[j]),
    decreases n,
{
    law_best_match_is_closest(row, db, used, tolerance, n);
    law_best_match_is_closest(row, db, used, tolerance, n - 1);
    let before = best_among(row, db, used, tolerance, n - 1);
    let b = best_among(row, db, used, tolerance, n)->0;
    if b == n - 1 {
        if before is Some {
            assert(!closer(row, db[j], db[before->0]));
        } else {
            assert(!candidate(row, db, used, tolerance, j));
        }
    } else {
        lemma_earliest(row, db, used, tolerance, n - 1, j);
    }
}

// ---------------------------------------------------------------------------
// The report

proof fn lemma_unmarked(marks: Seq<bool>)
    ensures
        forall|k: int|
            0 <= k < unmarked(marks).len() ==> 0 <= #[trigger] unmarked(marks)[k] < marks.len()
                && !marks[unmarked(marks)[k]],
        forall|j: int|
            0 <= j < marks.len() && !(#[trigger] marks[j]) ==> unmarked(marks).contains(j),
    decreases marks.len(),
{
    if marks.len() > 0 {
        let t = marks.drop_last();
        lemma_unmarked(t);
        assert forall|j: int| 0 <= j < marks.len() && !(#[trigger] marks[j]) implies unmarked(
            marks,
        ).contains(j) by {
            if j < t.len() {
                assert(!t[j]);
                let k = choose|k: int| 0 <= k < unmarked(t).len() && unmarked(t)[k] == j;
                assert(unmarked(marks)[k] == j);
            } else {
                assert(unmarked(marks)[unmarked(marks).len() - 1] == j);
            }
        }
    }
}

/// Marking one more leaves one fewer unmarked.
proof fn lemma_mark_one(marks: Seq<bool>, p: int)
    requires
        0 <= p < marks.len(),
        !marks[p],
    ensures
        unmarked(marks.update(p, true)).len() + 1 == unmarked(marks).len(),
    decreases marks.len(),
{
    let after = marks.update(p, true);
    if p == marks.len() - 1 {
        assert(after.drop_last() =~= marks.drop_last());
    } else {
        assert(after.drop_last() =~= marks.drop_last().update(p, true));
        lemma_mark_one(marks.drop_last(), p);
    }
}

proof fn lemma_none_marked(n: nat)
    ensures
        unmarked(Seq::new(n, |i: int| false)).len() == n,
    decreases n,
{
    if n > 0 {
        lemma_none_marked((n - 1) as nat);
        assert(Seq::new(n, |i: int| false).drop_last() =~= Seq::new((n - 1) as nat, |i: int| false));
    }
}

proof fn lemma_taken_count(
    rows: Seq<OfxTransaction>,
    db: Seq<TransactionRecord>,
    tolerance: int,
)
    ensures
        ({
            let pairs = pairing(rows, db, tolerance);
            unmarked(taken(pairs, db.len())).len() + matched_count(pairs) == db.len()
        }),
    decreases rows.len(),
{
    let pairs = pairing(rows, db, tolerance);
    let n = db.len();
    if rows.len() == 0 {
        assert(taken(pairs, n) =~= Seq::new(n, |i: int| false));
        lemma_none_marked(n);
    } else {
        let before = pairing(rows.drop_last(), db, tolerance);
        lemma_taken_count(rows.drop_last(), db, tolerance);
        law_pairing_is_one_to_one(rows, db, tolerance);
        law_pairing_is_one_to_one(rows.drop_last(), db, tolerance);
        assert(pairs.drop_last() =~= before);
        let last = pairs.last();
        assert(last == pairs[rows.len() - 1]);
        match last {
            Some(p) => {
                assert(!before.contains(Some(p))) by {
                    if before.contains(Some(p)) {
                        let k = choose|k: int| 0 <= k < before.len() && before[k] == Some(p);
                        assert(pairs[k] == Some(p));
                        assert(pairs[k] != pairs[rows.len() - 1]);
                    }
                }
                assert(taken(pairs, n) =~= taken(before, n).update(p, true)) by {
                    assert forall|k: int| 0 <= k < n implies taken(pairs, n)[k] == taken(
                        before,
                        n,
                    ).update(p, true)[k] by {
                        lemma_contains_push(before, pairs, k);
                    }
                }
                lemma_mark_one(taken(before, n), p);
            },
            None => {
                assert(taken(pairs, n) =~= taken(before, n)) by {
                    assert forall|k: int| 0 <= k < n implies taken(pairs, n)[k] == taken(
                        before,
                        n,
                    )[k] by {
                        lemma_contains_push(before, pairs, k);
                    }
                }
            },
        }
    }
}

proof fn lemma_contains_push(before: Seq<Option<int>>, pairs: Seq<Option<int>>, k: int)
    requires
        pairs.len() > 0,
        pairs.drop_last() == before,
    ensures
        pairs.contains(Some(k)) <==> before.contains(Some(k)) || pairs.last() == Some(k),
{
    if pairs.contains(Some(k)) {
        let j = choose|j: int| 0 <= j < pairs.len() && pairs[j] == Some(k);
        if j < before.len() {
            assert(before[j] == Some(k));
        }
    }
    if before.contains(Some(k)) {
        let j = choose|j: int| 0 <= j < before.len() && before[j] == Some(k);
        assert(pairs[j] == Some(k));
    }
    if pairs.last() == Some(k) {
        assert(pairs[pairs.len() - 1] == Some(k));
    }
}

/// Every transaction of the statement is matched or missing, and every stored one is
/// matched or extra: the counts of a report add up on both sides.
pub proof fn law_report_accounts_for_all(
    out: OfxConsistencyOutput,
    q: OfxQuery,
    rows: Seq<TransactionRecord>,
)
    requires
        compares(out, q, rows),
    ensures
        out.matched + out.missing_in_finance == q.rows@.len(),
        out.matched + out.extra_in_finance == rows.len(),
        out.extra_in_finance == out.extra_transactions@.len(),
        out.consistent <==> (out.matched == q.rows@.len() && out.matched == rows.len()),
{
    lemma_taken_count(q.rows@, rows, q.date_tolerance_days as int);
}

/// A line of a report names a stored transaction that is at most a cent and the tolerance
/// from the statement's, with its own date and amount; it is marked as missing exactly where
/// it names none, and as plainly matched exactly where amount and day are the same and one
/// description holds the other.
pub proof fn law_report_line_is_true(
    out: OfxConsistencyOutput,
    q: OfxQuery,
    rows: Seq<TransactionRecord>,
    i: int,
)
    requires
        compares(out, q, rows),
        0 <= i < q.rows@.len(),
        forall|k: int| 0 <= k < rows.len() ==> differ_exactly(#[trigger] rows[k], q.rows@[i]),
    ensures
        out.matches@[i].status@ == "missing-in-finance"@ <==> out.matches@[i].transaction_id is None,
        out.matches@[i].transaction_id is Some ==> exists|j: int|
            {
                &&& 0 <= j < rows.len()
                &&& opt_text(out.matches@[i].transaction_id) == Some(
                    (#[trigger] rows[j]).transaction_id@,
                )
                &&& out.matches@[i].transaction_amount == Some(rows[j].amount)
                &&& 100 * money_apart(rows[j], q.rows@[i]) <= one()
                &&& days_apart(rows[j], q.rows@[i]) <= q.date_tolerance_days
                &&& out.matches@[i].date_diff_days == Some(days_apart(rows[j], q.rows@[i]) as i64)
                &&& out.matches@[i].status@ == "matched"@ <==> rows[j].amount.scaled()
                    == q.rows@[i].amount.scaled() && rows[j].transaction_date.number()
                    == q.rows@[i].transaction_date.number() && distance(
                    q.rows@[i].description@,
                    rows[j].raw_description@,
                ) <= 1
            },
{
    reveal_strlit("missing-in-finance");
    reveal_strlit("matched");
    reveal_strlit("matched-near");
    let tol = q.date_tolerance_days as int;
    let pairs = pairing(q.rows@, rows, tol);
    law_pairing_is_one_to_one(q.rows@, rows, tol);
    assert(hit_of(pairs, rows, i) is Some <==> pairs[i] is Some);
    assert("missing-in-finance"@.len() != "matched"@.len());
    assert("missing-in-finance"@.len() != "matched-near"@.len());
    assert("matched"@.len() != "matched-near"@.len());
    let m = out.matches@[i];
    match pairs[i] {
        Some(j) => {
            law_matched_row_is_near(q.rows@, rows, tol, i, j);
            law_agreeing_rows_are_near(rows[j], q.rows@[i], tol);
            assert(opt_text(m.transaction_id) == Some(rows[j].transaction_id@));
        },
        None => {},
    }
}

/// A stored transaction that no line of the report names is listed as extra, and only
/// such a one is.
pub proof fn law_extra_rows_are_unmatched(
    out: OfxConsistencyOutput,
    q: OfxQuery,
    rows: Seq<TransactionRecord>,
    j: int,
)
    requires
        compares(out, q, rows),
        0 <= j < rows.len(),
    ensures
        ({
            let pairs = pairing(q.rows@, rows, q.date_tolerance_days as int);
            &&& left_over(pairs, pairs.len() as int, j) ==> exists|k: int|
                0 <= k < out.extra_transactions@.len() && (
                #[trigger] out.extra_transactions@[k]).transaction_id@ == rows[j].transaction_id@
                    && out.extra_transactions@[k].amount == rows[j].amount
            &&& forall|k: int|
                0 <= k < out.extra_transactions@.len() ==> exists|r: int|
                    0 <= r < rows.len() && left_over(pairs, pairs.len() as int, r) && (
                    #[trigger] rows[r]).transaction_id@ == (
                    #[trigger] out.extra_transactions@[k]).transaction_id@
        }),
{
    let pairs = pairing(q.rows@, rows, q.date_tolerance_days as int);
    let n = pairs.len() as int;
    let marks = taken(pairs, rows.len());
    let extras = unmarked(marks);
    assert(pairs.take(n) =~= pairs);
    lemma_unmarked(marks);
    lemma_left_over(pairs, rows.len(), n, j);
    if left_over(pairs, n, j) {
        assert(!marks[j]);
        let k = choose|k: int| 0 <= k < extras.len() && extras[k] == j;
        assert(out.extra_transactions@[k].transaction_id@ == rows[j].transaction_id@);
    }
    assert forall|k: int| 0 <= k < out.extra_transactions@.len() implies exists|r: int|
        0 <= r < rows.len() && left_over(pairs, n, r) && (#[trigger] rows[r]).transaction_id@ == (
        #[trigger] out.extra_transactions@[k]).transaction_id@ by {
        let r = extras[k];
        lemma_left_over(pairs, rows.len(), n, r);
        assert(rows[r].transaction_id@ == out.extra_transactions@[k].transaction_id@);
    }
}

// ---------------------------------------------------------------------------
// What is compared

/// With an account given, exactly the stored transactions of that account are compared.
pub proof fn law_given_account_is_compared(
    q: OfxQuery,
    db: Seq<TransactionRecord>,
    account: Seq<char>,
    filter: Option<Seq<char>>,
    rows: Seq<TransactionRecord>,
    r: TransactionRecord,
)
    requires
        selected(q, db, Some(account), filter, rows),
    ensures
        rows.contains(r) <==> db.contains(r) && opt_text(r.account_id) == Some(account),
{
    let f = |r: TransactionRecord| opt_text(r.account_id) == Some(account);
    lemma_filtered(db, f, r);
}

/// The days to look at hold every stored transaction that is within the tolerance of some
/// transaction of the statement.
pub proof fn law_window_holds_every_match(
    q: OfxQuery,
    raw: Seq<char>,
    tolerance: int,
    i: int,
    day: Date,
)
    requires
        asks_for(q, raw, tolerance),
        0 <= i < q.rows@.len(),
        day.valid(),
        forall|k: int| 0 <= k < q.rows@.len() ==> (#[trigger] q.rows@[k]).transaction_date.valid(),
        abs(day.number() - q.rows@[i].transaction_date.number()) <= tolerance,
    ensures
        q.since.number() <= day.number() <= q.until.number(),
        q.range_start.number() <= q.rows@[i].transaction_date.number() <= q.range_end.number(),
{
    let rows = q.rows@;
    let blocks = crate::ofx::blocks_of(crate::text::lines_of(raw));
    let unsorted = choose|unsorted: Seq<OfxTransaction>|
        #![trigger sorted(unsorted)]
        unsorted.len() == blocks.len() && (forall|i: int|
            0 <= i < unsorted.len() ==> crate::ofx::reads_block(#[trigger] unsorted[i], blocks[i]))
            && rows == sorted(unsorted);
    law_sorted(unsorted);
    assert(in_order(rows));
    let last = rows.len() - 1;
    law_dates_ordered_by_number(rows[0].transaction_date, rows[i].transaction_date);
    law_dates_ordered_by_number(rows[i].transaction_date, rows[0].transaction_date);
    law_dates_ordered_by_number(rows[i].transaction_date, rows[last].transaction_date);
    law_dates_ordered_by_number(rows[last].transaction_date, rows[i].transaction_date);
}

/// Where a statement names stored transactions by their identifiers, the account it is
/// compared with is one that no other account has more of them than.
pub proof fn law_named_account_is_compared(
    q: OfxQuery,
    db: Seq<TransactionRecord>,
    filter: Option<Seq<char>>,
    rows: Seq<TransactionRecord>,
)
    requires
        selected(q, db, None, filter, rows),
        fit_accounts(q.rows@, db).len() > 0,
    ensures
        exists|id: Seq<char>|
            {
                &&& #[trigger] named_times(q.rows@, db, id) > 0
                &&& filter == Some("inferred_account_id:"@ + id)
                &&& forall|other: Seq<char>| #[trigger]
                    named_times(q.rows@, db, other) <= named_times(q.rows@, db, id)
                &&& forall|r: TransactionRecord| #[trigger]
                    rows.contains(r) <==> db.contains(r) && opt_text(r.account_id) == Some(id)
            },
{
    let keys = fit_accounts(q.rows@, db);
    let id = choose|id: Seq<char>| #[trigger]
        most_common(keys, id) && filter == Some("inferred_account_id:"@ + id) && rows == of_account(
            db,
            id,
        );
    lemma_named_times(q.rows@, db, id);
    assert forall|other: Seq<char>| #[trigger]
        named_times(q.rows@, db, other) <= named_times(q.rows@, db, id) by {
        lemma_named_times(q.rows@, db, other);
        assert(crate::order::positions(keys, other).len() <= crate::order::positions(keys, id).len());
    }
    assert forall|r: TransactionRecord| #[trigger]
        rows.contains(r) <==> db.contains(r) && opt_text(r.account_id) == Some(id) by {
        lemma_filtered(db, |r: TransactionRecord| opt_text(r.account_id) == Some(id), r);
    }
    assert(named_times(q.rows@, db, id) > 0);
}

/// How many stored transactions of an account bear an identifier of the statement.
pub open spec fn named_times(
    rows: Seq<OfxTransaction>,
    db: Seq<TransactionRecord>,
    id: Seq<char>,
) -> nat
    decreases db.len(),
{
    if db.len() == 0 {
        0
    } else {
        named_times(rows, db.drop_last(), id) + (if opt_text(db.last().account_id) == Some(id) && (
        exists|k: int|
            0 <= k < rows.len() && opt_text((#[trigger] rows[k]).fit_id) == Some(
                db.last().transaction_id@,
            )) {
            1nat
        } else {
            0
        })
    }
}

proof fn lemma_named_times(rows: Seq<OfxTransaction>, db: Seq<TransactionRecord>, id: Seq<char>)
    ensures
        crate::order::positions(fit_accounts(rows, db), id).len() == named_times(rows, db, id),
    decreases db.len(),
{
    if db.len() > 0 {
        lemma_named_times(rows, db.drop_last(), id);
        let before = fit_accounts(rows, db.drop_last());
        let all = fit_accounts(rows, db);
        if all.len() > before.len() {
            assert(all.drop_last() =~= before);
        }
    }
}

} // verus!
