//! What the checks of the data and the summary of a sync promise.

use crate::amount::exact_sum;
use crate::date::{day_count, Date};
use crate::description::related;
use crate::health::{
    first_overlap, flat_check, flat_ids, from_source, lag_check, of_severity, ordered_checks,
    overlap_check, overlaps, overlaps_of, problem_count, uncategorized_check, with_category,
    PulseItem,
};
use crate::money::plain_text;
use crate::order::lemma_where_at;
use crate::records::{opt_text, AccountRecord, TransactionRecord};
use crate::seqs::lemma_contains_last;
use crate::summary::{
    checking_balances, is_new, is_pending, needs_context, new_rows, pending_rows, weekday_of,
    AccountSnapshotRecord,
};
use vstd::prelude::*;

verus! {

// ---------------------------------------------------------------------------
// Overlaps

/// Whether a row of the older ledger and one of the feed may be the same expense: both went
/// out, on the same account, over the same size to the cent, at most a week apart, in
/// related words.
pub open spec fn may_be_same(legacy: PulseItem, pluggy: PulseItem) -> bool {
    let d = legacy.transaction_date.number() - pluggy.transaction_date.number();
    &&& legacy.source@ == "legacy"@ && pluggy.source@ == "pluggy"@
    &&& legacy.amount.sign() && pluggy.amount.sign()
    &&& opt_text(legacy.account_id) == opt_text(pluggy.account_id)
    &&& plain_text(crate::amount::magnitude(legacy.amount)) == plain_text(
        crate::amount::magnitude(pluggy.amount),
    )
    &&& -7 <= d <= 7
    &&& related(legacy.description@, pluggy.description@)
}

/// Each overlap that is told of is a pair that may be the same expense, and of the rows of
/// the feed that may be it the first.
pub proof fn law_overlaps_may_be_same(items: Seq<PulseItem>, n: int, k: int)
    requires
        0 <= n <= items.len() <= usize::MAX,
        0 <= k < overlaps_of(items, n).len(),
    ensures
        ({
            let o = overlaps_of(items, n)[k];
            &&& o.legacy < n
            &&& o.pluggy < items.len()
            &&& may_be_same(items[o.legacy as int], items[o.pluggy as int])
            &&& forall|j: int|
                0 <= j < o.pluggy ==> !may_be_same(items[o.legacy as int], #[trigger] items[j])
        }),
    decreases n,
{
    let before = overlaps_of(items, n - 1);
    if k < before.len() {
        law_overlaps_may_be_same(items, n - 1, k);
    } else {
        lemma_first_overlap(items, items[n - 1], 0);
    }
}

/// Every row of the older ledger that may be a row of the feed is told of.
pub proof fn law_every_overlap_is_told(items: Seq<PulseItem>, n: int, i: int, j: int)
    requires
        0 <= i < n <= items.len() <= usize::MAX,
        0 <= j < items.len(),
        may_be_same(items[i], items[j]),
    ensures
        exists|k: int|
            0 <= k < overlaps_of(items, n).len() && (#[trigger] overlaps_of(items, n)[k]).legacy
                == i,
    decreases n,
{
    let (a, b) = (overlaps_of(items, n - 1), overlaps_of(items, n));
    if i < n - 1 {
        law_every_overlap_is_told(items, n - 1, i, j);
        let k = choose|k: int| 0 <= k < a.len() && (#[trigger] a[k]).legacy == i;
        assert(b[k] == a[k]);
    } else {
        lemma_first_overlap(items, items[i], 0);
        assert(overlaps(items[i], items[j]));
        assert(b[b.len() - 1].legacy == i);
    }
}

proof fn lemma_first_overlap(items: Seq<PulseItem>, row: PulseItem, from: int)
    requires
        0 <= from <= items.len(),
    ensures
        match first_overlap(items, row, from) {
            Some(j) => from <= j < items.len() && overlaps(row, items[j]) && forall|k: int|
                from <= k < j ==> !overlaps(row, #[trigger] items[k]),
            None => forall|k: int| from <= k < items.len() ==> !overlaps(row, #[trigger] items[k]),
        },
    decreases items.len() - from,
{
    if from < items.len() && !overlaps(row, items[from]) {
        lemma_first_overlap(items, row, from + 1);
    }
}

// ---------------------------------------------------------------------------
// Counts

/// The categories that are told of as flat are those without a colon.
pub proof fn law_flat_categories(items: Seq<PulseItem>, id: Seq<char>)
    ensures
        flat_ids(items).contains(id) <==> !id.contains(':') && exists|i: int|
            0 <= i < items.len() && opt_text((#[trigger] items[i]).category_id) == Some(id),
    decreases items.len(),
{
    if items.len() > 0 {
        let t = items.drop_last();
        law_flat_categories(t, id);
        let (a, b) = (flat_ids(t), flat_ids(items));
        let last = items.len() - 1;
        if b.len() > a.len() {
            assert(b.drop_last() =~= a);
            lemma_contains_last(b, id);
        }
        if exists|i: int| 0 <= i < t.len() && opt_text((#[trigger] t[i]).category_id) == Some(id) {
            let i = choose|i: int|
                0 <= i < t.len() && opt_text((#[trigger] t[i]).category_id) == Some(id);
            assert(items[i] == t[i]);
        }
        if exists|i: int|
            0 <= i < items.len() && opt_text((#[trigger] items[i]).category_id) == Some(id) {
            let i = choose|i: int|
                0 <= i < items.len() && opt_text((#[trigger] items[i]).category_id) == Some(id);
            if i < last {
                assert(t[i] == items[i]);
            }
        }
        assert(items[last] == items.last());
    } else {
        assert(!flat_ids(items).contains(id));
    }
}

/// How many items come from a source, and how many have a category, are never more than
/// there are; two sources share no item.
pub proof fn law_sources_are_apart(items: Seq<PulseItem>, a: Seq<char>, b: Seq<char>)
    requires
        a != b,
    ensures
        from_source(items, a) + from_source(items, b) <= items.len(),
        with_category(items) <= items.len(),
        (forall|i: int| 0 <= i < items.len() ==> (#[trigger] items[i]).source@ == a) ==> from_source(
            items,
            a,
        ) == items.len(),
        (forall|i: int| 0 <= i < items.len() ==> (#[trigger] items[i]).category_id is Some)
            ==> with_category(items) == items.len(),
        (forall|i: int| 0 <= i < items.len() ==> (#[trigger] items[i]).category_id is None)
            ==> with_category(items) == 0,
    decreases items.len(),
{
    if items.len() > 0 {
        let t = items.drop_last();
        law_sources_are_apart(t, a, b);
        assert(forall|i: int| 0 <= i < t.len() ==> t[i] == #[trigger] items[i]);
        assert(items[items.len() - 1] == items.last());
        if forall|i: int| 0 <= i < items.len() ==> (#[trigger] items[i]).source@ == a {
            assert forall|i: int| 0 <= i < t.len() implies (#[trigger] t[i]).source@ == a by {
                assert(items[i] == t[i]);
            }
        }
        if forall|i: int| 0 <= i < items.len() ==> (#[trigger] items[i]).category_id is Some {
            assert forall|i: int| 0 <= i < t.len() implies (#[trigger] t[i]).category_id is Some by {
                assert(items[i] == t[i]);
            }
        }
        if forall|i: int| 0 <= i < items.len() ==> (#[trigger] items[i]).category_id is None {
            assert forall|i: int| 0 <= i < t.len() implies (#[trigger] t[i]).category_id is None by {
                assert(items[i] == t[i]);
            }
        }
    }
}

// ---------------------------------------------------------------------------
// Checks

/// A check grows no milder as what it counts grows; it is well only where nothing is wrong.
pub proof fn law_checks_grow_worse(days: i64, more: i64, few: i64, many: i64)
    requires
        days <= more,
        few <= many,
    ensures
        lag_check(Some(more)).0 <= lag_check(Some(days)).0,
        lag_check(Some(days)).0 == 2 <==> days <= 1,
        lag_check(Some(days)).0 == 0 <==> days > 3,
        lag_check(None).0 == 1,
        uncategorized_check(many).0 <= uncategorized_check(few).0,
        uncategorized_check(few).0 == 2 <==> few <= 0,
        uncategorized_check(few).0 == 0 <==> few > 10,
{
}

/// Flat categories are a warning, overlaps a failure; without any all is well.
pub proof fn law_checks_of_rows(n: usize)
    ensures
        flat_check(n).0 == (if n == 0 {
            2u8
        } else {
            1
        }),
        overlap_check(n).0 == (if n == 0 {
            2u8
        } else {
            0
        }),
{
}

/// The checks are told with the worst first, each with the mark of its severity; what is
/// told is one of the checks, and each of them is told.
pub proof fn law_checks_worst_first(checks: Seq<(u8, Seq<char>)>, i: int, j: int)
    requires
        0 <= i < j < ordered_checks(checks).len(),
        forall|k: int| 0 <= k < checks.len() ==> (#[trigger] checks[k]).0 <= 2,
    ensures
        ordered_checks(checks)[i].0 <= ordered_checks(checks)[j].0,
        checks.contains((ordered_checks(checks)[i].0, ordered_checks(checks)[i].2)),
        ordered_checks(checks).len() == checks.len(),
{
    let n = checks.len() as int;
    lemma_of_severity(checks, n, 0);
    lemma_of_severity(checks, n, 1);
    lemma_of_severity(checks, n, 2);
    lemma_severities(checks, n);
    let (a, b, c) = (
        of_severity(checks, n, 0),
        of_severity(checks, n, 1),
        of_severity(checks, n, 2),
    );
    let all = ordered_checks(checks);
    assert forall|k: int| 0 <= k < all.len() implies (k < a.len() ==> all[k] == a[k]) && (a.len()
        <= k < a.len() + b.len() ==> all[k] == b[k - a.len()]) && (a.len() + b.len() <= k
        ==> all[k] == c[k - a.len() - b.len()]) by {}
}

proof fn lemma_of_severity(checks: Seq<(u8, Seq<char>)>, n: int, severity: u8)
    requires
        0 <= n <= checks.len(),
    ensures
        forall|k: int|
            0 <= k < of_severity(checks, n, severity).len() ==> (
            #[trigger] of_severity(checks, n, severity)[k]).0 == severity && checks.contains(
                (severity, of_severity(checks, n, severity)[k].2),
            ),
    decreases n,
{
    if n > 0 {
        lemma_of_severity(checks, n - 1, severity);
        let (a, b) = (of_severity(checks, n - 1, severity), of_severity(checks, n, severity));
        assert(checks.contains(checks[n - 1]));
        assert forall|k: int| 0 <= k < b.len() implies (#[trigger] b[k]).0 == severity
            && checks.contains((severity, b[k].2)) by {
            if k < a.len() {
                assert(a[k] == b[k]);
            } else {
                assert((severity, b[k].2) == checks[n - 1]);
            }
        }
    }
}

proof fn lemma_severities(checks: Seq<(u8, Seq<char>)>, n: int)
    requires
        0 <= n <= checks.len(),
        forall|k: int| 0 <= k < checks.len() ==> (#[trigger] checks[k]).0 <= 2,
    ensures
        of_severity(checks, n, 0).len() + of_severity(checks, n, 1).len() + of_severity(
            checks,
            n,
            2,
        ).len() == n,
    decreases n,
{
    if n > 0 {
        lemma_severities(checks, n - 1);
    }
}

/// No problem is told of exactly where every check is well.
pub proof fn law_no_problem_means_well(checks: Seq<(u8, Seq<char>, Seq<char>)>)
    ensures
        problem_count(checks) <= checks.len(),
        problem_count(checks) == 0 <==> forall|i: int|
            0 <= i < checks.len() ==> (#[trigger] checks[i]).0 >= 2,
    decreases checks.len(),
{
    if checks.len() > 0 {
        let t = checks.drop_last();
        law_no_problem_means_well(t);
        let last = checks.len() - 1;
        assert(checks[last] == checks.last());
        if problem_count(checks) == 0 {
            assert forall|i: int| 0 <= i < checks.len() implies (#[trigger] checks[i]).0 >= 2 by {
                if i < last {
                    assert(t[i] == checks[i]);
                }
            }
        }
        if forall|i: int| 0 <= i < checks.len() ==> (#[trigger] checks[i]).0 >= 2 {
            assert forall|i: int| 0 <= i < t.len() implies (#[trigger] t[i]).0 >= 2 by {
                assert(checks[i] == t[i]);
            }
        }
    }
}

// ---------------------------------------------------------------------------
// The summary of a sync

/// A row is new exactly where its identifier was not stored; it waits for a category where
/// it is new and has none, or only a provisional one.
pub proof fn law_new_rows(rows: Seq<TransactionRecord>, existing: Seq<Seq<char>>, k: int)
    requires
        0 <= k < rows.len(),
    ensures
        new_rows(rows, existing).contains(k) <==> !existing.contains(rows[k].transaction_id@),
        pending_rows(rows, existing).contains(k) <==> new_rows(rows, existing).contains(k) && (
        rows[k].category_id is None || rows[k].category_source@ == "unclassified"@
            || rows[k].category_source@ == "fallback"@),
{
    let (f, g) = (is_new(rows, existing), is_pending(rows, existing));
    lemma_where_at(rows.len() as int, f);
    lemma_where_at(rows.len() as int, g);
    let (a, b) = (new_rows(rows, existing), pending_rows(rows, existing));
    assert(f(k) == !existing.contains(rows[k].transaction_id@));
    assert(g(k) == (f(k) && needs_context(rows[k])));
    if a.contains(k) {
        let i = choose|i: int| 0 <= i < a.len() && a[i] == k;
        assert(f(a[i]));
    }
    if b.contains(k) {
        let i = choose|i: int| 0 <= i < b.len() && b[i] == k;
        assert(g(b[i]));
    }
}

/// A day is a Thursday exactly where whole weeks lie between it and the first of January
/// 1970, and the days of the week follow each other.
pub proof fn law_week_goes_on(a: Date, b: Date)
    requires
        a.valid(),
        b.valid(),
        b.number() == a.number() + 1,
    ensures
        weekday_of(a) == "thursday"@ <==> (a.number() - day_count(1970, 1, 1)) % 7 == 0,
        weekday_of(a) == "thursday"@ ==> weekday_of(b) == "friday"@,
        weekday_of(a) == "friday"@ ==> weekday_of(b) == "saturday"@,
        weekday_of(a) == "saturday"@ ==> weekday_of(b) == "sunday"@,
        weekday_of(a) == "sunday"@ ==> weekday_of(b) == "monday"@,
        weekday_of(a) == "monday"@ ==> weekday_of(b) == "tuesday"@,
        weekday_of(a) == "tuesday"@ ==> weekday_of(b) == "wednesday"@,
        weekday_of(a) == "wednesday"@ ==> weekday_of(b) == "thursday"@,
{
    reveal_strlit("monday");
    reveal_strlit("tuesday");
    reveal_strlit("wednesday");
    reveal_strlit("thursday");
    reveal_strlit("friday");
    reveal_strlit("saturday");
    reveal_strlit("sunday");
    assert("monday"@[0] == 'm' && "friday"@[0] == 'f' && "sunday"@[1] == 'u');
    assert("tuesday"@[1] == 'u' && "thursday"@[1] == 'h' && "wednesday"@[0] == 'w');
    assert("saturday"@[1] == 'a');
    assert("tuesday"@.len() == 7 && "thursday"@.len() == 8 && "wednesday"@.len() == 9);
    assert("saturday"@.len() == 8 && "monday"@.len() == 6 && "friday"@.len() == 6);
    assert("sunday"@.len() == 6 && "sunday"@[0] == 's' && "saturday"@[0] == 's');
    assert("tuesday"@[0] == 't' && "thursday"@[0] == 't');
    assert(day_count(1970, 1, 1) == 719163) by {
        reveal_with_fuel(crate::date::days_before_month, 2);
    }
}

/// What the checking accounts hold is what the snapshots with a balance tell of accounts
/// that are stored as checking accounts.
pub proof fn law_checking_balances(
    accounts: Seq<AccountRecord>,
    snapshots: Seq<AccountSnapshotRecord>,
)
    ensures
        exact_sum(checking_balances(accounts, snapshots)) == checking_sum(accounts, snapshots),
    decreases snapshots.len(),
{
    if snapshots.len() > 0 {
        law_checking_balances(accounts, snapshots.drop_last());
        let (a, b) = (
            checking_balances(accounts, snapshots.drop_last()),
            checking_balances(accounts, snapshots),
        );
        if b.len() > a.len() {
            assert(b.drop_last() =~= a);
        }
    }
}

/// What the snapshots of checking accounts come to, counted in the smallest step.
pub open spec fn checking_sum(
    accounts: Seq<AccountRecord>,
    snapshots: Seq<AccountSnapshotRecord>,
) -> int
    decreases snapshots.len(),
{
    if snapshots.len() == 0 {
        0
    } else {
        let s = snapshots.last();
        checking_sum(accounts, snapshots.drop_last()) + (if s.balance is Some
            && s.account_id@.len() > 0 && exists|i: int|
            0 <= i < accounts.len() && (#[trigger] accounts[i]).account_id@ == s.account_id@
                && accounts[i].account_type@ == "checking"@ {
            s.balance->0.scaled()
        } else {
            0
        })
    }
}

} // verus!
