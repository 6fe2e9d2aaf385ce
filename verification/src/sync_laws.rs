//! What bringing in a feed promises: which rows repeat an event, where a sync begins, and
//! how rows are cut into batches.

use crate::amount::{fraction_text, pow10, rounded, units_at, whole_text};
use crate::amount::Amount;
use crate::date::{iso_text, law_iso_text_tells_date, two_digits, year_text, Date};
use crate::money::plain_text;
use crate::records::{text_or_empty, TransactionRecord};
use crate::sync::{
    cuts, fingerprint, kept_rows, known_after, known_before, repeats, skipped_rows, sync_start,
};
use crate::text::{digits, joined, lemma_digits, lower_ascii, words, zero_padded};
use vstd::prelude::*;

verus! {

/// Whether two rows tell of the same event: on the same day, on the same account, over the
/// same amount to the cent, and in the same words but for case and spaces.
pub open spec fn same_event(a: TransactionRecord, b: TransactionRecord) -> bool {
    &&& a.transaction_date.number() == b.transaction_date.number()
    &&& text_or_empty(a.account_id) == text_or_empty(b.account_id)
    &&& plain_text(a.amount) == plain_text(b.amount)
    &&& lower_ascii(joined(words(a.raw_description@), seq![' '])) == lower_ascii(
        joined(words(b.raw_description@), seq![' ']),
    )
}

/// Whether the text holds no bar.
pub open spec fn no_bar(s: Seq<char>) -> bool {
    forall|i: int| 0 <= i < s.len() ==> #[trigger] s[i] != '|'
}

/// Two rows have the same fingerprint exactly where they tell of the same event, as long as
/// their accounts are named without a bar.
pub proof fn law_fingerprint_tells_event(a: TransactionRecord, b: TransactionRecord)
    requires
        a.transaction_date.valid(),
        b.transaction_date.valid(),
        no_bar(text_or_empty(a.account_id)),
        no_bar(text_or_empty(b.account_id)),
    ensures
        fingerprint(a) == fingerprint(b) <==> same_event(a, b),
{
    reveal_strlit("|");
    let (da, db) = (iso_text(a.transaction_date), iso_text(b.transaction_date));
    let (ca, cb) = (text_or_empty(a.account_id), text_or_empty(b.account_id));
    let (ma, mb) = (plain_text(a.amount), plain_text(b.amount));
    let wa = lower_ascii(joined(words(a.raw_description@), seq![' ']));
    let wb = lower_ascii(joined(words(b.raw_description@), seq![' ']));
    crate::date::law_dates_ordered_by_number(a.transaction_date, b.transaction_date);
    lemma_iso_no_bar(a.transaction_date);
    lemma_iso_no_bar(b.transaction_date);
    lemma_plain_no_bar(a.amount);
    lemma_plain_no_bar(b.amount);
    let bar = seq!['|'];
    assert("|"@ =~= bar);
    assert(fingerprint(a) =~= da + bar + (ca + bar + (ma + bar + wa)));
    assert(fingerprint(b) =~= db + bar + (cb + bar + (mb + bar + wb)));
    if fingerprint(a) == fingerprint(b) {
        lemma_parted(da, ca + bar + (ma + bar + wa), db, cb + bar + (mb + bar + wb));
        lemma_parted(ca, ma + bar + wa, cb, mb + bar + wb);
        lemma_parted(ma, wa, mb, wb);
        law_iso_text_tells_date(a.transaction_date, b.transaction_date);
    }
}

/// What stands before the first bar and what stands behind it.
proof fn lemma_parted(x: Seq<char>, r: Seq<char>, y: Seq<char>, t: Seq<char>)
    requires
        no_bar(x),
        no_bar(y),
        x + seq!['|'] + r == y + seq!['|'] + t,
    ensures
        x == y,
        r == t,
{
    let (s, u) = (x + seq!['|'] + r, y + seq!['|'] + t);
    assert(s[x.len() as int] == '|');
    assert(u[y.len() as int] == '|');
    if x.len() < y.len() {
        assert(u[x.len() as int] == y[x.len() as int]);
    }
    if y.len() < x.len() {
        assert(s[y.len() as int] == x[y.len() as int]);
    }
    assert(x =~= s.take(x.len() as int));
    assert(y =~= u.take(y.len() as int));
    assert(r =~= s.skip(x.len() as int + 1));
    assert(t =~= u.skip(y.len() as int + 1));
}

proof fn lemma_padded_no_bar(n: nat, w: nat)
    ensures
        no_bar(zero_padded(digits(n), w)),
        no_bar(digits(n)),
{
    lemma_digits(n);
}

proof fn lemma_iso_no_bar(d: Date)
    ensures
        no_bar(iso_text(d)),
{
    lemma_padded_no_bar(d.d() as nat, 2);
    lemma_padded_no_bar(d.m() as nat, 2);
    lemma_padded_no_bar(d.y() as nat, 4);
    lemma_padded_no_bar((-d.y()) as nat, 4);
    assert(no_bar(year_text(d.y())));
    assert(no_bar(two_digits(d.m())));
    assert(no_bar(two_digits(d.d())));
}

proof fn lemma_plain_no_bar(a: Amount)
    ensures
        no_bar(plain_text(a)),
{
    let r = rounded(a, 2);
    lemma_padded_no_bar(units_at(r, 2) / pow10(2) as nat, 2);
    lemma_padded_no_bar(units_at(r, 2) % pow10(2) as nat, 2);
    assert(no_bar(whole_text(r, 2)));
    assert(no_bar(fraction_text(r, 2)));
}

/// What is known of an event is the identifier of the last stored row of the feed that
/// tells of it.
pub proof fn law_known_is_last_stored(rows: Seq<TransactionRecord>, fp: Seq<char>)
    ensures
        known_before(rows).contains_key(fp) <==> exists|i: int|
            0 <= i < rows.len() && is_event(#[trigger] rows[i], fp),
        known_before(rows).contains_key(fp) ==> exists|i: int|
            {
                &&& 0 <= i < rows.len()
                &&& is_event(#[trigger] rows[i], fp)
                &&& rows[i].transaction_id@ == known_before(rows)[fp]
                &&& forall|j: int| i < j < rows.len() ==> !is_event(#[trigger] rows[j], fp)
            },
    decreases rows.len(),
{
    if rows.len() > 0 {
        let t = rows.drop_last();
        let last = rows.len() - 1;
        law_known_is_last_stored(t, fp);
        if is_event(rows[last], fp) {
            assert(rows[last].transaction_id@ == known_before(rows)[fp]);
        } else if known_before(t).contains_key(fp) {
            let i = choose|i: int|
                {
                    &&& 0 <= i < t.len()
                    &&& is_event(#[trigger] t[i], fp)
                    &&& t[i].transaction_id@ == known_before(t)[fp]
                    &&& forall|j: int| i < j < t.len() ==> !is_event(#[trigger] t[j], fp)
                };
            assert(rows[i] == t[i]);
            assert forall|j: int| i < j < rows.len() implies !is_event(#[trigger] rows[j], fp) by {
                if j < last {
                    assert(rows[j] == t[j]);
                }
            }
        } else {
            assert forall|j: int| 0 <= j < rows.len() implies !is_event(#[trigger] rows[j], fp) by {
                if j < last {
                    assert(rows[j] == t[j]);
                }
            }
        }
    }
}

/// Whether the row came from the feed and tells of the event.
pub open spec fn is_event(row: TransactionRecord, fp: Seq<char>) -> bool {
    row.source@ == "pluggy"@ && fingerprint(row) == fp
}

/// What was known of an event stays known while rows come in.
proof fn lemma_known_stays(
    known: Map<Seq<char>, Seq<char>>,
    rows: Seq<TransactionRecord>,
    fp: Seq<char>,
)
    requires
        known.contains_key(fp),
    ensures
        known_after(known, rows).contains_key(fp),
        known_after(known, rows)[fp] == known[fp],
    decreases rows.len(),
{
    if rows.len() > 0 {
        lemma_known_stays(known, rows.drop_last(), fp);
    }
}

/// A row of the feed that tells of a stored event under another identifier is left out, and
/// reported with the stored one.
pub proof fn law_repeat_is_left_out(
    known: Map<Seq<char>, Seq<char>>,
    rows: Seq<TransactionRecord>,
    i: int,
)
    requires
        0 <= i < rows.len(),
        rows[i].source@ == "pluggy"@,
        known.contains_key(fingerprint(rows[i])),
        known[fingerprint(rows[i])] != rows[i].transaction_id@,
    ensures
        skipped_rows(known, rows).contains(
            (rows[i].transaction_id@, known[fingerprint(rows[i])], fingerprint(rows[i])),
        ),
    decreases rows.len(),
{
    let t = rows.drop_last();
    let (a, b) = (skipped_rows(known, t), skipped_rows(known, rows));
    let x = (rows[i].transaction_id@, known[fingerprint(rows[i])], fingerprint(rows[i]));
    lemma_known_stays(known, t, fingerprint(rows[i]));
    if i < t.len() {
        assert(t[i] == rows[i]);
        law_repeat_is_left_out(known, t, i);
        let k = choose|k: int| 0 <= k < a.len() && a[k] == x;
        assert(b[k] == x);
    } else {
        assert(repeats(rows.last(), known_after(known, t)));
        assert(b[b.len() - 1] == x);
    }
}

/// A row of the feed that tells of a stored event under its own identifier is kept.
pub proof fn law_known_row_is_kept(
    known: Map<Seq<char>, Seq<char>>,
    rows: Seq<TransactionRecord>,
    i: int,
)
    requires
        0 <= i < rows.len(),
        known.contains_key(fingerprint(rows[i])),
        known[fingerprint(rows[i])] == rows[i].transaction_id@,
    ensures
        kept_rows(known, rows).contains(rows[i]),
    decreases rows.len(),
{
    let t = rows.drop_last();
    let (a, b) = (kept_rows(known, t), kept_rows(known, rows));
    lemma_known_stays(known, t, fingerprint(rows[i]));
    if i < t.len() {
        assert(t[i] == rows[i]);
        law_known_row_is_kept(known, t, i);
        let k = choose|k: int| 0 <= k < a.len() && a[k] == rows[i];
        assert(b[k] == rows[i]);
    } else {
        assert(b[b.len() - 1] == rows[i]);
    }
}

/// The first row of the feed that tells of an event that is not stored is kept.
pub proof fn law_new_event_is_kept(
    known: Map<Seq<char>, Seq<char>>,
    rows: Seq<TransactionRecord>,
    i: int,
)
    requires
        0 <= i < rows.len(),
        !known.contains_key(fingerprint(rows[i])),
        forall|j: int| 0 <= j < i ==> !is_event(#[trigger] rows[j], fingerprint(rows[i])),
    ensures
        kept_rows(known, rows).contains(rows[i]),
    decreases rows.len(),
{
    let t = rows.drop_last();
    let (a, b) = (kept_rows(known, t), kept_rows(known, rows));
    if i < t.len() {
        assert(t[i] == rows[i]);
        assert forall|j: int| 0 <= j < i implies !is_event(#[trigger] t[j], fingerprint(t[i])) by {
            assert(t[j] == rows[j]);
        }
        law_new_event_is_kept(known, t, i);
        let k = choose|k: int| 0 <= k < a.len() && a[k] == rows[i];
        assert(b[k] == rows[i]);
    } else {
        assert forall|j: int| 0 <= j < t.len() implies !is_event(
            #[trigger] t[j],
            fingerprint(rows[i]),
        ) by {
            assert(t[j] == rows[j]);
        }
        lemma_unknown_stays(known, t, fingerprint(rows[i]));
        assert(b[b.len() - 1] == rows[i]);
    }
}

proof fn lemma_unknown_stays(
    known: Map<Seq<char>, Seq<char>>,
    rows: Seq<TransactionRecord>,
    fp: Seq<char>,
)
    requires
        !known.contains_key(fp),
        forall|j: int| 0 <= j < rows.len() ==> !is_event(#[trigger] rows[j], fp),
    ensures
        !known_after(known, rows).contains_key(fp),
    decreases rows.len(),
{
    if rows.len() > 0 {
        let t = rows.drop_last();
        assert forall|j: int| 0 <= j < t.len() implies !is_event(#[trigger] t[j], fp) by {
            assert(t[j] == rows[j]);
        }
        lemma_unknown_stays(known, t, fp);
        assert(!is_event(rows[rows.len() - 1], fp));
    }
}

/// Nothing is left out but a row of the feed that tells of an event under an identifier
/// other than the one it is known by, which is stored or was kept before it.
pub proof fn law_left_out_repeats(
    known: Map<Seq<char>, Seq<char>>,
    rows: Seq<TransactionRecord>,
    i: int,
)
    requires
        0 <= i < skipped_rows(known, rows).len(),
    ensures
        ({
            let (id, other, fp) = skipped_rows(known, rows)[i];
            &&& id != other
            &&& exists|k: int|
                0 <= k < rows.len() && is_event(#[trigger] rows[k], fp) && rows[k].transaction_id@
                    == id
            &&& (known.contains_key(fp) && known[fp] == other) || exists|k: int|
                0 <= k < rows.len() && is_event(#[trigger] rows[k], fp) && rows[k].transaction_id@
                    == other && kept_rows(known, rows).contains(rows[k])
        }),
    decreases rows.len(),
{
    let t = rows.drop_last();
    let last = rows.len() - 1;
    let (a, b) = (skipped_rows(known, t), skipped_rows(known, rows));
    let (id, other, fp) = b[i];
    lemma_kept_grows(known, rows);
    if i < a.len() {
        assert(a[i] == b[i]);
        law_left_out_repeats(known, t, i);
        let k = choose|k: int|
            0 <= k < t.len() && is_event(#[trigger] t[k], fp) && t[k].transaction_id@ == id;
        assert(rows[k] == t[k]);
        if !(known.contains_key(fp) && known[fp] == other) {
            let k = choose|k: int|
                0 <= k < t.len() && is_event(#[trigger] t[k], fp) && t[k].transaction_id@ == other
                    && kept_rows(known, t).contains(t[k]);
            assert(rows[k] == t[k]);
            assert(kept_rows(known, rows).contains(rows[k]));
        }
    } else {
        assert(is_event(rows[last], fp));
        lemma_known_comes_from(known, t, fp);
        if !(known.contains_key(fp) && known[fp] == other) {
            let k = choose|k: int|
                0 <= k < t.len() && is_event(#[trigger] t[k], fp) && t[k].transaction_id@
                    == known_after(known, t)[fp] && kept_rows(known, t).contains(t[k]);
            assert(rows[k] == t[k]);
            assert(kept_rows(known, rows).contains(rows[k]));
        }
    }
}

proof fn lemma_kept_grows(known: Map<Seq<char>, Seq<char>>, rows: Seq<TransactionRecord>)
    requires
        rows.len() > 0,
    ensures
        forall|x: TransactionRecord| #[trigger]
            kept_rows(known, rows.drop_last()).contains(x) ==> kept_rows(known, rows).contains(x),
{
    let (a, b) = (kept_rows(known, rows.drop_last()), kept_rows(known, rows));
    assert forall|x: TransactionRecord| #[trigger] a.contains(x) implies b.contains(x) by {
        let k = choose|k: int| 0 <= k < a.len() && a[k] == x;
        assert(b[k] == x);
    }
}

proof fn lemma_known_comes_from(
    known: Map<Seq<char>, Seq<char>>,
    rows: Seq<TransactionRecord>,
    fp: Seq<char>,
)
    requires
        known_after(known, rows).contains_key(fp),
    ensures
        (known.contains_key(fp) && known[fp] == known_after(known, rows)[fp]) || exists|k: int|
            0 <= k < rows.len() && is_event(#[trigger] rows[k], fp) && rows[k].transaction_id@
                == known_after(known, rows)[fp] && kept_rows(known, rows).contains(rows[k]),
    decreases rows.len(),
{
    if rows.len() > 0 {
        let t = rows.drop_last();
        let last = rows.len() - 1;
        let before = known_after(known, t);
        lemma_kept_grows(known, rows);
        if is_event(rows[last], fp) && !repeats(rows[last], before) {
            let b = kept_rows(known, rows);
            assert(b[b.len() - 1] == rows[last]);
            assert(b.contains(rows[last]));
        } else {
            lemma_known_comes_from(known, t, fp);
            if !(known.contains_key(fp) && known[fp] == before[fp]) {
                let k = choose|k: int|
                    0 <= k < t.len() && is_event(#[trigger] t[k], fp) && t[k].transaction_id@
                        == before[fp] && kept_rows(known, t).contains(t[k]);
                assert(rows[k] == t[k]);
                assert(kept_rows(known, rows).contains(rows[k]));
            }
        }
    }
}

// ---------------------------------------------------------------------------
// The window and the batches

/// A sync that follows another looks two weeks back from the latest transaction, so that
/// late ones come in; the first one begins with the configured start, or two weeks ago. No
/// sync begins before the configured start.
pub proof fn law_sync_looks_back(start: Option<Date>, latest: Option<Date>, today: Date)
    ensures
        ({
            let from = sync_start(start, latest, today);
            let wanted = match latest {
                Some(l) => l.number() - 14,
                None => match start {
                    Some(s) => s.number(),
                    None => today.number() - 14,
                },
            };
            &&& latest is Some && crate::date::in_calendar(latest->0.number() - 14) ==> from
                >= wanted && (from == wanted || (start is Some && from == start->0.number()))
            &&& latest is None ==> from == wanted
            &&& start is Some ==> from >= start->0.number()
        }),
{
}

/// Every row is in exactly one batch, no batch is empty, and none is larger than the size.
pub proof fn law_batches_hold_each_row(bounds: Seq<(usize, usize)>, len: int, size: int, k: int)
    requires
        cuts(bounds, len, size),
        size > 0,
        0 <= k < len,
    ensures
        0 <= k / size < bounds.len(),
        bounds[k / size].0 <= k < bounds[k / size].1,
        bounds[k / size].1 - bounds[k / size].0 <= size,
        forall|i: int|
            0 <= i < bounds.len() && (#[trigger] bounds[i]).0 <= k < bounds[i].1 ==> i == k / size,
{
    let q = k / size;
    assert(q * size <= k < (q + 1) * size) by (nonlinear_arith)
        requires
            q == k / size,
            size > 0,
            k >= 0,
    ;
    assert(0 <= q < bounds.len()) by (nonlinear_arith)
        requires
            q * size <= k,
            k < (q + 1) * size,
            k < len,
            bounds.len() * size >= len,
            size > 0,
            k >= 0,
    ;
    assert((q + 1) * size == q * size + size) by (nonlinear_arith);
    assert(bounds[q].0 == q * size);
    assert forall|i: int|
        0 <= i < bounds.len() && (#[trigger] bounds[i]).0 <= k < bounds[i].1 implies i == q by {
        assert(i * size <= k < (i + 1) * size);
        assert(i == q) by (nonlinear_arith)
            requires
                i * size <= k < (i + 1) * size,
                q * size <= k < (q + 1) * size,
                size > 0,
        ;
    }
}

} // verus!
