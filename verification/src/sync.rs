//! Taking in transactions from the bank feed.

use crate::date::{iso, iso_text, lemma_day_in_calendar, parse_iso, parsed_date, Date};
use crate::money::{decimal_text, plain_text};
use crate::order::{distinct, sorted_keys};
use crate::records::{opt_text, text_or_empty, TransactionRecord};
use crate::text::{
    chars, from_chars, glue, joined, lower_ascii, put, replace_char, replaced, same, split_at_char,
    split_once, texts, to_lower_ascii, words,
};
use vstd::prelude::*;

verus! {

/// How many rows go to the store at once.
pub const UPSERT_BATCH_SIZE: usize = 50;

/// How many audit events go to the store at once.
pub const AUDIT_BATCH_SIZE: usize = 25;

/// How far before the latest transaction a sync begins, in days.
pub const DEFAULT_SYNC_LOOKBACK_DAYS: i64 = 14;

// ---------------------------------------------------------------------------
// Batches

/// Whether the bounds cut that many rows into batches, in order and without a gap: each
/// of the size, but for the last, which may be smaller.
pub open spec fn cuts(bounds: Seq<(usize, usize)>, len: int, size: int) -> bool {
    &&& forall|i: int|
        0 <= i < bounds.len() ==> (#[trigger] bounds[i]).0 == i * size && bounds[i].0 < len
            && bounds[i].1 == (if (i + 1) * size < len {
            (i + 1) * size
        } else {
            len
        })
    &&& bounds.len() * size >= len
}

/// The bounds of the batches in which that many rows go to the store.
pub fn batch_bounds(len: usize, size: usize) -> (r: Vec<(usize, usize)>)
    requires
        size > 0,
    ensures
        cuts(r@, len as int, size as int),
{
    let mut out: Vec<(usize, usize)> = Vec::new();
    let mut start: usize = 0;
    assert(0 * size == 0) by (nonlinear_arith);
    while start < len
        invariant
            size > 0,
            start <= len,
            start < len ==> start == out@.len() * size,
            start == len ==> out@.len() * size >= len,
            forall|i: int|
                0 <= i < out@.len() ==> (#[trigger] out@[i]).0 == i * size && out@[i].0 < len
                    && out@[i].1 == (if (i + 1) * size < len {
                    (i + 1) * size
                } else {
                    len as int
                }),
        decreases len - start,
    {
        let ghost n = out@.len() as int;
        assert((n + 1) * size == n * size + size) by (nonlinear_arith);
        let end: usize = if len - start > size {
            start + size
        } else {
            len
        };
        out.push((start, end));
        start = end;
    }
    out
}

// ---------------------------------------------------------------------------
// Where a sync begins

/// The day that many days before another, where the calendar has it.
pub open spec fn lookback_number(d: Date) -> int {
    d.number() - DEFAULT_SYNC_LOOKBACK_DAYS
}

/// The first day of a sync, counted in days, without an explicit one: some days
/// before the latest transaction seen, else the configured start, else some days
/// before today; never before the configured start.
pub open spec fn sync_start(start: Option<Date>, latest: Option<Date>, today: Date) -> int {
    let computed = match latest {
        Some(l) if crate::date::in_calendar(lookback_number(l)) => lookback_number(l),
        _ => match start {
            Some(s) => s.number(),
            None => lookback_number(today),
        },
    };
    match start {
        Some(s) => if s.number() >= computed {
            s.number()
        } else {
            computed
        },
        None => computed,
    }
}

/// The first day of a sync. An explicit one is taken as it is.
pub fn resolve_sync_from(
    explicit_from: Option<&str>,
    configured_start: Option<&str>,
    latest_seen: Option<Date>,
    today: &Date,
) -> (r: Result<String, String>)
    requires
        crate::date::in_calendar(lookback_number(*today)),
    ensures
        match explicit_from {
            Some(t) => r is Ok && r->Ok_0@ == t@,
            None => match (configured_start, r) {
                (Some(c), Err(e)) => parsed_date(c@) is None && e@
                    == "Falha ao parsear pluggy_start_date "@ + c@,
                (Some(c), Ok(t)) => exists|s: Date, d: Date|
                    {
                        &&& s.valid()
                        &&& parsed_date(c@) == Some((s.y(), s.m(), s.d()))
                        &&& d.valid()
                        &&& d.number() == #[trigger] sync_start(Some(s), latest_seen, *today)
                        &&& t@ == #[trigger] iso_text(d)
                    },
                (None, Ok(t)) => exists|d: Date|
                    {
                        &&& d.valid()
                        &&& d.number() == sync_start(None, latest_seen, *today)
                        &&& t@ == #[trigger] iso_text(d)
                    },
                (None, Err(_)) => false,
            },
        },
{
    match explicit_from {
        Some(t) => {
            return Ok(t.to_string());
        },
        None => {},
    }
    let start: Option<Date> = match configured_start {
        Some(c) => match parse_iso(c) {
            Some(s) => Some(s),
            None => {
                return Err(glue("Falha ao parsear pluggy_start_date ", c));
            },
        },
        None => None,
    };
    let back: Option<Date> = match latest_seen {
        Some(l) => l.plus_days(-DEFAULT_SYNC_LOOKBACK_DAYS),
        None => None,
    };
    let computed: Date = match back {
        Some(d) => d,
        None => match start {
            Some(s) => s,
            None => match today.plus_days(-DEFAULT_SYNC_LOOKBACK_DAYS) {
                Some(d) => d,
                None => *today,
            },
        },
    };
    let chosen: Date = match start {
        Some(s) => if computed.is_before(&s) {
            s
        } else {
            computed
        },
        None => computed,
    };
    computed.known();
    chosen.known();
    proof {
        match back {
            Some(d) => {
                lemma_day_in_calendar(d);
            },
            None => {},
        }
        match start {
            Some(s) => {
                crate::date::law_dates_ordered_by_number(computed, s);
                if s.number() == computed.number() {
                    crate::date::law_dates_ordered_by_number(s, computed);
                }
                assert(chosen.number() == sync_start(Some(s), latest_seen, *today));
            },
            None => {
                assert(chosen.number() == sync_start(None, latest_seen, *today));
            },
        }
    }
    Ok(iso(&chosen))
}

/// A sync never begins before the configured start.
pub proof fn law_sync_not_before_start(start: Date, latest: Option<Date>, today: Date)
    ensures
        sync_start(Some(start), latest, today) >= start.number(),
{
}

// ---------------------------------------------------------------------------
// Duplicates

/// The window of days in which incoming transactions lie.
pub open spec fn spans(rows: Seq<TransactionRecord>, first: Date, last: Date) -> bool {
    &&& forall|i: int|
        0 <= i < rows.len() ==> first.number() <= (#[trigger] rows[i]).transaction_date.number()
            <= last.number()
    &&& exists|i: int| 0 <= i < rows.len() && (#[trigger] rows[i]).transaction_date == first
    &&& exists|i: int| 0 <= i < rows.len() && (#[trigger] rows[i]).transaction_date == last
}

/// The first and the last day on which there are transactions.
pub fn date_window(rows: &Vec<TransactionRecord>) -> (r: Option<(Date, Date)>)
    ensures
        match r {
            Some((first, last)) => spans(rows@, first, last),
            None => rows@.len() == 0,
        },
{
    if rows.len() == 0 {
        return None;
    }
    let mut first = rows[0].transaction_date;
    let mut last = rows[0].transaction_date;
    let mut i: usize = 1;
    let ghost mut a: int = 0;
    let ghost mut b: int = 0;
    while i < rows.len()
        invariant
            1 <= i <= rows.len(),
            0 <= a < i,
            0 <= b < i,
            rows@[a].transaction_date == first,
            rows@[b].transaction_date == last,
            forall|k: int|
                0 <= k < i ==> first.number() <= (#[trigger] rows@[k]).transaction_date.number()
                    <= last.number(),
        decreases rows.len() - i,
    {
        let day = rows[i].transaction_date;
        day.known();
        first.known();
        last.known();
        proof {
            crate::date::law_dates_ordered_by_number(day, first);
            crate::date::law_dates_ordered_by_number(last, day);
        }
        if day.is_before(&first) {
            first = day;
            proof {
                a = i as int;
            }
        }
        if last.is_before(&day) {
            last = day;
            proof {
                b = i as int;
            }
        }
        i = i + 1;
    }
    Some((first, last))
}

/// What makes two transactions of the feed the same event: the day, the account, the
/// signed amount, and the description in small letters with single spaces.
pub open spec fn fingerprint(row: TransactionRecord) -> Seq<char> {
    iso_text(row.transaction_date) + "|"@ + text_or_empty(row.account_id) + "|"@ + plain_text(
        row.amount,
    ) + "|"@ + lower_ascii(joined(words(row.raw_description@), seq![' ']))
}

/// What makes two transactions of the feed the same event.
pub fn dedup_fingerprint(row: &TransactionRecord) -> (r: String)
    ensures
        r@ == fingerprint(*row),
{
    let mut out = chars(iso(&row.transaction_date).as_str());
    put(&mut out, "|");
    match &row.account_id {
        Some(a) => put(&mut out, a.as_str()),
        None => put(&mut out, ""),
    }
    proof {
        reveal_strlit("");
        assert(""@ =~= Seq::<char>::empty());
    }
    put(&mut out, "|");
    put(&mut out, decimal_text(row.amount).as_str());
    put(&mut out, "|");
    let desc = crate::description::normalize_inline_text(row.raw_description.as_str());
    put(&mut out, to_lower_ascii(desc.as_str()).as_str());
    from_chars(&out)
}

/// The transactions known by their fingerprint: the identifier of the last one.
pub open spec fn known_before(rows: Seq<TransactionRecord>) -> Map<Seq<char>, Seq<char>>
    decreases rows.len(),
{
    if rows.len() == 0 {
        Map::empty()
    } else if rows.last().source@ == "pluggy"@ {
        known_before(rows.drop_last()).insert(
            fingerprint(rows.last()),
            rows.last().transaction_id@,
        )
    } else {
        known_before(rows.drop_last())
    }
}

/// Whether a row repeats an event that is known under another identifier.
pub open spec fn repeats(row: TransactionRecord, known: Map<Seq<char>, Seq<char>>) -> bool {
    row.source@ == "pluggy"@ && known.contains_key(fingerprint(row)) && known[fingerprint(row)]
        != row.transaction_id@
}

/// What is known once the rows came in too.
pub open spec fn known_after(
    known: Map<Seq<char>, Seq<char>>,
    rows: Seq<TransactionRecord>,
) -> Map<Seq<char>, Seq<char>>
    decreases rows.len(),
{
    if rows.len() == 0 {
        known
    } else {
        let before = known_after(known, rows.drop_last());
        let row = rows.last();
        if row.source@ == "pluggy"@ && !repeats(row, before) {
            before.insert(fingerprint(row), row.transaction_id@)
        } else {
            before
        }
    }
}

/// The rows that stay.
pub open spec fn kept_rows(
    known: Map<Seq<char>, Seq<char>>,
    rows: Seq<TransactionRecord>,
) -> Seq<TransactionRecord>
    decreases rows.len(),
{
    if rows.len() == 0 {
        Seq::empty()
    } else if repeats(rows.last(), known_after(known, rows.drop_last())) {
        kept_rows(known, rows.drop_last())
    } else {
        kept_rows(known, rows.drop_last()).push(rows.last())
    }
}

/// The rows left out: the identifier of each, that of the known row, and what the
/// two share.
pub open spec fn skipped_rows(
    known: Map<Seq<char>, Seq<char>>,
    rows: Seq<TransactionRecord>,
) -> Seq<(Seq<char>, Seq<char>, Seq<char>)>
    decreases rows.len(),
{
    if rows.len() == 0 {
        Seq::empty()
    } else {
        let before = known_after(known, rows.drop_last());
        let row = rows.last();
        if repeats(row, before) {
            skipped_rows(known, rows.drop_last()).push(
                (row.transaction_id@, before[fingerprint(row)], fingerprint(row)),
            )
        } else {
            skipped_rows(known, rows.drop_last())
        }
    }
}

/// A row left out as a duplicate.
pub struct DedupSkip {
    pub skipped_transaction_id: String,
    pub matched_existing_id: String,
    pub fingerprint: String,
}

impl View for DedupSkip {
    type V = (Seq<char>, Seq<char>, Seq<char>);

    open spec fn view(&self) -> (Seq<char>, Seq<char>, Seq<char>) {
        (self.skipped_transaction_id@, self.matched_existing_id@, self.fingerprint@)
    }
}

pub open spec fn skip_views(s: Seq<DedupSkip>) -> Seq<(Seq<char>, Seq<char>, Seq<char>)> {
    s.map_values(|d: DedupSkip| d@)
}

/// What pairs of fingerprint and identifier tell; the last one counts.
spec fn told(pairs: Seq<(String, String)>) -> Map<Seq<char>, Seq<char>>
    decreases pairs.len(),
{
    if pairs.len() == 0 {
        Map::empty()
    } else {
        told(pairs.drop_last()).insert(pairs.last().0@, pairs.last().1@)
    }
}

fn look_up<'a>(pairs: &'a Vec<(String, String)>, key: &str) -> (r: Option<&'a String>)
    ensures
        match r {
            Some(id) => told(pairs@).contains_key(key@) && told(pairs@)[key@] == id@,
            None => !told(pairs@).contains_key(key@),
        },
{
    let mut i: usize = pairs.len();
    assert(pairs@.take(i as int) =~= pairs@);
    while i > 0
        invariant
            i <= pairs.len(),
            told(pairs@).contains_key(key@) == told(pairs@.take(i as int)).contains_key(key@),
            told(pairs@).contains_key(key@) ==> told(pairs@)[key@] == told(
                pairs@.take(i as int),
            )[key@],
        decreases i,
    {
        assert(pairs@.take(i as int).drop_last() =~= pairs@.take(i - 1));
        assert(pairs@.take(i as int).last() == pairs@[i - 1]);
        if same(pairs[i - 1].0.as_str(), key) {
            return Some(&pairs[i - 1].1);
        }
        i = i - 1;
    }
    None
}

fn note_existing(existing: &Vec<TransactionRecord>) -> (r: Vec<(String, String)>)
    ensures
        told(r@) == known_before(existing@),
{
    let mut pairs: Vec<(String, String)> = Vec::new();
    let mut i: usize = 0;
    assert(existing@.take(0) =~= Seq::<TransactionRecord>::empty());
    while i < existing.len()
        invariant
            i <= existing.len(),
            told(pairs@) == known_before(existing@.take(i as int)),
        decreases existing.len() - i,
    {
        assert(existing@.take(i + 1).drop_last() =~= existing@.take(i as int));
        if same(existing[i].source.as_str(), "pluggy") {
            let ghost before = pairs@;
            pairs.push((dedup_fingerprint(&existing[i]), existing[i].transaction_id.clone()));
            assert(pairs@.drop_last() =~= before);
        }
        i = i + 1;
    }
    assert(existing@.take(i as int) =~= existing@);
    pairs
}

/// Leaves out incoming rows of the feed that repeat an event known under another
/// identifier, and tells which. Rows from elsewhere stay.
pub fn dedup_pluggy_duplicates(
    existing: &Vec<TransactionRecord>,
    incoming: Vec<TransactionRecord>,
) -> (r: (Vec<TransactionRecord>, Vec<DedupSkip>))
    ensures
        r.0@ == kept_rows(known_before(existing@), incoming@),
        skip_views(r.1@) == skipped_rows(known_before(existing@), incoming@),
{
    let mut pairs = note_existing(existing);
    let ghost known = known_before(existing@);
    let ghost all = incoming@;
    let mut rest = incoming;
    let n: usize = rest.len();
    let mut kept: Vec<TransactionRecord> = Vec::new();
    let mut skipped: Vec<DedupSkip> = Vec::new();
    let mut i: usize = 0;
    assert(all.take(0) =~= Seq::<TransactionRecord>::empty());
    assert(skip_views(skipped@) =~= skipped_rows(known, all.take(0)));
    while i < n
        invariant
            i <= n,
            n == all.len(),
            rest@ == all.skip(i as int),
            told(pairs@) == known_after(known, all.take(i as int)),
            kept@ == kept_rows(known, all.take(i as int)),
            skip_views(skipped@) == skipped_rows(known, all.take(i as int)),
        decreases n - i,
    {
        let ghost before = pairs@;
        proof {
            assert(all.take(i + 1).drop_last() =~= all.take(i as int));
            assert(all.take(i + 1).last() == all[i as int]);
        }
        let row = rest.remove(0);
        assert(row == all[i as int]);
        assert(rest@ =~= all.skip(i + 1));
        if !same(row.source.as_str(), "pluggy") {
            kept.push(row);
        } else {
            let fp = dedup_fingerprint(&row);
            let hit: Option<String> = match look_up(&pairs, fp.as_str()) {
                Some(id) => if !same(id.as_str(), row.transaction_id.as_str()) {
                    Some(id.clone())
                } else {
                    None
                },
                None => None,
            };
            match hit {
                Some(id) => {
                    let ghost was = skip_views(skipped@);
                    let skip = DedupSkip {
                        skipped_transaction_id: row.transaction_id.clone(),
                        matched_existing_id: id,
                        fingerprint: fp,
                    };
                    skipped.push(skip);
                    assert(skip_views(skipped@) =~= was.push(skip@));
                },
                None => {
                    pairs.push((fp, row.transaction_id.clone()));
                    assert(pairs@.drop_last() =~= before);
                    kept.push(row);
                },
            }
        }
        i = i + 1;
    }
    assert(all.take(i as int) =~= all);
    (kept, skipped)
}

/// Every incoming row is either kept or reported as left out.
pub proof fn law_dedup_accounts_for_all(
    known: Map<Seq<char>, Seq<char>>,
    rows: Seq<TransactionRecord>,
)
    ensures
        kept_rows(known, rows).len() + skipped_rows(known, rows).len() == rows.len(),
    decreases rows.len(),
{
    if rows.len() > 0 {
        law_dedup_accounts_for_all(known, rows.drop_last());
    }
}

/// Rows that did not come from the feed are never left out.
pub proof fn law_dedup_keeps_other_sources(
    known: Map<Seq<char>, Seq<char>>,
    rows: Seq<TransactionRecord>,
    i: int,
)
    requires
        0 <= i < rows.len(),
        rows[i].source@ != "pluggy"@,
    ensures
        kept_rows(known, rows).contains(rows[i]),
    decreases rows.len(),
{
    let k = kept_rows(known, rows);
    let t = kept_rows(known, rows.drop_last());
    if i == rows.len() - 1 {
        assert(k[k.len() - 1] == rows[i]);
    } else {
        law_dedup_keeps_other_sources(known, rows.drop_last(), i);
        let j = choose|j: int| 0 <= j < t.len() && t[j] == rows[i];
        assert(k[j] == rows[i]);
    }
}

proof fn lemma_known_of_kept(
    known: Map<Seq<char>, Seq<char>>,
    rows: Seq<TransactionRecord>,
    j: int,
)
    requires
        0 <= j < kept_rows(known, rows).len(),
        kept_rows(known, rows)[j].source@ == "pluggy"@,
    ensures
        known_after(known, rows).contains_key(fingerprint(kept_rows(known, rows)[j])),
        known_after(known, rows)[fingerprint(kept_rows(known, rows)[j])] == kept_rows(
            known,
            rows,
        )[j].transaction_id@,
    decreases rows.len(),
{
    if rows.len() > 0 {
        let t = kept_rows(known, rows.drop_last());
        if j < t.len() {
            lemma_known_of_kept(known, rows.drop_last(), j);
        }
    }
}

/// Two kept rows of the feed that share a fingerprint have the same identifier: no
/// event comes in under two identifiers.
pub proof fn law_dedup_one_id_per_event(
    known: Map<Seq<char>, Seq<char>>,
    rows: Seq<TransactionRecord>,
    i: int,
    j: int,
)
    requires
        0 <= i < kept_rows(known, rows).len(),
        0 <= j < kept_rows(known, rows).len(),
        kept_rows(known, rows)[i].source@ == "pluggy"@,
        kept_rows(known, rows)[j].source@ == "pluggy"@,
        fingerprint(kept_rows(known, rows)[i]) == fingerprint(kept_rows(known, rows)[j]),
    ensures
        kept_rows(known, rows)[i].transaction_id@ == kept_rows(known, rows)[j].transaction_id@,
{
    lemma_known_of_kept(known, rows, i);
    lemma_known_of_kept(known, rows, j);
}

proof fn lemma_known_once_stored(existing: Seq<TransactionRecord>, rows: Seq<TransactionRecord>)
    ensures
        known_before(existing + kept_rows(known_before(existing), rows)) == known_after(
            known_before(existing),
            rows,
        ),
    decreases rows.len(),
{
    let known = known_before(existing);
    if rows.len() == 0 {
        assert(existing + kept_rows(known, rows) =~= existing);
    } else {
        let kept = kept_rows(known, rows.drop_last());
        lemma_known_once_stored(existing, rows.drop_last());
        if !repeats(rows.last(), known_after(known, rows.drop_last())) {
            let all = existing + kept.push(rows.last());
            assert(all.drop_last() =~= existing + kept);
            assert(all.last() == rows.last());
        }
    }
}

proof fn lemma_known_again(
    known: Map<Seq<char>, Seq<char>>,
    rows: Seq<TransactionRecord>,
    later: Map<Seq<char>, Seq<char>>,
)
    requires
        forall|key: Seq<char>| #[trigger]
            known_after(known, rows).contains_key(key) ==> later.contains_key(key) && later[key]
                == known_after(known, rows)[key],
    ensures
        kept_rows(later, rows) == kept_rows(known, rows),
        skipped_rows(later, rows) == skipped_rows(known, rows),
        known_after(later, rows) == later,
    decreases rows.len(),
{
    if rows.len() > 0 {
        let before = known_after(known, rows.drop_last());
        let row = rows.last();
        assert forall|key: Seq<char>| #[trigger] before.contains_key(key) implies later.contains_key(
            key,
        ) && later[key] == before[key] by {
            assert(known_after(known, rows).contains_key(key));
        }
        lemma_known_again(known, rows.drop_last(), later);
        if row.source@ == "pluggy"@ {
            if repeats(row, before) {
                assert(before.contains_key(fingerprint(row)));
            } else {
                assert(known_after(known, rows).contains_key(fingerprint(row)));
                assert(later.insert(fingerprint(row), row.transaction_id@) =~= later);
            }
        }
    }
}

/// Bringing in the same rows again, once those that were kept are stored behind the ones
/// that were there, keeps the same rows and leaves out the same ones.
pub proof fn law_second_sync_changes_nothing(
    existing: Seq<TransactionRecord>,
    rows: Seq<TransactionRecord>,
)
    ensures
        ({
            let known = known_before(existing);
            let later = known_before(existing + kept_rows(known, rows));
            kept_rows(later, rows) == kept_rows(known, rows) && skipped_rows(later, rows)
                == skipped_rows(known, rows)
        }),
{
    let known = known_before(existing);
    lemma_known_once_stored(existing, rows);
    lemma_known_again(known, rows, known_after(known, rows));
}

// ---------------------------------------------------------------------------
// Categories

/// A category.
pub struct CategoryRecord {
    pub category_id: String,
    pub name: String,
    pub parent_category_id: Option<String>,
    pub actor_id: String,
}

/// The identifiers that a category names: of `family:leaf` the family and itself.
pub open spec fn category_ids(id: Seq<char>) -> Seq<Seq<char>> {
    match split_at_char(id, ':') {
        Some((parent, _)) => seq![parent, id],
        None => seq![id],
    }
}

/// The family of a category `family:leaf`.
pub open spec fn parent_of(id: Seq<char>) -> Seq<char> {
    match split_at_char(id, ':') {
        Some((parent, _)) => parent,
        None => id,
    }
}

/// The categories that transactions name.
pub open spec fn named_categories(rows: Seq<TransactionRecord>) -> Seq<Seq<char>>
    decreases rows.len(),
{
    if rows.len() == 0 {
        Seq::empty()
    } else {
        match rows.last().category_id {
            Some(c) => named_categories(rows.drop_last()) + category_ids(c@),
            None => named_categories(rows.drop_last()),
        }
    }
}

/// Whether the record describes the category: its name is the last part with spaces
/// for hyphens, its parent the part before the colon.
pub open spec fn describes(r: CategoryRecord, id: Seq<char>, actor: Seq<char>) -> bool {
    &&& r.category_id@ == id
    &&& r.actor_id@ == actor
    &&& match split_at_char(id, ':') {
        Some((parent, child)) => r.name@ == replaced(child, '-', seq![' ']) && opt_text(
            r.parent_category_id,
        ) == Some(parent),
        None => r.name@ == replaced(id, '-', seq![' ']) && r.parent_category_id is None,
    }
}

fn list_categories(rows: &Vec<TransactionRecord>) -> (r: Vec<String>)
    ensures
        texts(r@) == named_categories(rows@),
{
    let mut out: Vec<String> = Vec::new();
    let mut i: usize = 0;
    assert(rows@.take(0) =~= Seq::<TransactionRecord>::empty());
    assert(texts(out@) =~= Seq::<Seq<char>>::empty());
    while i < rows.len()
        invariant
            i <= rows.len(),
            texts(out@) == named_categories(rows@.take(i as int)),
        decreases rows.len() - i,
    {
        let ghost before = texts(out@);
        assert(rows@.take(i + 1).drop_last() =~= rows@.take(i as int));
        match &rows[i].category_id {
            Some(c) => {
                match split_once(c.as_str(), ':') {
                    Some((parent, _)) => {
                        out.push(parent);
                        out.push(c.clone());
                        assert(texts(out@) =~= before + category_ids(c@));
                    },
                    None => {
                        out.push(c.clone());
                        assert(texts(out@) =~= before + category_ids(c@));
                    },
                }
            },
            None => {},
        }
        i = i + 1;
    }
    assert(rows@.take(i as int) =~= rows@);
    out
}

/// Whether the records are those of the categories that transactions name, each once,
/// ordered by identifier.
pub open spec fn records_categories(
    list: Seq<CategoryRecord>,
    rows: Seq<TransactionRecord>,
    actor: Seq<char>,
) -> bool {
    let ids = sorted_keys(named_categories(rows));
    list.len() == ids.len() && forall|i: int|
        0 <= i < ids.len() ==> describes(#[trigger] list[i], ids[i], actor)
}

/// The categories that transactions name, each once, ordered by identifier.
pub fn build_category_records_from_transactions(
    actor_id: &str,
    rows: &Vec<TransactionRecord>,
) -> (r: Vec<CategoryRecord>)
    ensures
        records_categories(r@, rows@, actor_id@),
{
    let ids = distinct(&list_categories(rows));
    let mut out: Vec<CategoryRecord> = Vec::new();
    let mut i: usize = 0;
    while i < ids.len()
        invariant
            i <= ids.len(),
            out@.len() == i,
            forall|j: int|
                0 <= j < i ==> describes(#[trigger] out@[j], texts(ids@)[j], actor_id@),
        decreases ids.len() - i,
    {
        assert(texts(ids@)[i as int] == ids@[i as int]@);
        proof {
            reveal_strlit(" ");
            assert(" "@ =~= seq![' ']);
        }
        let record = match split_once(ids[i].as_str(), ':') {
            Some((parent, child)) => CategoryRecord {
                category_id: ids[i].clone(),
                name: replace_char(child.as_str(), '-', " "),
                parent_category_id: Some(parent),
                actor_id: actor_id.to_string(),
            },
            None => CategoryRecord {
                category_id: ids[i].clone(),
                name: replace_char(ids[i].as_str(), '-', " "),
                parent_category_id: None,
                actor_id: actor_id.to_string(),
            },
        };
        out.push(record);
        i = i + 1;
    }
    out
}

/// The parent of a category that transactions name is a category that they name.
pub proof fn law_parents_are_recorded(rows: Seq<TransactionRecord>, id: Seq<char>)
    requires
        named_categories(rows).contains(id),
        split_at_char(id, ':') is Some,
    ensures
        named_categories(rows).contains(parent_of(id)),
    decreases rows.len(),
{
    let all = named_categories(rows);
    let k = choose|k: int| 0 <= k < all.len() && all[k] == id;
    if rows.len() > 0 {
        let t = named_categories(rows.drop_last());
        match rows.last().category_id {
            Some(c) => {
                if k < t.len() {
                    assert(t[k] == id);
                    law_parents_are_recorded(rows.drop_last(), id);
                    let j = choose|j: int|
                        0 <= j < t.len() && t[j] == parent_of(id);
                    assert(all[j] == parent_of(id));
                } else {
                    match split_at_char(c@, ':') {
                        Some((parent, rest)) => {
                            if k == t.len() {
                                assert(id == parent);
                                crate::text::lemma_first_index(c@, ':');
                                crate::text::lemma_first_index(parent, ':');
                                assert(false);
                            }
                            assert(all[t.len() as int] == parent);
                        },
                        None => {},
                    }
                }
            },
            None => {
                law_parents_are_recorded(rows.drop_last(), id);
            },
        }
    }
}

} // verus!
