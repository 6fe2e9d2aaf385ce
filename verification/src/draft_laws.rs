//! What editing a text and saving it promise, character by character and field by field.

use crate::draft::{
    change_of, deleted, erased, fresh_draft, line_view, patch_of, restored, space_end, space_start,
    typed, word_after, word_before, word_end, word_start, wrapped, DraftContent, ReviewTuiField,
};
use crate::records::{opt_text, text_or_empty, TransactionRecord};
use crate::review_save::{alike_rows, likeness, save_ids};
use crate::review_session::{
    counted_back, counted_on, moved_index, next_field, previous_field, SessionContent,
};
use crate::text::{trimmed, white_space};
use crate::text_laws::{concat_first, lemma_unspaced_joined, unspaced};
use vstd::prelude::*;

verus! {

/// A character that is typed stands at the cursor, between what stood before it and what
/// stood behind it; the cursor moves behind it. No other field changes.
pub proof fn law_typed_stands_at_cursor(d: DraftContent, c: char, field: ReviewTuiField)
    requires
        0 <= d.cursor() <= d.value().len(),
        field != d.field(),
    ensures
        typed(d, c).value() == d.value().take(d.cursor()) + seq![c] + d.value().skip(d.cursor()),
        typed(d, c).cursor() == d.cursor() + 1,
        typed(d, c).value_of(field) == d.value_of(field),
        typed(d, c).field() == d.field(),
        typed(d, c).category_id == d.category_id,
{
    assert(d.value().insert(d.cursor(), c) =~= d.value().take(d.cursor()) + seq![c]
        + d.value().skip(d.cursor()));
}

/// Deleting takes away the character before the cursor, or the one at it, and leaves the
/// others in their order.
pub proof fn law_deleting_takes_one(d: DraftContent)
    requires
        0 <= d.cursor() <= d.value().len(),
    ensures
        d.cursor() > 0 ==> erased(d).value() == d.value().take(d.cursor() - 1) + d.value().skip(
            d.cursor(),
        ) && erased(d).cursor() == d.cursor() - 1,
        d.cursor() == 0 ==> erased(d) == d,
        d.cursor() < d.value().len() ==> deleted(d).value() == d.value().take(d.cursor())
            + d.value().skip(d.cursor() + 1) && deleted(d).cursor() == d.cursor(),
        d.cursor() == d.value().len() ==> deleted(d) == d,
{
    let (s, at) = (d.value(), d.cursor());
    if at > 0 {
        assert(s.remove(at - 1) =~= s.take(at - 1) + s.skip(at));
    }
    if at < s.len() {
        assert(s.remove(at) =~= s.take(at) + s.skip(at + 1));
    }
}

/// Going back by a word ends at the start of a word: white space or the start of the text
/// stands before it, and from there on come the word's characters, then only white space
/// up to where it began.
pub proof fn law_word_before(s: Seq<char>, at: int)
    requires
        0 <= at <= s.len(),
    ensures
        0 <= word_before(s, at) <= at,
        word_before(s, at) > 0 ==> white_space(s[word_before(s, at) - 1]),
        exists|m: int| word_then_space(s, word_before(s, at), m, at),
{
    lemma_space_start(s, at);
    lemma_word_start(s, space_start(s, at));
    assert(word_then_space(s, word_before(s, at), space_start(s, at), at));
}

/// Whether a part of the text is characters up to a position, and white space behind it.
pub open spec fn word_then_space(s: Seq<char>, from: int, mid: int, to: int) -> bool {
    &&& from <= mid <= to
    &&& forall|k: int| from <= k < mid ==> !white_space(#[trigger] s[k])
    &&& forall|k: int| mid <= k < to ==> white_space(#[trigger] s[k])
}

proof fn lemma_space_start(s: Seq<char>, at: int)
    requires
        0 <= at <= s.len(),
    ensures
        0 <= space_start(s, at) <= at,
        forall|k: int| space_start(s, at) <= k < at ==> white_space(#[trigger] s[k]),
        space_start(s, at) > 0 ==> !white_space(s[space_start(s, at) - 1]),
    decreases at,
{
    if 0 < at && white_space(s[at - 1]) {
        lemma_space_start(s, at - 1);
    }
}

proof fn lemma_word_start(s: Seq<char>, at: int)
    requires
        0 <= at <= s.len(),
    ensures
        0 <= word_start(s, at) <= at,
        forall|k: int| word_start(s, at) <= k < at ==> !white_space(#[trigger] s[k]),
        word_start(s, at) > 0 ==> white_space(s[word_start(s, at) - 1]),
    decreases at,
{
    if 0 < at && !white_space(s[at - 1]) {
        lemma_word_start(s, at - 1);
    }
}

/// Going on by a word passes the rest of the word and the white space behind it, and ends
/// at a character or at the end.
pub proof fn law_word_after(s: Seq<char>, at: int)
    requires
        0 <= at <= s.len(),
    ensures
        at <= word_after(s, at) <= s.len(),
        word_after(s, at) < s.len() ==> !white_space(s[word_after(s, at)]),
        exists|m: int| word_then_space(s, at, m, word_after(s, at)),
{
    lemma_word_end(s, at);
    lemma_space_end(s, word_end(s, at));
    assert(word_then_space(s, at, word_end(s, at), word_after(s, at)));
}

proof fn lemma_word_end(s: Seq<char>, at: int)
    requires
        0 <= at <= s.len(),
    ensures
        at <= word_end(s, at) <= s.len(),
        forall|k: int| at <= k < word_end(s, at) ==> !white_space(#[trigger] s[k]),
        word_end(s, at) < s.len() ==> white_space(s[word_end(s, at)]),
    decreases s.len() - at,
{
    if at < s.len() && !white_space(s[at]) {
        lemma_word_end(s, at + 1);
    }
}

proof fn lemma_space_end(s: Seq<char>, at: int)
    requires
        0 <= at <= s.len(),
    ensures
        at <= space_end(s, at) <= s.len(),
        forall|k: int| at <= k < space_end(s, at) ==> white_space(#[trigger] s[k]),
        space_end(s, at) < s.len() ==> !white_space(s[space_end(s, at)]),
    decreases s.len() - at,
{
    if at < s.len() && white_space(s[at]) {
        lemma_space_end(s, at + 1);
    }
}

/// A text counts as changed exactly where it says something else once the margins are
/// taken off; what it changed to has none.
pub proof fn law_change(new: Seq<char>, old: Option<Seq<char>>)
    ensures
        ({
            let was = match old {
                Some(o) => trimmed(o),
                None => Seq::<char>::empty(),
            };
            &&& change_of(new, old) is Some <==> trimmed(new) != was
            &&& change_of(new, old) matches Some(t) ==> t == trimmed(new)
        }),
{
    if trimmed(new).len() == 0 {
        assert(trimmed(new) =~= Seq::<char>::empty());
    }
}

/// What a field of a row says.
pub open spec fn said(o: Option<String>) -> Seq<char> {
    match o {
        Some(s) => trimmed(s@),
        None => Seq::empty(),
    }
}

/// What a draft changes of a row, field by field: each field where the draft says something
/// else in that field, to what it says there.
pub proof fn law_patch_tells_changes(d: DraftContent, row: TransactionRecord)
    ensures
        ({
            let p = patch_of(d, row);
            &&& p.description == (if trimmed(d.description) == said(row.description) {
                None
            } else {
                Some(trimmed(d.description))
            })
            &&& p.merchant_name == (if trimmed(d.merchant_name) == said(row.merchant_name) {
                None
            } else {
                Some(trimmed(d.merchant_name))
            })
            &&& p.purpose == (if trimmed(d.purpose) == said(row.purpose) {
                None
            } else {
                Some(trimmed(d.purpose))
            })
            &&& p.category_id == (if trimmed(d.category_id) == said(row.category_id) {
                None
            } else {
                Some(trimmed(d.category_id))
            })
        }),
{
    law_change(d.description, opt_text(row.description));
    law_change(d.merchant_name, opt_text(row.merchant_name));
    law_change(d.purpose, opt_text(row.purpose));
    law_change(d.category_id, opt_text(row.category_id));
}

/// A fresh draft says in each field what the row says, with the cursor behind it.
pub proof fn law_fresh_draft_says_row(row: TransactionRecord)
    ensures
        ({
            let d = fresh_draft(row);
            &&& d.merchant_name == text_or_empty(row.merchant_name)
            &&& d.description == text_or_empty(row.description)
            &&& d.purpose == text_or_empty(row.purpose)
            &&& d.category_id == text_or_empty(row.category_id)
            &&& d.category_query == text_or_empty(row.category_id)
            &&& d.cursor() == d.value().len()
            &&& d.field() == ReviewTuiField::Category
        }),
{
}

/// Restoring a field gives it what the row says, and leaves the others.
pub proof fn law_restored_field(d: DraftContent, row: TransactionRecord, field: ReviewTuiField)
    requires
        field != d.field(),
    ensures
        restored(d, row).value() == fresh_draft(row).value_of(d.field()),
        restored(d, row).cursor() == restored(d, row).value().len(),
        restored(d, row).value_of(field) == d.value_of(field),
        restored(d, row).active == d.active,
{
}

/// The character under the cursor is shown in its column.
pub proof fn law_cursor_shows_its_character(s: Seq<char>, cursor: int, width: int)
    requires
        width > 0,
        0 <= cursor < s.len(),
    ensures
        line_view(s, cursor, width).1 < line_view(s, cursor, width).0.len(),
        line_view(s, cursor, width).0[line_view(s, cursor, width).1] == s[cursor],
        s.len() <= width ==> cursor < width && line_view(s, cursor, width).0 == s,
{
    if s.len() <= width {
        assert(s.subrange(0, s.len() as int) =~= s);
    }
}

/// Wrapping loses nothing but white space: the lines one behind the other hold the
/// characters of the text in their order.
pub proof fn law_wrapped_keeps_characters(s: Seq<char>, width: int)
    requires
        width > 0,
    ensures
        unspaced(concat_first(wrapped(s, width))) == unspaced(s),
    decreases s.len(),
{
    let (n, used) = crate::draft::first_line(s, width);
    crate::text::lemma_first_index(s, '\n');
    lemma_last_space(s, width);
    if 0 < used <= s.len() {
        let rest = s.skip(used);
        law_wrapped_keeps_characters(rest, width);
        let lines = wrapped(s, width);
        assert(lines == seq![s.take(n)] + wrapped(rest, width));
        assert(lines.drop_first() =~= wrapped(rest, width));
        lemma_unspaced_joined(s.take(n), concat_first(wrapped(rest, width)));
        let gap = s.subrange(n, used);
        assert(s.take(n) + gap + rest =~= s);
        lemma_unspaced_joined(s.take(n) + gap, rest);
        lemma_unspaced_joined(s.take(n), gap);
        assert(unspaced(gap) =~= Seq::<char>::empty()) by {
            reveal_with_fuel(unspaced, 2);
            if used == n + 1 {
                assert(gap =~= seq![s[n]]);
                assert(white_space(s[n]));
            } else {
                assert(gap =~= Seq::<char>::empty());
            }
        }
        assert(unspaced(s.take(n)) + Seq::<char>::empty() =~= unspaced(s.take(n)));
    } else {
        assert(wrapped(s, width) == seq![s]);
        assert(seq![s].drop_first() =~= Seq::<Seq<char>>::empty());
        reveal_with_fuel(concat_first, 2);
        assert(s + Seq::<char>::empty() =~= s);
    }
}

proof fn lemma_last_space(s: Seq<char>, n: int)
    requires
        n >= 0,
    ensures
        -1 <= crate::draft::last_space(s, n) < n || n == 0,
        crate::draft::last_space(s, n) >= 0 ==> white_space(s[crate::draft::last_space(s, n)]),
    decreases n,
{
    if n > 0 {
        lemma_last_space(s, n - 1);
    }
}

// ---------------------------------------------------------------------------
// Moving and saving

/// The next field and the one before undo each other, and each goes through all.
pub proof fn law_fields_go_round(active: int)
    requires
        0 <= active < 4,
    ensures
        previous_field(next_field(active)) == active,
        next_field(previous_field(active)) == active,
        active < 3 ==> next_field(active) == active + 1,
        next_field(3) == 0,
{
}

/// A move keeps to the rows, goes the way that was asked for, by no more than was asked
/// for, and stops only at an end.
pub proof fn law_moves_along_rows(index: int, len: int, delta: int)
    requires
        0 <= index < len,
    ensures
        0 <= moved_index(index, len, delta) < len,
        0 <= index + delta < len ==> moved_index(index, len, delta) == index + delta,
        index + delta < 0 ==> moved_index(index, len, delta) == 0,
        index + delta >= len ==> moved_index(index, len, delta) == len - 1,
{
}

/// Counting on and back undo each other away from the ends, and never pass them.
pub proof fn law_counters_keep_to_ends(n: int, step: int)
    requires
        0 <= n <= usize::MAX,
        0 <= step,
    ensures
        0 <= counted_back(n, step) <= n <= counted_on(n, step) <= usize::MAX,
        n + step <= usize::MAX ==> counted_back(counted_on(n, step), step) == n,
{
}

/// A save changes the transaction it is about, and in bulk also the chosen ones; no others,
/// and each once.
pub proof fn law_save_is_about(s: SessionContent, row: TransactionRecord, id: Seq<char>)
    ensures
        save_ids(s, row).contains(id) <==> id == row.transaction_id@ || (s.bulk_mode
            && s.bulk_ids.contains(id)),
        save_ids(s, row).no_duplicates(),
{
    let keys = if s.bulk_mode {
        if s.bulk_ids.contains(row.transaction_id@) {
            s.bulk_ids
        } else {
            s.bulk_ids.push(row.transaction_id@)
        }
    } else {
        seq![row.transaction_id@]
    };
    crate::order::law_sorted_keys(keys);
    crate::order::lemma_ascending_differ(save_ids(s, row));
    if s.bulk_mode {
        if !s.bulk_ids.contains(row.transaction_id@) {
            assert(keys.drop_last() =~= s.bulk_ids);
            crate::seqs::lemma_contains_last(keys, id);
        }
    } else {
        assert(keys[0] == row.transaction_id@);
        assert(keys.contains(row.transaction_id@));
    }
}

/// The rows that a bulk change offers are those whose description is the same but for case
/// and margins.
pub proof fn law_alike_rows(rows: Seq<TransactionRecord>, key: Seq<char>, row: TransactionRecord)
    ensures
        (exists|i: int|
            0 <= i < alike_rows(rows, key).len() && (#[trigger] alike_rows(rows, key)[i]).row
                == row) <==> rows.contains(row) && likeness(row) == key,
    decreases rows.len(),
{
    if rows.len() > 0 {
        let t = rows.drop_last();
        law_alike_rows(t, key, row);
        crate::seqs::lemma_contains_last(rows, row);
        let (a, b) = (alike_rows(t, key), alike_rows(rows, key));
        if exists|i: int| 0 <= i < a.len() && (#[trigger] a[i]).row == row {
            let i = choose|i: int| 0 <= i < a.len() && (#[trigger] a[i]).row == row;
            assert(b[i].row == row);
        }
        if rows.last() == row && likeness(row) == key {
            assert(b[b.len() - 1].row == row);
        }
        if exists|i: int| 0 <= i < b.len() && (#[trigger] b[i]).row == row {
            let i = choose|i: int| 0 <= i < b.len() && (#[trigger] b[i]).row == row;
            if i < a.len() {
                assert(a[i].row == row);
            }
        }
    }
}

} // verus!
