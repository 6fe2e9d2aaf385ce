//! A review on the screen: the queue that came, saving, and what became of it.

use crate::audit::{review_entry, review_logged, AuditEntry};
use crate::draft::{fresh_draft, patch_of, DraftContent, HumanReviewPatch, ReviewTuiDraft};
use crate::money::{decimal_text, plain_text};
use crate::amount::Amount;
use crate::order::{distinct, sort, sorted, sorted_keys, Ranked};
use crate::records::{opt_clone, opt_text, TransactionRecord};
use crate::review::{ids_of, review_tui_raw_hour, ReviewFilters};
use crate::review_flow::at_row;
use crate::review_session::{
    counted_on, filter_view, hour_of, moved_index, move_review_tui_index, FilterContent,
    ReviewTuiSession, SessionContent, REVIEW_TUI_RECENT_CATEGORY_LIMIT,
};
use crate::summary::holds;
use crate::text::{
    append_chars, chars, digits, from_chars, glue, glue3, is_blank, lemma_trimmed_again,
    lowercase_text, number, push_text, put, same, texts, to_lowercase, trim, trimmed,
};
use vstd::prelude::*;

verus! {

// ---------------------------------------------------------------------------
// A queue that came

/// What is said of a queue that came.
pub open spec fn queue_status(told: Seq<char>, n: int, include_reviewed: bool) -> Seq<char> {
    told + " · "@ + digits(n as nat) + " itens"@ + (if include_reviewed {
        " · todas"@
    } else {
        Seq::<char>::empty()
    })
}

/// The session with a new queue, which is not empty.
pub open spec fn reloaded(
    s: SessionContent,
    rows: Seq<TransactionRecord>,
    told: Seq<char>,
) -> SessionContent {
    SessionContent {
        index: 0,
        category_cursor: 0,
        raw_hour: hour_of(rows[0]),
        status: queue_status(told, rows.len() as int, s.include_reviewed),
        ..s
    }
}

fn take_queue(session: &mut ReviewTuiSession, rows: &Vec<TransactionRecord>)
    requires
        rows@.len() > 0,
    ensures
        final(session)@ == reloaded(old(session)@, rows@, old(session).filters.told()),
{
    let mut out = chars(session.filters.summary().as_str());
    put(&mut out, " · ");
    append_chars(&mut out, &crate::text::digits_of(rows.len() as u128));
    put(&mut out, " itens");
    if session.include_reviewed {
        put(&mut out, " · todas");
    }
    proof {
        assert(out@ =~= queue_status(
            session.filters.told(),
            rows@.len() as int,
            session.include_reviewed,
        ));
    }
    session.index = 0;
    session.category_cursor = 0;
    session.raw_hour = review_tui_raw_hour(&rows[0]);
    session.status = from_chars(&out);
}

/// The drafts of a new queue.
pub fn fresh_drafts(rows: &Vec<TransactionRecord>) -> (r: Vec<ReviewTuiDraft>)
    ensures
        r@.len() == rows@.len(),
        forall|i: int|
            0 <= i < r@.len() ==> (#[trigger] r@[i]).sound() && r@[i]@ == fresh_draft(rows@[i]),
{
    let mut out: Vec<ReviewTuiDraft> = Vec::new();
    let mut i: usize = 0;
    while i < rows.len()
        invariant
            i <= rows.len(),
            out@.len() == i,
            forall|j: int|
                0 <= j < i ==> (#[trigger] out@[j]).sound() && out@[j]@ == fresh_draft(rows@[j]),
        decreases rows.len() - i,
    {
        out.push(ReviewTuiDraft::from_row(&rows[i]));
        i = i + 1;
    }
    out
}

/// What came for new filters: the queue where it is not empty, else the filters stay.
/// Tells whether the queue is taken.
pub fn filter_came(
    session: &mut ReviewTuiSession,
    filters: ReviewFilters,
    rows: &Vec<TransactionRecord>,
) -> (r: bool)
    ensures
        r == (rows@.len() > 0),
        final(session)@ == (if rows@.len() > 0 {
            SessionContent {
                filter_menu_open: false,
                ..reloaded(
                    SessionContent { filters: filter_view(filters), ..old(session)@ },
                    rows@,
                    filters.told(),
                )
            }
        } else {
            old(session)@.say("filtro sem resultados; mantendo fila atual"@)
        }),
{
    if rows.len() == 0 {
        session.status = "filtro sem resultados; mantendo fila atual".to_string();
        return false;
    }
    session.filters = filters;
    take_queue(session, rows);
    session.filter_menu_open = false;
    true
}

/// What came for a month: the queue where it is not empty, else the month stays. Tells
/// whether the queue is taken.
pub fn month_came(session: &mut ReviewTuiSession, month: String, rows: &Vec<TransactionRecord>) -> (r:
    bool)
    ensures
        r == (rows@.len() > 0),
        final(session)@ == (if rows@.len() > 0 {
            let s = old(session)@;
            SessionContent {
                filters: FilterContent { month: Some(month@), ..s.filters },
                index: 0,
                category_cursor: 0,
                raw_hour: hour_of(rows@[0]),
                month_picker_open: false,
                status: "mês: "@ + month@,
                ..s
            }
        } else {
            old(session)@.say("filtro sem resultados; mês mantido"@)
        }),
{
    if rows.len() == 0 {
        session.status = "filtro sem resultados; mês mantido".to_string();
        return false;
    }
    let told = glue("mês: ", month.as_str());
    session.filters.month = Some(month);
    session.index = 0;
    session.category_cursor = 0;
    session.raw_hour = review_tui_raw_hour(&rows[0]);
    session.month_picker_open = false;
    session.status = told;
    true
}

/// What came for the other mode: the queue where it is not empty, else the mode stays.
/// Tells whether the queue is taken.
pub fn mode_came(session: &mut ReviewTuiSession, rows: &Vec<TransactionRecord>) -> (r: bool)
    ensures
        r == (rows@.len() > 0),
        final(session)@ == (if rows@.len() > 0 {
            let s = old(session)@;
            SessionContent {
                include_reviewed: !s.include_reviewed,
                index: 0,
                category_cursor: 0,
                raw_hour: hour_of(rows@[0]),
                status: if s.include_reviewed {
                    "mostrando só pendentes"@
                } else {
                    "mostrando todas (revisadas + pendentes)"@
                },
                ..s
            }
        } else {
            old(session)@.say("sem resultados; mantendo modo atual"@)
        }),
{
    if rows.len() == 0 {
        session.status = "sem resultados; mantendo modo atual".to_string();
        return false;
    }
    let before = session.include_reviewed;
    session.include_reviewed = !before;
    session.index = 0;
    session.category_cursor = 0;
    session.raw_hour = review_tui_raw_hour(&rows[0]);
    session.status = if before {
        "mostrando só pendentes".to_string()
    } else {
        "mostrando todas (revisadas + pendentes)".to_string()
    };
    true
}

// ---------------------------------------------------------------------------
// Transactions like the current one

/// What transactions like each other share.
pub open spec fn likeness(row: TransactionRecord) -> Seq<char> {
    lowercase_text(trimmed(row.raw_description@))
}

/// What transactions like each other share.
pub fn bulk_key(row: &TransactionRecord) -> (r: String)
    ensures
        r@ == likeness(*row),
{
    to_lowercase(trim(row.raw_description.as_str()).as_str())
}

/// Whether the transactions like the current one have to be fetched.
pub fn needs_similar(session: &ReviewTuiSession, row: &TransactionRecord) -> (r: bool)
    ensures
        r == (likeness(*row).len() > 0 && (session.bulk_target_key@ != likeness(*row)
            || session.bulk_ids@.len() == 0)),
{
    let key = bulk_key(row);
    !key.as_str().is_empty() && (!same(session.bulk_target_key.as_str(), key.as_str())
        || session.bulk_ids.len() == 0)
}

/// A row in the order of the latest.
pub struct LatestRow {
    pub row: TransactionRecord,
}

impl Ranked for LatestRow {
    open spec fn le(a: Self, b: Self) -> bool {
        !a.row.transaction_date.before(b.row.transaction_date)
    }

    proof fn le_total(a: Self, b: Self) {
    }

    proof fn le_transitive(a: Self, b: Self, c: Self) {
    }

    fn may_precede(&self, other: &Self) -> (r: bool) {
        !self.row.transaction_date.is_before(&other.row.transaction_date)
    }
}

/// The rows with a likeness.
pub open spec fn alike_rows(rows: Seq<TransactionRecord>, key: Seq<char>) -> Seq<LatestRow>
    decreases rows.len(),
{
    if rows.len() == 0 {
        Seq::empty()
    } else if likeness(rows.last()) == key {
        alike_rows(rows.drop_last(), key).push(LatestRow { row: rows.last() })
    } else {
        alike_rows(rows.drop_last(), key)
    }
}

pub open spec fn latest_rows(rows: Seq<LatestRow>) -> Seq<TransactionRecord> {
    rows.map_values(|r: LatestRow| r.row)
}

/// The rows with a likeness, the latest first.
pub fn similar_rows(rows: Vec<TransactionRecord>, key: &str) -> (r: Vec<TransactionRecord>)
    ensures
        r@ == latest_rows(sorted(alike_rows(rows@, key@))),
{
    let ghost all = rows@;
    let mut rest = rows;
    let mut list: Vec<LatestRow> = Vec::new();
    let ghost mut i: int = 0;
    assert(rest@ =~= all.skip(0));
    assert(all.take(0) =~= Seq::<TransactionRecord>::empty());
    while rest.len() > 0
        invariant
            0 <= i <= all.len(),
            rest@ == all.skip(i),
            list@ == alike_rows(all.take(i), key@),
        decreases rest.len(),
    {
        let row = rest.remove(0);
        proof {
            assert(row == all[i]);
            assert(rest@ =~= all.skip(i + 1));
            assert(all.take(i + 1).drop_last() =~= all.take(i));
        }
        if same(bulk_key(&row).as_str(), key) {
            list.push(LatestRow { row });
        }
        proof {
            i = i + 1;
        }
    }
    assert(all.take(i) =~= all);
    let mut rest = sort(list);
    let ghost ordered = rest@;
    let mut out: Vec<TransactionRecord> = Vec::new();
    let ghost mut k: int = 0;
    assert(rest@ =~= ordered.skip(0));
    while rest.len() > 0
        invariant
            0 <= k <= ordered.len(),
            rest@ == ordered.skip(k),
            out@ == latest_rows(ordered).take(k),
        decreases rest.len(),
    {
        let r = rest.remove(0);
        assert(r == ordered[k]);
        assert(rest@ =~= ordered.skip(k + 1));
        out.push(r.row);
        assert(out@ =~= latest_rows(ordered).take(k + 1));
        proof {
            k = k + 1;
        }
    }
    assert(out@ =~= latest_rows(ordered));
    out
}

fn list_ids(rows: &Vec<TransactionRecord>) -> (r: Vec<String>)
    ensures
        texts(r@) == ids_of(rows@),
{
    let mut out: Vec<String> = Vec::new();
    let mut i: usize = 0;
    assert(texts(out@) =~= ids_of(rows@).take(0));
    while i < rows.len()
        invariant
            i <= rows.len(),
            texts(out@) == ids_of(rows@).take(i as int),
        decreases rows.len() - i,
    {
        push_text(&mut out, rows[i].transaction_id.clone());
        i = i + 1;
        assert(texts(out@) =~= ids_of(rows@).take(i as int));
    }
    assert(ids_of(rows@).take(i as int) =~= ids_of(rows@));
    out
}

/// The transactions like the current one came.
pub fn similar_came(session: &mut ReviewTuiSession, key: &str, targets: &Vec<TransactionRecord>)
    ensures
        final(session)@ == (SessionContent {
            bulk_ids: if key@.len() == 0 {
                Seq::empty()
            } else {
                ids_of(targets@)
            },
            bulk_target_key: key@,
            ..old(session)@
        }),
{
    if key.is_empty() {
        let none: Vec<String> = Vec::new();
        assert(texts(none@) =~= Seq::<Seq<char>>::empty());
        session.bulk_ids = none;
    } else {
        session.bulk_ids = list_ids(targets);
    }
    session.bulk_target_key = key.to_string();
}

/// Says how many transactions a save will change.
pub fn announce_bulk(session: &mut ReviewTuiSession)
    ensures
        final(session)@ == old(session)@.say(
            "modo bulk ON · "@ + digits(old(session)@.bulk_ids.len()) + " alvos"@,
        ),
{
    assert(texts(session.bulk_ids@).len() == session.bulk_ids@.len());
    session.status = glue3(
        "modo bulk ON · ",
        number(session.bulk_ids.len() as u64).as_str(),
        " alvos",
    );
}

// ---------------------------------------------------------------------------
// Saving

/// The transactions that a save changes, each once, in order.
pub open spec fn save_ids(s: SessionContent, row: TransactionRecord) -> Seq<Seq<char>> {
    sorted_keys(
        if s.bulk_mode {
            if s.bulk_ids.contains(row.transaction_id@) {
                s.bulk_ids
            } else {
                s.bulk_ids.push(row.transaction_id@)
            }
        } else {
            seq![row.transaction_id@]
        },
    )
}

/// What a save changes.
pub struct SavePlan {
    /// The changes. The category is as it was typed.
    pub patch: HumanReviewPatch,
    /// The category to remember, as it was typed.
    pub history: Option<String>,
    pub ids: Vec<String>,
    pub label: String,
}

/// The category to remember.
pub open spec fn remembered_text(category: Seq<char>) -> Option<Seq<char>> {
    if trimmed(category).len() == 0 {
        None
    } else {
        Some(trimmed(category))
    }
}

pub open spec fn save_label(n: int) -> Seq<char> {
    if n > 1 {
        digits(n as nat) + " (bulk)"@
    } else {
        "1"@
    }
}

/// The category to remember, as it was typed.
pub fn draft_category_for_history(draft: &ReviewTuiDraft) -> (r: Option<String>)
    ensures
        opt_text(r) == remembered_text(draft@.category_id),
{
    let category = trim(draft.category_id.as_str());
    if category.as_str().is_empty() {
        None
    } else {
        Some(category)
    }
}

/// What a save changes; nothing where the draft changes nothing.
pub fn plan_save(session: &ReviewTuiSession, draft: &ReviewTuiDraft, row: &TransactionRecord) -> (r:
    Option<SavePlan>)
    ensures
        match r {
            Some(p) => {
                &&& patch_of(draft@, *row).changes()
                &&& p.patch@ == patch_of(draft@, *row)
                &&& opt_text(p.history) == remembered_text(draft@.category_id)
                &&& texts(p.ids@) == save_ids(session@, *row)
                &&& p.label@ == save_label(save_ids(session@, *row).len() as int)
            },
            None => !patch_of(draft@, *row).changes(),
        },
{
    let patch = draft.patch_against(row);
    if !patch.has_changes() {
        return None;
    }
    let mut ids: Vec<String> = Vec::new();
    assert(texts(ids@) =~= Seq::<Seq<char>>::empty());
    if session.bulk_mode {
        ids = crate::review::copy_texts(&session.bulk_ids);
        if !holds(&ids, row.transaction_id.as_str()) {
            push_text(&mut ids, row.transaction_id.clone());
        }
    } else {
        push_text(&mut ids, row.transaction_id.clone());
        assert(texts(ids@) =~= seq![row.transaction_id@]);
    }
    let ids = distinct(&ids);
    assert(texts(ids@).len() == ids@.len());
    let label = if ids.len() > 1 {
        glue(number(ids.len() as u64).as_str(), " (bulk)")
    } else {
        "1".to_string()
    };
    Some(SavePlan { patch, history: draft_category_for_history(draft), ids, label })
}

/// Whether a row is another with a patch applied.
pub open spec fn is_patched(new: TransactionRecord, old: TransactionRecord, p: HumanReviewPatch) -> bool {
    let description = if p.description is Some {
        p.description
    } else {
        old.description
    };
    let merchant_name = if p.merchant_name is Some {
        p.merchant_name
    } else {
        old.merchant_name
    };
    let purpose = if p.purpose is Some {
        p.purpose
    } else {
        old.purpose
    };
    let category_id = if p.category_id is Some {
        p.category_id
    } else {
        old.category_id
    };
    &&& new == (TransactionRecord {
        description,
        merchant_name,
        purpose,
        category_id,
        category_source: new.category_source,
        ..old
    })
    &&& if p.category_id is Some {
        new.category_source@ == "manual"@
    } else {
        new.category_source == old.category_source
    }
}

/// Applies a patch to a row.
pub fn apply_review_tui_patch_to_row(row: &mut TransactionRecord, patch: &HumanReviewPatch)
    ensures
        is_patched(*final(row), *old(row), *patch),
{
    if patch.description.is_some() {
        row.description = opt_clone(&patch.description);
    }
    if patch.merchant_name.is_some() {
        row.merchant_name = opt_clone(&patch.merchant_name);
    }
    if patch.purpose.is_some() {
        row.purpose = opt_clone(&patch.purpose);
    }
    if patch.category_id.is_some() {
        row.category_id = opt_clone(&patch.category_id);
        row.category_source = "manual".to_string();
    }
}

/// Saving what a draft changes leaves it nothing to change.
pub proof fn law_saved_draft_changes_nothing(
    d: DraftContent,
    row: TransactionRecord,
    patch: HumanReviewPatch,
    saved: TransactionRecord,
)
    requires
        patch@ == patch_of(d, row),
        is_patched(saved, row, patch),
    ensures
        !patch_of(d, saved).changes(),
{
    lemma_trimmed_again(d.description);
    lemma_trimmed_again(d.merchant_name);
    lemma_trimmed_again(d.purpose);
    lemma_trimmed_again(d.category_id);
}

/// Whether the row is the first with one of the identifiers.
pub open spec fn is_target(rows: Seq<TransactionRecord>, ids: Seq<Seq<char>>, i: int) -> bool {
    &&& ids.contains(rows[i].transaction_id@)
    &&& forall|j: int|
        0 <= j < i ==> (#[trigger] rows[j]).transaction_id@ != rows[i].transaction_id@
}

fn is_first(rows: &Vec<TransactionRecord>, i: usize) -> (r: bool)
    requires
        i < rows@.len(),
    ensures
        r == (forall|j: int|
            0 <= j < i ==> (#[trigger] rows@[j]).transaction_id@ != rows@[i as int].transaction_id@),
{
    let mut j: usize = 0;
    while j < i
        invariant
            j <= i < rows@.len(),
            forall|k: int|
                0 <= k < j ==> (#[trigger] rows@[k]).transaction_id@
                    != rows@[i as int].transaction_id@,
        decreases i - j,
    {
        if same(rows[j].transaction_id.as_str(), rows[i].transaction_id.as_str()) {
            assert(rows@[j as int].transaction_id@ == rows@[i as int].transaction_id@);
            return false;
        }
        j = j + 1;
    }
    true
}

/// Applies a patch to the rows with the identifiers, and starts their drafts anew.
pub fn apply_review_tui_patch_to_local_rows(
    rows: &mut Vec<TransactionRecord>,
    drafts: &mut Vec<ReviewTuiDraft>,
    ids: &Vec<String>,
    patch: &HumanReviewPatch,
)
    requires
        old(drafts)@.len() == old(rows)@.len(),
    ensures
        final(rows)@.len() == old(rows)@.len(),
        final(drafts)@.len() == old(drafts)@.len(),
        forall|i: int|
            0 <= i < final(rows)@.len() ==> if is_target(old(rows)@, texts(ids@), i) {
                is_patched(#[trigger] final(rows)@[i], old(rows)@[i], *patch)
                    && final(drafts)@[i]@ == fresh_draft(final(rows)@[i])
                    && final(drafts)@[i].sound()
            } else {
                final(rows)@[i] == old(rows)@[i] && final(drafts)@[i] == old(drafts)@[i]
            },
{
    let ghost before = rows@;
    let ghost drafted = drafts@;
    let mut i: usize = 0;
    while i < rows.len()
        invariant
            i <= rows@.len(),
            rows@.len() == before.len(),
            drafts@.len() == drafted.len(),
            before.len() == drafted.len(),
            forall|k: int| i <= k < before.len() ==> #[trigger] rows@[k] == before[k],
            forall|k: int| i <= k < before.len() ==> #[trigger] drafts@[k] == drafted[k],
            forall|k: int|
                0 <= k < i ==> if is_target(before, texts(ids@), k) {
                    is_patched(#[trigger] rows@[k], before[k], *patch) && drafts@[k]@
                        == fresh_draft(rows@[k]) && drafts@[k].sound()
                } else {
                    rows@[k] == before[k] && drafts@[k] == drafted[k]
                },
            forall|k: int|
                0 <= k < before.len() ==> (#[trigger] rows@[k]).transaction_id
                    == before[k].transaction_id,
        decreases rows.len() - i,
    {
        assert(rows@[i as int] == before[i as int]);
        let hit = holds(ids, rows[i].transaction_id.as_str()) && is_first(rows, i);
        proof {
            assert forall|j: int| 0 <= j < i implies (#[trigger] before[j]).transaction_id@
                == rows@[j].transaction_id@ by {
                assert(rows@[j].transaction_id == before[j].transaction_id);
            }
            if hit {
                assert forall|j: int| 0 <= j < i implies (#[trigger] before[j]).transaction_id@
                    != before[i as int].transaction_id@ by {
                    assert(rows@[j].transaction_id@ != rows@[i as int].transaction_id@);
                }
            }
            assert(hit == is_target(before, texts(ids@), i as int)) by {
                if is_target(before, texts(ids@), i as int) {
                    assert forall|j: int| 0 <= j < i implies (#[trigger] rows@[j]).transaction_id@
                        != rows@[i as int].transaction_id@ by {
                        assert(before[j].transaction_id@ != before[i as int].transaction_id@);
                    }
                }
            }
        }
        if hit {
            let ghost now = rows@;
            let ghost then = drafts@;
            let mut row = rows.remove(i);
            apply_review_tui_patch_to_row(&mut row, patch);
            let draft = ReviewTuiDraft::from_row(&row);
            rows.insert(i, row);
            assert(rows@ =~= now.update(i as int, row));
            drafts.remove(i);
            drafts.insert(i, draft);
            assert(drafts@ =~= then.update(i as int, draft));
        }
        i = i + 1;
    }
}

/// The recent categories once another was used.
pub open spec fn remembered(recent: Seq<Seq<char>>, id: Seq<char>) -> Seq<Seq<char>> {
    let list = seq![id] + others(recent, id);
    if list.len() <= REVIEW_TUI_RECENT_CATEGORY_LIMIT {
        list
    } else {
        list.take(REVIEW_TUI_RECENT_CATEGORY_LIMIT as int)
    }
}

/// The texts but one.
pub open spec fn others(list: Seq<Seq<char>>, id: Seq<char>) -> Seq<Seq<char>>
    decreases list.len(),
{
    if list.len() == 0 {
        Seq::empty()
    } else if list.last() == id {
        others(list.drop_last(), id)
    } else {
        others(list.drop_last(), id).push(list.last())
    }
}

/// The session once a category was used.
pub open spec fn with_recent(s: SessionContent, id: Option<Seq<char>>) -> SessionContent {
    match id {
        Some(c) => if trimmed(c).len() == 0 {
            s
        } else {
            SessionContent {
                recent_categories: remembered(s.recent_categories, c),
                last_category_id: Some(c),
                ..s
            }
        },
        None => s,
    }
}

/// Remembers a category that was used.
pub fn remember_recent_category(session: &mut ReviewTuiSession, category_id: Option<String>)
    ensures
        final(session)@ == with_recent(old(session)@, opt_text(category_id)),
{
    let id = match category_id {
        Some(id) => if is_blank(id.as_str()) {
            return;
        } else {
            id
        },
        None => {
            return;
        },
    };
    let ghost recent = texts(session.recent_categories@);
    let mut out: Vec<String> = Vec::new();
    assert(texts(out@) =~= Seq::<Seq<char>>::empty());
    push_text(&mut out, id.clone());
    assert(texts(out@) =~= seq![id@]);
    let mut i: usize = 0;
    assert(recent.take(0) =~= Seq::<Seq<char>>::empty());
    assert(seq![id@] + others(recent.take(0), id@) =~= seq![id@]);
    while i < session.recent_categories.len()
        invariant
            i <= session.recent_categories.len(),
            recent == texts(session.recent_categories@),
            texts(out@) == seq![id@] + others(recent.take(i as int), id@),
        decreases session.recent_categories.len() - i,
    {
        proof {
            assert(recent.take(i + 1).drop_last() =~= recent.take(i as int));
            assert(recent.take(i + 1).last() == session.recent_categories@[i as int]@);
        }
        if !same(session.recent_categories[i].as_str(), id.as_str()) {
            push_text(&mut out, session.recent_categories[i].clone());
        }
        i = i + 1;
        assert(texts(out@) =~= seq![id@] + others(recent.take(i as int), id@));
    }
    assert(recent.take(i as int) =~= recent);
    let ghost full = texts(out@);
    while out.len() > REVIEW_TUI_RECENT_CATEGORY_LIMIT
        invariant
            out@.len() <= full.len(),
            texts(out@) == full.take(out@.len() as int),
            full.len() > REVIEW_TUI_RECENT_CATEGORY_LIMIT ==> out@.len()
                >= REVIEW_TUI_RECENT_CATEGORY_LIMIT,
            full.len() <= REVIEW_TUI_RECENT_CATEGORY_LIMIT ==> out@.len() == full.len(),
        decreases out.len(),
    {
        out.pop();
        assert(texts(out@) =~= full.take(out@.len() as int));
    }
    assert(full.take(full.len() as int) =~= full);
    session.recent_categories = out;
    session.last_category_id = Some(id);
}

/// The last category that was used comes first among the recent ones.
pub proof fn law_last_category_comes_first(s: SessionContent, id: Seq<char>)
    requires
        trimmed(id).len() > 0,
    ensures
        with_recent(s, Some(id)).last_category_id == Some(id),
        with_recent(s, Some(id)).recent_categories.len() >= 1,
        with_recent(s, Some(id)).recent_categories[0] == id,
        with_recent(s, Some(id)).recent_categories.len() <= REVIEW_TUI_RECENT_CATEGORY_LIMIT,
{
}

proof fn lemma_others(list: Seq<Seq<char>>, id: Seq<char>)
    requires
        list.no_duplicates(),
    ensures
        others(list, id).no_duplicates(),
        !others(list, id).contains(id),
        forall|x: Seq<char>| #[trigger] others(list, id).contains(x) ==> list.contains(x),
    decreases list.len(),
{
    if list.len() > 0 {
        let shorter = list.drop_last();
        lemma_others(shorter, id);
        let rest = others(shorter, id);
        let last = list.last();
        assert forall|x: Seq<char>| #[trigger] rest.contains(x) implies list.contains(x) && x
            != last by {
            let k = choose|k: int| 0 <= k < shorter.len() && shorter[k] == x;
            assert(list[k] == x);
        }
        if last != id {
            let more = rest.push(last);
            assert forall|i: int, j: int| 0 <= i < j < more.len() implies more[i] != more[j] by {
                assert(rest.contains(more[i]));
            }
            assert forall|x: Seq<char>| #[trigger] more.contains(x) implies list.contains(x) && x
                != id by {
                let k = choose|k: int| 0 <= k < more.len() && more[k] == x;
                if k < rest.len() {
                    assert(rest.contains(x));
                } else {
                    assert(list[list.len() - 1] == x);
                }
            }
        }
    }
}

/// No category is twice among the recent ones.
pub proof fn law_recent_categories_stay_distinct(s: SessionContent, id: Option<Seq<char>>)
    requires
        s.recent_categories.no_duplicates(),
    ensures
        with_recent(s, id).recent_categories.no_duplicates(),
{
    if id is Some {
        let c = id->Some_0;
        lemma_others(s.recent_categories, c);
        let rest = others(s.recent_categories, c);
        let list = seq![c] + rest;
        assert forall|i: int, j: int| 0 <= i < j < list.len() implies list[i] != list[j] by {
            assert(list[j] == rest[j - 1]);
            assert(rest.contains(list[j]));
        }
    }
}

/// The session at the next transaction.
pub open spec fn advanced(s: SessionContent, rows: Seq<TransactionRecord>) -> SessionContent {
    at_row(s, rows, moved_index(s.index, rows.len() as int, 1))
}

/// Goes on to the next transaction.
pub fn advance_review_tui_index_after_save(
    rows: &Vec<TransactionRecord>,
    session: &mut ReviewTuiSession,
)
    requires
        old(session).index < rows@.len(),
    ensures
        final(session)@ == advanced(old(session)@, rows@),
{
    let mut index = session.index;
    move_review_tui_index(&mut index, rows.len(), 1);
    session.index = index;
    session.raw_hour = review_tui_raw_hour(&rows[index]);
}

/// Goes on where there was nothing to save.
pub fn nothing_to_save(rows: &Vec<TransactionRecord>, session: &mut ReviewTuiSession)
    requires
        old(session).index < rows@.len(),
    ensures
        final(session)@ == advanced(old(session)@.say("sem alterações; avançando"@), rows@),
{
    session.status = "sem alterações; avançando".to_string();
    advance_review_tui_index_after_save(rows, session);
}

/// The session once a save was started.
pub open spec fn saving(
    s: SessionContent,
    history: Option<Seq<char>>,
    label: Seq<char>,
    rows: Seq<TransactionRecord>,
) -> SessionContent {
    let kept = if s.bulk_mode {
        SessionContent { bulk_ids: Seq::empty(), bulk_target_key: Seq::empty(), ..s }
    } else {
        s
    };
    advanced(
        SessionContent {
            status: "salvo (background): "@ + label,
            last_save_error: None,
            pending_save_count: counted_on(s.pending_save_count, 1),
            ..with_recent(kept, history)
        },
        rows,
    )
}

/// Takes note that a save was started.
pub fn save_started(
    session: &mut ReviewTuiSession,
    history: Option<String>,
    label: &str,
    rows: &Vec<TransactionRecord>,
)
    requires
        old(session).index < rows@.len(),
    ensures
        final(session)@ == saving(old(session)@, opt_text(history), label@, rows@),
{
    if session.bulk_mode {
        let none: Vec<String> = Vec::new();
        assert(texts(none@) =~= Seq::<Seq<char>>::empty());
        session.bulk_ids = none;
        let blank: Vec<char> = Vec::new();
        session.bulk_target_key = from_chars(&blank);
    }
    remember_recent_category(session, history);
    session.status = glue("salvo (background): ", label);
    session.last_save_error = None;
    session.pending_save_count = if session.pending_save_count < usize::MAX {
        session.pending_save_count + 1
    } else {
        session.pending_save_count
    };
    advance_review_tui_index_after_save(rows, session);
}

// ---------------------------------------------------------------------------
// Counters

/// What is left to review.
#[derive(Debug)]
pub struct ReviewHumanSummary {
    pub uncategorized_count: i64,
    pub missing_description_count: i64,
    pub missing_merchant_count: i64,
    pub missing_purpose_count: i64,
    pub min_purpose_amount: String,
    pub total_attention_count: i64,
    pub suggested_next_command: String,
}

/// What is left to review, from the counts.
pub fn review_human_summary(
    uncategorized_count: i64,
    missing_description_count: i64,
    missing_merchant_count: i64,
    missing_purpose_count: i64,
    min_abs_amount: Amount,
    limit: usize,
) -> (r: ReviewHumanSummary)
    requires
        i64::MIN <= uncategorized_count + missing_description_count <= i64::MAX,
        i64::MIN <= uncategorized_count + missing_description_count + missing_merchant_count
            <= i64::MAX,
        i64::MIN <= uncategorized_count + missing_description_count + missing_merchant_count
            + missing_purpose_count <= i64::MAX,
    ensures
        r.uncategorized_count == uncategorized_count,
        r.missing_description_count == missing_description_count,
        r.missing_merchant_count == missing_merchant_count,
        r.missing_purpose_count == missing_purpose_count,
        r.min_purpose_amount@ == plain_text(min_abs_amount),
        r.total_attention_count == uncategorized_count + missing_description_count
            + missing_merchant_count + missing_purpose_count,
        r.suggested_next_command@ == "tx review-human --kind all --limit "@ + digits(limit as nat)
            + " --json"@,
{
    ReviewHumanSummary {
        uncategorized_count,
        missing_description_count,
        missing_merchant_count,
        missing_purpose_count,
        min_purpose_amount: decimal_text(min_abs_amount),
        total_attention_count: uncategorized_count + missing_description_count
            + missing_merchant_count + missing_purpose_count,
        suggested_next_command: glue3(
            "tx review-human --kind all --limit ",
            number(limit as u64).as_str(),
            " --json",
        ),
    }
}

/// A count less a number, not below zero.
pub open spec fn less_by(n: i64, step: int) -> int {
    if n - step > 0 {
        n - step
    } else {
        0
    }
}

fn lessen(n: i64, step: i64) -> (r: i64)
    requires
        step >= 0,
    ensures
        r == less_by(n, step as int),
{
    if n > step {
        n - step
    } else {
        0
    }
}

/// Counts down what a save fills in.
pub fn apply_optimistic_summary_decrement(
    summary: &mut ReviewHumanSummary,
    patch: &HumanReviewPatch,
    bulk_count: usize,
)
    requires
        bulk_count <= i64::MAX,
    ensures
        final(summary).uncategorized_count == old(summary).uncategorized_count,
        final(summary).min_purpose_amount == old(summary).min_purpose_amount,
        final(summary).total_attention_count == old(summary).total_attention_count,
        final(summary).suggested_next_command == old(summary).suggested_next_command,
        final(summary).missing_description_count == (if patch.description is Some {
            less_by(old(summary).missing_description_count, bulk_count as int)
        } else {
            old(summary).missing_description_count as int
        }),
        final(summary).missing_merchant_count == (if patch.merchant_name is Some {
            less_by(old(summary).missing_merchant_count, bulk_count as int)
        } else {
            old(summary).missing_merchant_count as int
        }),
        final(summary).missing_purpose_count == (if patch.purpose is Some {
            less_by(old(summary).missing_purpose_count, bulk_count as int)
        } else {
            old(summary).missing_purpose_count as int
        }),
{
    let n: i64 = bulk_count as i64;
    if patch.description.is_some() {
        summary.missing_description_count = lessen(summary.missing_description_count, n);
    }
    if patch.merchant_name.is_some() {
        summary.missing_merchant_count = lessen(summary.missing_merchant_count, n);
    }
    if patch.purpose.is_some() {
        summary.missing_purpose_count = lessen(summary.missing_purpose_count, n);
    }
}

// ---------------------------------------------------------------------------
// What became of a save

/// How a save in the background ended.
pub enum SaveOutcome {
    Saved { count: usize, sound: bool },
    Failed { label: String, error: String },
    Crashed { error: String },
}

/// The session once a save ended.
pub open spec fn save_ended(s: SessionContent, o: SaveOutcome) -> SessionContent {
    match o {
        SaveOutcome::Saved { count, .. } => SessionContent {
            saves_completed: counted_on(s.saves_completed, count as int),
            ..s
        },
        SaveOutcome::Failed { label, error } => SessionContent {
            last_save_error: Some("falha ao salvar ("@ + label@ + "): "@ + error@),
            ..s
        },
        SaveOutcome::Crashed { error } => SessionContent {
            last_save_error: Some("task de save panicou: "@ + error@),
            ..s
        },
    }
}

/// The session once several saves ended.
pub open spec fn saves_ended(s: SessionContent, list: Seq<SaveOutcome>) -> SessionContent
    decreases list.len(),
{
    if list.len() == 0 {
        s
    } else {
        save_ended(saves_ended(s, list.drop_last()), list.last())
    }
}

pub open spec fn sounds(o: SaveOutcome) -> bool {
    match o {
        SaveOutcome::Saved { sound, .. } => sound,
        _ => false,
    }
}

/// Takes note of saves that ended; tells whether one asks for a sound.
pub fn poll_review_tui_pending_saves(
    session: &mut ReviewTuiSession,
    ended: &Vec<SaveOutcome>,
    still_pending: usize,
) -> (r: bool)
    ensures
        r == (exists|i: int| 0 <= i < ended@.len() && sounds(#[trigger] ended@[i])),
        final(session)@ == (if ended@.len() == 0 && still_pending == 0 {
            old(session)@
        } else {
            SessionContent {
                pending_save_count: still_pending as int,
                ..saves_ended(old(session)@, ended@)
            }
        }),
{
    if ended.len() == 0 && still_pending == 0 {
        return false;
    }
    let ghost start = session@;
    let mut sound = false;
    let mut i: usize = 0;
    assert(ended@.take(0) =~= Seq::<SaveOutcome>::empty());
    while i < ended.len()
        invariant
            i <= ended.len(),
            session@ == saves_ended(start, ended@.take(i as int)),
            sound == (exists|k: int| 0 <= k < i && sounds(#[trigger] ended@[k])),
        decreases ended.len() - i,
    {
        proof {
            assert(ended@.take(i + 1).drop_last() =~= ended@.take(i as int));
            assert(ended@.take(i + 1).last() == ended@[i as int]);
        }
        let ghost was = sound;
        match &ended[i] {
            SaveOutcome::Saved { count, sound: loud } => {
                session.saves_completed = if *count <= usize::MAX - session.saves_completed {
                    session.saves_completed + *count
                } else {
                    usize::MAX
                };
                if *loud {
                    sound = true;
                }
            },
            SaveOutcome::Failed { label, error } => {
                let mut out = chars("falha ao salvar (");
                put(&mut out, label.as_str());
                put(&mut out, "): ");
                put(&mut out, error.as_str());
                assert(out@ =~= "falha ao salvar ("@ + label@ + "): "@ + error@);
                session.last_save_error = Some(from_chars(&out));
            },
            SaveOutcome::Crashed { error } => {
                session.last_save_error = Some(glue("task de save panicou: ", error.as_str()));
            },
        }
        assert(sound == (was || sounds(ended@[i as int])));
        i = i + 1;
    }
    assert(ended@.take(i as int) =~= ended@);
    session.pending_save_count = still_pending;
    sound
}

// ---------------------------------------------------------------------------
// A review from the command line

/// What a review changed.
pub struct ReviewHumanApplyResult {
    pub transaction_id: String,
    pub updated_description: bool,
    pub updated_merchant_name: bool,
    pub updated_purpose: bool,
    pub updated_category: bool,
    pub category_id: Option<String>,
}

/// Whether the texts of a transaction have to be stored.
pub fn updates_anatomy(patch: &HumanReviewPatch) -> (r: bool)
    ensures
        r == (patch.description is Some || patch.merchant_name is Some || patch.purpose is Some),
{
    patch.description.is_some() || patch.merchant_name.is_some() || patch.purpose.is_some()
}

/// Checks a review before it is stored, and tells what it will change, with the entry of
/// the audit trail. `existing` is the stored transaction; `suffix` makes the key unique.
pub fn plan_human_review(
    transaction_id: &str,
    patch: &HumanReviewPatch,
    existing: Option<&TransactionRecord>,
    suffix: &str,
) -> (r: Result<(ReviewHumanApplyResult, AuditEntry), String>)
    ensures
        match r {
            Ok((x, e)) => {
                &&& patch@.changes()
                &&& existing is Some
                &&& x.transaction_id@ == transaction_id@
                &&& x.updated_description == (patch.description is Some)
                &&& x.updated_merchant_name == (patch.merchant_name is Some)
                &&& x.updated_purpose == (patch.purpose is Some)
                &&& x.updated_category == (patch.category_id is Some)
                &&& x.category_id == patch.category_id
                &&& e.logs(review_logged(*existing->Some_0, *patch, transaction_id@, suffix@))
            },
            Err(e) => if !patch@.changes() {
                e@ == "Informe ao menos um campo humano ou categoria para salvar"@
            } else {
                existing is None && e@ == "Transação "@ + transaction_id@ + " não encontrada"@
            },
        },
{
    if !patch.has_changes() {
        return Err("Informe ao menos um campo humano ou categoria para salvar".to_string());
    }
    match existing {
        None => Err(glue3("Transação ", transaction_id, " não encontrada")),
        Some(row) => {
            let done = ReviewHumanApplyResult {
                transaction_id: transaction_id.to_string(),
                updated_description: patch.description.is_some(),
                updated_merchant_name: patch.merchant_name.is_some(),
                updated_purpose: patch.purpose.is_some(),
                updated_category: patch.category_id.is_some(),
                category_id: opt_clone(&patch.category_id),
            };
            Ok((done, review_entry(row, patch, transaction_id, suffix)))
        },
    }
}

/// What was typed at a prompt.
pub enum PromptValue {
    Keep,
    Value(String),
    Skip,
    Quit,
}

/// What was typed at a prompt.
pub fn prompt_value(line: &str) -> (r: PromptValue)
    ensures
        ({
            let t = trimmed(line@);
            if t.len() == 0 {
                r is Keep
            } else if t == "q"@ || t == "quit"@ || t == "sair"@ {
                r is Quit
            } else if t == "s"@ || t == "skip"@ || t == "pular"@ {
                r is Skip
            } else {
                r is Value && r->Value_0@ == t
            }
        }),
{
    let t = trim(line);
    let s = t.as_str();
    if s.is_empty() {
        PromptValue::Keep
    } else if same(s, "q") || same(s, "quit") || same(s, "sair") {
        PromptValue::Quit
    } else if same(s, "s") || same(s, "skip") || same(s, "pular") {
        PromptValue::Skip
    } else {
        PromptValue::Value(t)
    }
}

/// The question of a prompt, with the value that stands.
pub fn prompt_question(label: &str, current: &Option<String>) -> (r: String)
    ensures
        r@ == (match *current {
            Some(v) => if trimmed(v@).len() > 0 {
                label@ + " ["@ + v@ + "]: "@
            } else {
                label@ + ": "@
            },
            None => label@ + ": "@,
        }),
{
    match current {
        Some(v) => if !is_blank(v.as_str()) {
            let head = glue3(label, " [", v.as_str());
            glue(head.as_str(), "]: ")
        } else {
            glue(label, ": ")
        },
        None => glue(label, ": "),
    }
}

} // verus!
