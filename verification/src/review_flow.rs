//! A review on the screen: from a key to what happens, and what comes of it.

use crate::draft::{
    fresh_draft, least, restored, DraftContent, ReviewTuiDraft, ReviewTuiField, CATEGORY_POSITION,
    FIELD_COUNT,
};
use crate::categories::searchable;
use crate::keys::{command_or_control, key_has_command_or_control, KeyCode, KeyEvent};
use crate::records::TransactionRecord;
use crate::review::review_tui_raw_hour;
use crate::review_session::{
    basic_action, control_skip, details_step, filter_view, handle_review_tui_basic_key,
    handle_review_tui_category_modal_key, handle_review_tui_details_modal_key,
    handle_review_tui_field_key, handle_review_tui_filter_menu_key,
    handle_review_tui_month_picker_key, handle_review_tui_repeat_category_key,
    handle_review_tui_row_key, handle_review_tui_text_key, hour_of, menu_filters, moved_index,
    move_review_tui_index, next_field, picking_month, plain_skip, previous_field, repeats,
    review_tui_skip_requested, row_move, search_step, text_step, FilterContent, ReviewEffect,
    ReviewTuiKeyAction, ReviewTuiSession, SessionContent,
};
use crate::text::{from_chars, replaced, texts};
use vstd::prelude::*;

verus! {

/// What the host has to do, as texts.
pub enum EffectContent {
    Stay,
    Exit,
    Save,
    Filter(FilterContent),
    Month(Seq<char>),
    ToggleReviewed,
    FindSimilar,
}

pub open spec fn effect_view(e: ReviewEffect) -> EffectContent {
    match e {
        ReviewEffect::Stay => EffectContent::Stay,
        ReviewEffect::Exit => EffectContent::Exit,
        ReviewEffect::Save => EffectContent::Save,
        ReviewEffect::Filter(f) => EffectContent::Filter(filter_view(f)),
        ReviewEffect::Month(m) => EffectContent::Month(m@),
        ReviewEffect::ToggleReviewed => EffectContent::ToggleReviewed,
        ReviewEffect::FindSimilar => EffectContent::FindSimilar,
    }
}

/// What a key leaves behind: the session, the draft of the transaction that was
/// current, and what the host has to do.
pub struct Outcome {
    pub session: SessionContent,
    pub draft: DraftContent,
    pub effect: EffectContent,
}

pub open spec fn stays(session: SessionContent, draft: DraftContent) -> Outcome {
    Outcome { session, draft, effect: EffectContent::Stay }
}

/// A key while the filter menu is open.
pub open spec fn filter_menu_step(
    key: KeyEvent,
    s: SessionContent,
    d: DraftContent,
    row: TransactionRecord,
) -> Outcome {
    if key.code == KeyCode::Esc {
        stays(
            SessionContent {
                filter_menu_open: false,
                status: "menu de filtros fechado"@,
                ..s
            },
            d,
        )
    } else if key.code == KeyCode::Char('m') && key.modifiers.none_held() {
        stays(picking_month(s), d)
    } else {
        match menu_filters(key, row, s.filters) {
            Some(f) => Outcome { session: s, draft: d, effect: EffectContent::Filter(f) },
            None => stays(s, d),
        }
    }
}

/// A key while a month is picked.
pub open spec fn month_picker_step(key: KeyEvent, s: SessionContent, d: DraftContent) -> Outcome {
    let n = s.available_months.len();
    match key.code {
        KeyCode::Esc => stays(
            SessionContent {
                month_picker_open: false,
                filter_menu_open: true,
                status: "menu de filtros"@,
                ..s
            },
            d,
        ),
        KeyCode::Up => stays(
            SessionContent {
                month_picker_cursor: crate::review_session::counted_back(
                    s.month_picker_cursor,
                    1,
                ),
                ..s
            },
            d,
        ),
        KeyCode::Down => stays(
            if n > 0 {
                SessionContent {
                    month_picker_cursor: least(s.month_picker_cursor + 1, n - 1),
                    ..s
                }
            } else {
                s
            },
            d,
        ),
        KeyCode::Enter => if s.month_picker_cursor < n {
            Outcome {
                session: s,
                draft: d,
                effect: EffectContent::Month(s.available_months[s.month_picker_cursor]),
            }
        } else {
            stays(s, d)
        },
        _ => stays(s, d),
    }
}

/// What an open modal does with a key, where one is open.
pub open spec fn modal_step(
    key: KeyEvent,
    s: SessionContent,
    d: DraftContent,
    row: TransactionRecord,
    categories: Seq<String>,
) -> Option<Outcome> {
    if s.details_open {
        Some(stays(details_step(key, s), d))
    } else if s.category_modal_open {
        let (t, e) = search_step(key, s, d, categories);
        Some(stays(t, e))
    } else if s.month_picker_open {
        Some(month_picker_step(key, s, d))
    } else if s.filter_menu_open {
        Some(filter_menu_step(key, s, d, row))
    } else {
        None
    }
}

/// A key that works on the whole screen.
pub open spec fn global_step(
    key: KeyEvent,
    s: SessionContent,
    d: DraftContent,
    row: TransactionRecord,
) -> Option<Outcome> {
    let control = key.modifiers.control;
    match key.code {
        KeyCode::Char(c) => if !control {
            None
        } else if c == 'r' {
            Some(Outcome { session: s, draft: d, effect: EffectContent::ToggleReviewed })
        } else if c == 'b' {
            if s.bulk_mode {
                Some(
                    stays(
                        SessionContent {
                            bulk_mode: false,
                            bulk_ids: Seq::empty(),
                            bulk_target_key: Seq::empty(),
                            status: "modo bulk OFF"@,
                            ..s
                        },
                        d,
                    ),
                )
            } else {
                Some(
                    Outcome {
                        session: SessionContent { bulk_mode: true, ..s },
                        draft: d,
                        effect: EffectContent::FindSimilar,
                    },
                )
            }
        } else if c == 'f' {
            Some(
                stays(
                    SessionContent {
                        filter_menu_open: true,
                        status: "menu de filtros aberto"@,
                        ..s
                    },
                    d,
                ),
            )
        } else if c == 'd' {
            Some(
                stays(
                    SessionContent {
                        details_open: true,
                        details_scroll: 0,
                        details_query: Seq::empty(),
                        status: "detalhes abertos"@,
                        ..s
                    },
                    d,
                ),
            )
        } else {
            None
        },
        KeyCode::Esc => if s.last_save_error is Some {
            Some(
                stays(
                    SessionContent { last_save_error: None, status: "aviso fechado"@, ..s },
                    d,
                ),
            )
        } else {
            Some(
                stays(
                    SessionContent { category_cursor: 0, status: "campo atual restaurado"@, ..s },
                    restored(d, row),
                ),
            )
        },
        _ => None,
    }
}

/// A key that moves between the queue and the fields.
pub open spec fn focus_step(key: KeyEvent, s: SessionContent, d: DraftContent) -> Option<Outcome> {
    match key.code {
        KeyCode::Tab => Some(
            if s.focus_queue {
                stays(SessionContent { focus_queue: false, ..s }, d.with_active(0))
            } else if d.active + 1 >= FIELD_COUNT {
                stays(SessionContent { focus_queue: true, ..s }, d)
            } else {
                stays(s, d.with_active(d.active + 1))
            },
        ),
        KeyCode::BackTab => Some(
            if s.focus_queue {
                stays(SessionContent { focus_queue: false, ..s }, d.with_active(FIELD_COUNT - 1))
            } else if d.active == 0 {
                stays(SessionContent { focus_queue: true, ..s }, d)
            } else {
                stays(s, d.with_active(d.active - 1))
            },
        ),
        _ => None,
    }
}

/// The session at another transaction.
pub open spec fn at_row(s: SessionContent, rows: Seq<TransactionRecord>, index: int) -> SessionContent {
    SessionContent { index, raw_hour: hour_of(rows[index]), ..s }
}

/// A key that works on the transaction: discard, skip, move, repeat the category.
pub open spec fn row_step(
    key: KeyEvent,
    s: SessionContent,
    d: DraftContent,
    rows: Seq<TransactionRecord>,
) -> Option<Outcome> {
    let row = rows[s.index];
    let n = rows.len() as int;
    let skipped = moved_index(s.index, n, 1);
    let moved = moved_index(s.index, n, row_move(key, s.focus_queue));
    if key.code == KeyCode::Char('u') && key.modifiers.control {
        Some(stays(s.say("edição atual descartada"@), fresh_draft(row)))
    } else if control_skip(key) || plain_skip(key, row, d) {
        Some(
            stays(
                at_row(s, rows, skipped).say(
                    if skipped != s.index {
                        "pulada"@
                    } else {
                        "fim da fila"@
                    },
                ),
                d,
            ),
        )
    } else if row_move(key, s.focus_queue) != 0 && moved != s.index {
        Some(stays(at_row(s, rows, moved), d))
    } else if repeats(key) {
        match s.last_category_id {
            Some(id) => Some(
                stays(
                    s.say("categoria repetida: "@ + replaced(id, ':', " > "@)),
                    d.with_category(id).with_active(CATEGORY_POSITION as int),
                ),
            ),
            None => Some(stays(s.say("sem categoria anterior nesta sessão"@), d)),
        }
    } else {
        None
    }
}

/// A key for the editor.
pub open spec fn editor_step(key: KeyEvent, s: SessionContent, d: DraftContent) -> Outcome {
    if !s.focus_queue && d.field() == ReviewTuiField::Category && key.code == KeyCode::Enter
        && key.modifiers.none_held() {
        stays(
            SessionContent {
                category_modal_open: true,
                category_cursor: 0,
                category_query_dirty: false,
                category_query_backup: d.category_query,
                ..s
            },
            d,
        )
    } else if s.focus_queue {
        stays(s, d)
    } else {
        match basic_action(key) {
            Some(ReviewTuiKeyAction::Exit) => Outcome {
                session: s,
                draft: d,
                effect: EffectContent::Exit,
            },
            Some(ReviewTuiKeyAction::Save) => Outcome {
                session: s,
                draft: d,
                effect: EffectContent::Save,
            },
            Some(ReviewTuiKeyAction::Continue) => stays(
                s,
                d.with_active(
                    if key.code == KeyCode::Tab {
                        next_field(d.active)
                    } else {
                        previous_field(d.active)
                    },
                ),
            ),
            None => stays(
                s,
                match key.code {
                    KeyCode::Up => d.with_active(previous_field(d.active)),
                    KeyCode::Down | KeyCode::Enter => d.with_active(next_field(d.active)),
                    _ => match text_step(key, d) {
                        Some(e) => e,
                        None => d,
                    },
                },
            ),
        }
    }
}

/// What a key does.
pub open spec fn event_step(
    key: KeyEvent,
    s: SessionContent,
    d: DraftContent,
    rows: Seq<TransactionRecord>,
    categories: Seq<String>,
) -> Outcome {
    let row = rows[s.index];
    if key.code == KeyCode::Char('x') && command_or_control(key.modifiers) {
        Outcome { session: s, draft: d, effect: EffectContent::Exit }
    } else {
        match modal_step(key, s, d, row, categories) {
            Some(o) => o,
            None => match global_step(key, s, d, row) {
                Some(o) => o,
                None => match focus_step(key, s, d) {
                    Some(o) => o,
                    None => match row_step(key, s, d, rows) {
                        Some(o) => o,
                        None => editor_step(key, s, d),
                    },
                },
            },
        }
    }
}

fn no_texts() -> (r: Vec<String>)
    ensures
        texts(r@) == Seq::<Seq<char>>::empty(),
{
    let out: Vec<String> = Vec::new();
    assert(texts(out@) =~= Seq::<Seq<char>>::empty());
    out
}

fn no_text() -> (r: String)
    ensures
        r@ == Seq::<char>::empty(),
{
    let none: Vec<char> = Vec::new();
    from_chars(&none)
}

/// A key for an open modal; nothing where none is open.
pub fn handle_review_tui_modal_event(
    key: KeyEvent,
    session: &mut ReviewTuiSession,
    draft: &mut ReviewTuiDraft,
    row: &TransactionRecord,
    categories: &Vec<String>,
) -> (r: Option<ReviewEffect>)
    requires
        old(draft).sound(),
        searchable(texts(categories@), old(draft)@.category_query),
        old(session).recent_categories@.len() <= i64::MAX,
    ensures
        final(draft).sound(),
        match modal_step(key, old(session)@, old(draft)@, *row, categories@) {
            Some(o) => r is Some && final(session)@ == o.session && final(draft)@ == o.draft
                && effect_view(r->0) == o.effect,
            None => r is None && final(session)@ == old(session)@ && final(draft)@ == old(draft)@,
        },
{
    if session.details_open {
        handle_review_tui_details_modal_key(key, session);
        Some(ReviewEffect::Stay)
    } else if session.category_modal_open {
        handle_review_tui_category_modal_key(key, session, draft, categories);
        Some(ReviewEffect::Stay)
    } else if session.month_picker_open {
        let e = handle_review_tui_month_picker_key(key, session);
        Some(e)
    } else if session.filter_menu_open {
        let e = handle_review_tui_filter_menu_key(key, session, row);
        Some(e)
    } else {
        None
    }
}

/// A key that works on the whole screen; nothing where it is none.
pub fn handle_review_tui_global_event(
    key: KeyEvent,
    session: &mut ReviewTuiSession,
    draft: &mut ReviewTuiDraft,
    row: &TransactionRecord,
) -> (r: Option<ReviewEffect>)
    requires
        old(draft).sound(),
    ensures
        final(draft).sound(),
        match global_step(key, old(session)@, old(draft)@, *row) {
            Some(o) => r is Some && final(session)@ == o.session && final(draft)@ == o.draft
                && effect_view(r->0) == o.effect,
            None => r is None && final(session)@ == old(session)@ && final(draft)@ == old(draft)@,
        },
{
    match key.code {
        KeyCode::Char(c) => {
            if !key.modifiers.control {
                None
            } else if c == 'r' {
                Some(ReviewEffect::ToggleReviewed)
            } else if c == 'b' {
                if session.bulk_mode {
                    session.bulk_mode = false;
                    session.bulk_ids = no_texts();
                    session.bulk_target_key = no_text();
                    session.status = "modo bulk OFF".to_string();
                    Some(ReviewEffect::Stay)
                } else {
                    session.bulk_mode = true;
                    Some(ReviewEffect::FindSimilar)
                }
            } else if c == 'f' {
                session.filter_menu_open = true;
                session.status = "menu de filtros aberto".to_string();
                Some(ReviewEffect::Stay)
            } else if c == 'd' {
                session.details_open = true;
                session.details_scroll = 0;
                session.details_query = no_text();
                session.status = "detalhes abertos".to_string();
                Some(ReviewEffect::Stay)
            } else {
                None
            }
        },
        KeyCode::Esc => {
            if session.last_save_error.is_some() {
                session.last_save_error = None;
                session.status = "aviso fechado".to_string();
            } else {
                draft.reset_active_field_from_row(row);
                session.category_cursor = 0;
                session.status = "campo atual restaurado".to_string();
            }
            Some(ReviewEffect::Stay)
        },
        _ => None,
    }
}

/// A key that moves between the queue and the fields; tells whether it was one.
pub fn handle_review_tui_focus_key(
    key: KeyEvent,
    session: &mut ReviewTuiSession,
    draft: &mut ReviewTuiDraft,
) -> (r: bool)
    requires
        old(draft).sound(),
    ensures
        final(draft).sound(),
        match focus_step(key, old(session)@, old(draft)@) {
            Some(o) => r && final(session)@ == o.session && final(draft)@ == o.draft,
            None => !r && final(session)@ == old(session)@ && final(draft)@ == old(draft)@,
        },
{
    let active = draft.active;
    match key.code {
        KeyCode::Tab => {
            if session.focus_queue {
                session.focus_queue = false;
                draft.set_active(0);
            } else if active + 1 >= FIELD_COUNT {
                session.focus_queue = true;
            } else {
                draft.set_active(active + 1);
            }
            true
        },
        KeyCode::BackTab => {
            if session.focus_queue {
                session.focus_queue = false;
                draft.set_active(FIELD_COUNT - 1);
            } else if active == 0 {
                session.focus_queue = true;
            } else {
                draft.set_active(active - 1);
            }
            true
        },
        _ => false,
    }
}

/// A key that works on the transaction; tells whether it was one.
pub fn handle_review_tui_row_event(
    key: KeyEvent,
    session: &mut ReviewTuiSession,
    draft: &mut ReviewTuiDraft,
    rows: &Vec<TransactionRecord>,
) -> (r: bool)
    requires
        old(draft).sound(),
        old(session).index < rows@.len(),
    ensures
        final(draft).sound(),
        final(session).index < rows@.len(),
        match row_step(key, old(session)@, old(draft)@, rows@) {
            Some(o) => r && final(session)@ == o.session && final(draft)@ == o.draft,
            None => !r && final(session)@ == old(session)@ && final(draft)@ == old(draft)@,
        },
{
    let start = session.index;
    let n = rows.len();
    if key.code == KeyCode::Char('u') && key.modifiers.control {
        *draft = ReviewTuiDraft::from_row(&rows[start]);
        session.status = "edição atual descartada".to_string();
        return true;
    }
    if review_tui_skip_requested(key, &rows[start], draft) {
        let mut index = start;
        let moved = move_review_tui_index(&mut index, n, 1);
        session.index = index;
        session.raw_hour = review_tui_raw_hour(&rows[index]);
        session.status = if moved {
            "pulada".to_string()
        } else {
            "fim da fila".to_string()
        };
        return true;
    }
    let mut index = start;
    if handle_review_tui_row_key(key, &mut index, n, session.focus_queue) {
        session.index = index;
        session.raw_hour = review_tui_raw_hour(&rows[index]);
        return true;
    }
    handle_review_tui_repeat_category_key(key, draft, session)
}

/// A key for the editor.
pub fn handle_review_tui_basic_action(
    key: KeyEvent,
    session: &mut ReviewTuiSession,
    draft: &mut ReviewTuiDraft,
) -> (r: ReviewEffect)
    requires
        old(draft).sound(),
    ensures
        final(draft).sound(),
        ({
            let o = editor_step(key, old(session)@, old(draft)@);
            final(session)@ == o.session && final(draft)@ == o.draft && effect_view(r) == o.effect
        }),
{
    if !session.focus_queue && draft.field() == ReviewTuiField::Category && key.code
        == KeyCode::Enter && key.modifiers.is_empty() {
        session.category_modal_open = true;
        session.category_cursor = 0;
        session.category_query_dirty = false;
        session.category_query_backup = draft.category_query.clone();
        return ReviewEffect::Stay;
    }
    if session.focus_queue {
        return ReviewEffect::Stay;
    }
    match handle_review_tui_basic_key(key, draft) {
        Some(ReviewTuiKeyAction::Exit) => ReviewEffect::Exit,
        Some(ReviewTuiKeyAction::Save) => ReviewEffect::Save,
        Some(ReviewTuiKeyAction::Continue) => ReviewEffect::Stay,
        None => {
            if !handle_review_tui_field_key(key, draft) {
                handle_review_tui_text_key(key, draft);
            }
            ReviewEffect::Stay
        },
    }
}

/// What a key does: to the session, to the draft of the current transaction, and what
/// the host has to do then.
pub fn handle_review_tui_event(
    key: KeyEvent,
    session: &mut ReviewTuiSession,
    draft: &mut ReviewTuiDraft,
    rows: &Vec<TransactionRecord>,
    categories: &Vec<String>,
) -> (r: ReviewEffect)
    requires
        old(draft).sound(),
        old(session).index < rows@.len(),
        searchable(texts(categories@), old(draft)@.category_query),
        old(session).recent_categories@.len() <= i64::MAX,
    ensures
        final(draft).sound(),
        ({
            let o = event_step(key, old(session)@, old(draft)@, rows@, categories@);
            final(session)@ == o.session && final(draft)@ == o.draft && effect_view(r) == o.effect
        }),
{
    let index = session.index;
    if key.code == KeyCode::Char('x') && key_has_command_or_control(key.modifiers) {
        return ReviewEffect::Exit;
    }
    match handle_review_tui_modal_event(key, session, draft, &rows[index], categories) {
        Some(e) => {
            return e;
        },
        None => {},
    }
    assert(session@.index == index);
    match handle_review_tui_global_event(key, session, draft, &rows[index]) {
        Some(e) => {
            return e;
        },
        None => {},
    }
    if handle_review_tui_focus_key(key, session, draft) {
        return ReviewEffect::Stay;
    }
    assert(session@.index == index);
    if handle_review_tui_row_event(key, session, draft, rows) {
        return ReviewEffect::Stay;
    }
    handle_review_tui_basic_action(key, session, draft)
}

proof fn lemma_modal_index(
    key: KeyEvent,
    s: SessionContent,
    d: DraftContent,
    row: TransactionRecord,
    categories: Seq<String>,
)
    ensures
        match modal_step(key, s, d, row, categories) {
            Some(o) => o.session.index == s.index,
            None => true,
        },
{
}

/// A key never leads out of the queue.
pub proof fn law_index_stays_in_queue(
    key: KeyEvent,
    s: SessionContent,
    d: DraftContent,
    rows: Seq<TransactionRecord>,
    categories: Seq<String>,
)
    requires
        0 <= s.index < rows.len(),
    ensures
        0 <= event_step(key, s, d, rows, categories).session.index < rows.len(),
{
    lemma_modal_index(key, s, d, rows[s.index], categories);
}

/// While a modal is open, no key changes the texts of the draft but the search for a
/// category and the category chosen in it.
pub proof fn law_modal_keeps_texts(
    key: KeyEvent,
    s: SessionContent,
    d: DraftContent,
    rows: Seq<TransactionRecord>,
    categories: Seq<String>,
)
    requires
        s.details_open || s.category_modal_open || s.month_picker_open || s.filter_menu_open,
    ensures
        ({
            let e = event_step(key, s, d, rows, categories).draft;
            e.merchant_name == d.merchant_name && e.description == d.description && e.purpose
                == d.purpose
        }),
{
}

} // verus!
