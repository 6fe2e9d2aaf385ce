//! A review on the screen: what each key does to it.

use crate::categories::{
    category_matches, find_first, first_at, matches_for, searchable,
};
use crate::draft::{
    deleted, erased, least, patch_of, typed, word_after, word_before, DraftContent, ReviewTuiDraft,
    ReviewTuiField, CATEGORY_POSITION, FIELD_COUNT,
};
use crate::keys::{
    command_or_control, key_has_command_or_control, key_has_navigation_modifier, KeyCode, KeyEvent,
};
use crate::records::{opt_clone, opt_text, TransactionRecord};
use crate::review::{raw_time, review_tui_raw_hour, rfc3339_clock, time_of, ReviewFilters};
use crate::text::{chars, from_chars, glue, is_blank, replace_char, replaced, texts, trimmed};
use vstd::prelude::*;

verus! {

/// How many recent categories a session remembers.
pub const REVIEW_TUI_RECENT_CATEGORY_LIMIT: usize = 5;

/// The state of a review on the screen.
#[derive(Debug)]
pub struct ReviewTuiSession {
    pub index: usize,
    /// The time of day of the current transaction, where the feed tells it.
    pub raw_hour: Option<String>,
    pub filters: ReviewFilters,
    pub available_months: Vec<String>,
    pub focus_queue: bool,
    pub category_cursor: usize,
    pub status: String,
    pub recent_categories: Vec<String>,
    pub last_category_id: Option<String>,
    pub filter_menu_open: bool,
    pub month_picker_open: bool,
    pub month_picker_cursor: usize,
    pub category_modal_open: bool,
    pub category_query_dirty: bool,
    pub category_query_backup: String,
    pub details_open: bool,
    pub details_scroll: usize,
    pub details_query: String,
    pub include_reviewed: bool,
    pub bulk_mode: bool,
    pub bulk_ids: Vec<String>,
    pub bulk_target_key: String,
    pub pending_save_count: usize,
    pub last_save_error: Option<String>,
    pub saves_completed: usize,
}

/// The filters of a session, as texts.
#[verifier::ext_equal]
pub struct FilterContent {
    pub month: Option<Seq<char>>,
    pub account_id: Option<Seq<char>>,
    pub owner_accounts: Option<Seq<Seq<char>>>,
    pub owner: Option<Seq<char>>,
    pub merchant: Option<Seq<char>>,
    pub category: Option<Seq<char>>,
}

pub open spec fn filter_view(f: ReviewFilters) -> FilterContent {
    FilterContent {
        month: opt_text(f.month),
        account_id: opt_text(f.account_id),
        owner_accounts: match f.owner_accounts {
            Some(list) => Some(texts(list@)),
            None => None,
        },
        owner: opt_text(f.owner),
        merchant: opt_text(f.merchant),
        category: opt_text(f.category),
    }
}

pub open spec fn no_filter() -> FilterContent {
    FilterContent {
        month: None,
        account_id: None,
        owner_accounts: None,
        owner: None,
        merchant: None,
        category: None,
    }
}

/// What a session holds.
#[verifier::ext_equal]
pub struct SessionContent {
    pub index: int,
    pub raw_hour: Option<Seq<char>>,
    pub filters: FilterContent,
    pub available_months: Seq<Seq<char>>,
    pub focus_queue: bool,
    pub category_cursor: int,
    pub status: Seq<char>,
    pub recent_categories: Seq<Seq<char>>,
    pub last_category_id: Option<Seq<char>>,
    pub filter_menu_open: bool,
    pub month_picker_open: bool,
    pub month_picker_cursor: int,
    pub category_modal_open: bool,
    pub category_query_dirty: bool,
    pub category_query_backup: Seq<char>,
    pub details_open: bool,
    pub details_scroll: int,
    pub details_query: Seq<char>,
    pub include_reviewed: bool,
    pub bulk_mode: bool,
    pub bulk_ids: Seq<Seq<char>>,
    pub bulk_target_key: Seq<char>,
    pub pending_save_count: int,
    pub last_save_error: Option<Seq<char>>,
    pub saves_completed: int,
}

impl View for ReviewTuiSession {
    type V = SessionContent;

    open spec fn view(&self) -> SessionContent {
        SessionContent {
            index: self.index as int,
            raw_hour: opt_text(self.raw_hour),
            filters: filter_view(self.filters),
            available_months: texts(self.available_months@),
            focus_queue: self.focus_queue,
            category_cursor: self.category_cursor as int,
            status: self.status@,
            recent_categories: texts(self.recent_categories@),
            last_category_id: opt_text(self.last_category_id),
            filter_menu_open: self.filter_menu_open,
            month_picker_open: self.month_picker_open,
            month_picker_cursor: self.month_picker_cursor as int,
            category_modal_open: self.category_modal_open,
            category_query_dirty: self.category_query_dirty,
            category_query_backup: self.category_query_backup@,
            details_open: self.details_open,
            details_scroll: self.details_scroll as int,
            details_query: self.details_query@,
            include_reviewed: self.include_reviewed,
            bulk_mode: self.bulk_mode,
            bulk_ids: texts(self.bulk_ids@),
            bulk_target_key: self.bulk_target_key@,
            pending_save_count: self.pending_save_count as int,
            last_save_error: opt_text(self.last_save_error),
            saves_completed: self.saves_completed as int,
        }
    }
}

impl SessionContent {
    pub open spec fn say(self, status: Seq<char>) -> SessionContent {
        SessionContent { status, ..self }
    }
}

/// The time of day of a transaction, where the feed tells it.
pub open spec fn hour_of(row: TransactionRecord) -> Option<Seq<char>> {
    match raw_time(row.metadata_json) {
        Some(t) => Some(time_of(t, rfc3339_clock(t))),
        None => None,
    }
}

/// The state in which a review starts.
pub open spec fn fresh_session(
    row: TransactionRecord,
    filters: FilterContent,
    months: Seq<Seq<char>>,
    include_reviewed: bool,
) -> SessionContent {
    SessionContent {
        index: 0,
        raw_hour: hour_of(row),
        filters,
        available_months: months,
        focus_queue: true,
        category_cursor: 0,
        status: Seq::empty(),
        recent_categories: Seq::empty(),
        last_category_id: None,
        filter_menu_open: false,
        month_picker_open: false,
        month_picker_cursor: 0,
        category_modal_open: false,
        category_query_dirty: false,
        category_query_backup: Seq::empty(),
        details_open: false,
        details_scroll: 0,
        details_query: Seq::empty(),
        include_reviewed,
        bulk_mode: false,
        bulk_ids: Seq::empty(),
        bulk_target_key: Seq::empty(),
        pending_save_count: 0,
        last_save_error: None,
        saves_completed: 0,
    }
}

fn no_text() -> (r: String)
    ensures
        r@ == Seq::<char>::empty(),
{
    let none: Vec<char> = Vec::new();
    from_chars(&none)
}

impl ReviewTuiSession {
    /// Starts a review with its first transaction.
    pub fn new(
        row: &TransactionRecord,
        filters: ReviewFilters,
        available_months: Vec<String>,
        include_reviewed: bool,
    ) -> (r: ReviewTuiSession)
        ensures
            r@ == fresh_session(
                *row,
                filter_view(filters),
                texts(available_months@),
                include_reviewed,
            ),
    {
        let recent: Vec<String> = Vec::new();
        let bulk: Vec<String> = Vec::new();
        assert(texts(recent@) =~= Seq::<Seq<char>>::empty());
        assert(texts(bulk@) =~= Seq::<Seq<char>>::empty());
        ReviewTuiSession {
            index: 0,
            raw_hour: review_tui_raw_hour(row),
            filters,
            available_months,
            focus_queue: true,
            category_cursor: 0,
            status: no_text(),
            recent_categories: recent,
            last_category_id: None,
            filter_menu_open: false,
            month_picker_open: false,
            month_picker_cursor: 0,
            category_modal_open: false,
            category_query_dirty: false,
            category_query_backup: no_text(),
            details_open: false,
            details_scroll: 0,
            details_query: no_text(),
            include_reviewed,
            bulk_mode: false,
            bulk_ids: bulk,
            bulk_target_key: no_text(),
            pending_save_count: 0,
            last_save_error: None,
            saves_completed: 0,
        }
    }

    fn say(&mut self, status: &str)
        ensures
            final(self)@ == old(self)@.say(status@),
    {
        self.status = status.to_string();
    }
}

// ---------------------------------------------------------------------------
// Moving between transactions

/// The position after a move, within the rows.
pub open spec fn moved_index(index: int, len: int, delta: int) -> int {
    if delta < 0 {
        if index + delta < 0 {
            0
        } else {
            index + delta
        }
    } else if len > 0 {
        least(index + delta, len - 1)
    } else {
        index
    }
}

/// Moves to another transaction; tells whether there was one.
pub fn move_review_tui_index(index: &mut usize, rows_len: usize, delta: isize) -> (r: bool)
    requires
        *old(index) + delta <= usize::MAX,
        delta > isize::MIN,
    ensures
        *final(index) == moved_index(*old(index) as int, rows_len as int, delta as int),
        r == (*final(index) != *old(index)),
{
    let before = *index;
    if delta < 0 {
        let step: usize = (-delta) as usize;
        *index = if before < step {
            0
        } else {
            before - step
        };
    } else if rows_len > 0 {
        let next: usize = before + delta as usize;
        *index = if next <= rows_len - 1 {
            next
        } else {
            rows_len - 1
        };
    }
    *index != before
}

/// The move that a key asks for.
pub open spec fn row_move(key: KeyEvent, focus_queue: bool) -> int {
    let m = key.modifiers;
    let navigates = focus_queue || command_or_control(m) || m.alt;
    match key.code {
        KeyCode::Up => if navigates {
            -1
        } else {
            0
        },
        KeyCode::Down => if navigates {
            1
        } else {
            0
        },
        KeyCode::PageUp => -1,
        KeyCode::PageDown => 1,
        KeyCode::Char(c) => if !command_or_control(m) {
            0
        } else if c == 'p' || c == 'k' {
            -1
        } else if c == 'n' || c == 'j' {
            1
        } else {
            0
        },
        _ => 0,
    }
}

/// Moves to another transaction where the key asks for it; tells whether it did.
pub fn handle_review_tui_row_key(
    key: KeyEvent,
    index: &mut usize,
    rows_len: usize,
    focus_queue: bool,
) -> (r: bool)
    requires
        *old(index) < usize::MAX,
    ensures
        row_move(key, focus_queue) == 0 ==> *final(index) == *old(index),
        row_move(key, focus_queue) != 0 ==> *final(index) == moved_index(
            *old(index) as int,
            rows_len as int,
            row_move(key, focus_queue),
        ),
        r == (*final(index) != *old(index)),
{
    let navigates = focus_queue || key_has_navigation_modifier(key.modifiers);
    let delta: isize = match key.code {
        KeyCode::Up => if navigates {
            -1
        } else {
            0
        },
        KeyCode::Down => if navigates {
            1
        } else {
            0
        },
        KeyCode::PageUp => -1,
        KeyCode::PageDown => 1,
        KeyCode::Char(c) => if !key_has_command_or_control(key.modifiers) {
            0
        } else if c == 'p' || c == 'k' {
            -1
        } else if c == 'n' || c == 'j' {
            1
        } else {
            0
        },
        _ => 0,
    };
    if delta == 0 {
        false
    } else {
        move_review_tui_index(index, rows_len, delta)
    }
}

// ---------------------------------------------------------------------------
// Editing

#[derive(Clone, Copy, Debug, PartialEq, Eq, Structural)]
pub enum ReviewTuiKeyAction {
    Continue,
    Save,
    Exit,
}

/// What a key asks of the editor, where it is not text.
pub open spec fn basic_action(key: KeyEvent) -> Option<ReviewTuiKeyAction> {
    let held = command_or_control(key.modifiers);
    match key.code {
        KeyCode::Char(c) => if c == 'x' && held {
            Some(ReviewTuiKeyAction::Exit)
        } else if c == 's' && held {
            Some(ReviewTuiKeyAction::Save)
        } else {
            None
        },
        KeyCode::Tab => Some(ReviewTuiKeyAction::Continue),
        KeyCode::BackTab => Some(ReviewTuiKeyAction::Continue),
        KeyCode::Enter => if held {
            Some(ReviewTuiKeyAction::Save)
        } else {
            None
        },
        _ => None,
    }
}

/// The field after another, round to the first.
pub open spec fn next_field(active: int) -> int {
    (active + 1) % (FIELD_COUNT as int)
}

/// The field before another, round to the last.
pub open spec fn previous_field(active: int) -> int {
    if active == 0 {
        FIELD_COUNT - 1
    } else {
        active - 1
    }
}

fn step_field(draft: &mut ReviewTuiDraft, forward: bool)
    requires
        old(draft).sound(),
    ensures
        final(draft).sound(),
        final(draft)@ == old(draft)@.with_active(
            if forward {
                next_field(old(draft)@.active)
            } else {
                previous_field(old(draft)@.active)
            },
        ),
{
    let active = draft.active;
    if forward {
        draft.set_active((active + 1) % FIELD_COUNT);
    } else if active == 0 {
        draft.set_active(FIELD_COUNT - 1);
    } else {
        draft.set_active(active - 1);
    }
}

/// What a key asks of the editor, where it is not text. Moves between the fields.
pub fn handle_review_tui_basic_key(key: KeyEvent, draft: &mut ReviewTuiDraft) -> (r: Option<
    ReviewTuiKeyAction,
>)
    requires
        old(draft).sound(),
    ensures
        r == basic_action(key),
        final(draft).sound(),
        final(draft)@ == (match key.code {
            KeyCode::Tab => old(draft)@.with_active(next_field(old(draft)@.active)),
            KeyCode::BackTab => old(draft)@.with_active(previous_field(old(draft)@.active)),
            _ => old(draft)@,
        }),
{
    let held = key_has_command_or_control(key.modifiers);
    match key.code {
        KeyCode::Char(c) => if c == 'x' && held {
            Some(ReviewTuiKeyAction::Exit)
        } else if c == 's' && held {
            Some(ReviewTuiKeyAction::Save)
        } else {
            None
        },
        KeyCode::Tab => {
            step_field(draft, true);
            Some(ReviewTuiKeyAction::Continue)
        },
        KeyCode::BackTab => {
            step_field(draft, false);
            Some(ReviewTuiKeyAction::Continue)
        },
        KeyCode::Enter => if held {
            Some(ReviewTuiKeyAction::Save)
        } else {
            None
        },
        _ => None,
    }
}

/// Moves between the fields where the key asks for it; tells whether it did.
pub fn handle_review_tui_field_key(key: KeyEvent, draft: &mut ReviewTuiDraft) -> (r: bool)
    requires
        old(draft).sound(),
    ensures
        final(draft).sound(),
        r == (key.code == KeyCode::Up || key.code == KeyCode::Down || key.code == KeyCode::Enter),
        final(draft)@ == (match key.code {
            KeyCode::Up => old(draft)@.with_active(previous_field(old(draft)@.active)),
            KeyCode::Down | KeyCode::Enter => old(draft)@.with_active(
                next_field(old(draft)@.active),
            ),
            _ => old(draft)@,
        }),
{
    match key.code {
        KeyCode::Up => {
            step_field(draft, false);
            true
        },
        KeyCode::Down | KeyCode::Enter => {
            step_field(draft, true);
            true
        },
        _ => false,
    }
}

/// The draft after a key for text, where the key is one.
pub open spec fn text_step(key: KeyEvent, d: DraftContent) -> Option<DraftContent> {
    let m = key.modifiers;
    if d.field() == ReviewTuiField::Category {
        None
    } else {
        match key.code {
            KeyCode::Left => Some(
                d.with_cursor(
                    if m.command {
                        0
                    } else if m.control || m.alt {
                        word_before(d.value(), d.cursor())
                    } else if d.cursor() > 0 {
                        d.cursor() - 1
                    } else {
                        0
                    },
                ),
            ),
            KeyCode::Right => Some(
                d.with_cursor(
                    if m.command {
                        d.value().len() as int
                    } else if m.control || m.alt {
                        word_after(d.value(), d.cursor())
                    } else {
                        least(d.cursor() + 1, d.value().len() as int)
                    },
                ),
            ),
            KeyCode::Char(c) => if m.types_text() {
                Some(typed(d, c))
            } else {
                None
            },
            KeyCode::Backspace => Some(erased(d)),
            KeyCode::Delete => Some(deleted(d)),
            KeyCode::Home => Some(d.with_cursor(0)),
            KeyCode::End => Some(d.with_cursor(d.value().len() as int)),
            _ => None,
        }
    }
}

/// Edits the text of a field; tells whether the key was one for text.
pub fn handle_review_tui_text_key(key: KeyEvent, draft: &mut ReviewTuiDraft) -> (r: bool)
    requires
        old(draft).sound(),
    ensures
        final(draft).sound(),
        match text_step(key, old(draft)@) {
            Some(d) => r && final(draft)@ == d,
            None => !r && final(draft)@ == old(draft)@,
        },
{
    if draft.field() == ReviewTuiField::Category {
        return false;
    }
    let m = key.modifiers;
    match key.code {
        KeyCode::Left => {
            if m.command {
                draft.move_cursor_home();
            } else if m.control || m.alt {
                draft.move_cursor_word_left();
            } else {
                draft.move_cursor_left();
            }
            true
        },
        KeyCode::Right => {
            if m.command {
                draft.move_cursor_end();
            } else if m.control || m.alt {
                draft.move_cursor_word_right();
            } else {
                draft.move_cursor_right();
            }
            true
        },
        KeyCode::Char(c) => if m.is_text() {
            draft.insert_char(c);
            true
        } else {
            false
        },
        KeyCode::Backspace => {
            draft.backspace_char();
            true
        },
        KeyCode::Delete => {
            draft.delete_char();
            true
        },
        KeyCode::Home => {
            draft.move_cursor_home();
            true
        },
        KeyCode::End => {
            draft.move_cursor_end();
            true
        },
        _ => false,
    }
}

/// Whether a bare `s` skips: not in the category, and not with something typed.
pub open spec fn plain_skip(key: KeyEvent, row: TransactionRecord, d: DraftContent) -> bool {
    key.code == KeyCode::Char('s') && key.modifiers.none_held() && d.field()
        != ReviewTuiField::Category && !patch_of(d, row).changes()
}

/// Whether a bare `s` skips.
pub fn review_tui_plain_skip_requested(
    key: KeyEvent,
    row: &TransactionRecord,
    draft: &ReviewTuiDraft,
) -> (r: bool)
    requires
        draft.sound(),
    ensures
        r == plain_skip(key, *row, draft@),
{
    key.code == KeyCode::Char('s') && key.modifiers.is_empty() && draft.field()
        != ReviewTuiField::Category && !draft.has_changes_from(row)
}

pub open spec fn control_skip(key: KeyEvent) -> bool {
    key.code == KeyCode::Char('p') && key.modifiers.control
}

/// Whether the key skips the transaction.
pub fn review_tui_skip_requested(
    key: KeyEvent,
    row: &TransactionRecord,
    draft: &ReviewTuiDraft,
) -> (r: bool)
    requires
        draft.sound(),
    ensures
        r == (control_skip(key) || plain_skip(key, *row, draft@)),
{
    (key.code == KeyCode::Char('p') && key.modifiers.control) || review_tui_plain_skip_requested(
        key,
        row,
        draft,
    )
}

/// Whether the key repeats the last category.
pub open spec fn repeats(key: KeyEvent) -> bool {
    key.code == KeyCode::Char('=') || (key.code == KeyCode::Char('y') && key.modifiers.control)
}

/// Takes the last category again where the key asks for it; tells whether it did.
pub fn handle_review_tui_repeat_category_key(
    key: KeyEvent,
    draft: &mut ReviewTuiDraft,
    session: &mut ReviewTuiSession,
) -> (r: bool)
    requires
        old(draft).sound(),
    ensures
        final(draft).sound(),
        r == repeats(key),
        !r ==> final(draft)@ == old(draft)@ && final(session)@ == old(session)@,
        r ==> match old(session)@.last_category_id {
            Some(id) => {
                &&& final(draft)@ == old(draft)@.with_category(id).with_active(
                    CATEGORY_POSITION as int,
                )
                &&& final(session)@ == old(session)@.say(
                    "categoria repetida: "@ + replaced(id, ':', " > "@),
                )
            },
            None => {
                &&& final(draft)@ == old(draft)@
                &&& final(session)@ == old(session)@.say("sem categoria anterior nesta sessão"@)
            },
        },
{
    let asked = key.code == KeyCode::Char('=') || (key.code == KeyCode::Char('y')
        && key.modifiers.control);
    if !asked {
        return false;
    }
    match opt_clone(&session.last_category_id) {
        Some(id) => {
            let shown = replace_char(id.as_str(), ':', " > ");
            session.status = glue("categoria repetida: ", shown.as_str());
            draft.set_category_id(id);
            draft.focus_category();
        },
        None => {
            session.say("sem categoria anterior nesta sessão");
        },
    }
    true
}

/// Applies the highlighted category where the user typed a search or moved the
/// selection; otherwise the draft stays.
pub fn apply_review_tui_category_pick(
    draft: &mut ReviewTuiDraft,
    categories: &Vec<String>,
    recent_categories: &Vec<String>,
    category_cursor: usize,
)
    requires
        searchable(texts(categories@), old(draft)@.category_query),
        recent_categories@.len() <= i64::MAX,
    ensures
        final(draft).active == old(draft).active,
        final(draft)@ == picked_draft(
            old(draft)@,
            categories@,
            texts(recent_categories@),
            category_cursor as int,
        ),
{
    if is_blank(draft.category_query.as_str()) && category_cursor == 0 {
        return;
    }
    let matches = category_matches(
        categories,
        draft.category_query.as_str(),
        category_cursor,
        recent_categories,
    );
    assert(texts(matches@).len() == matches@.len());
    if matches.len() > 0 {
        assert(texts(matches@)[0] == matches@[0]@);
        draft.set_category_id(matches[0].clone());
    }
}

/// The draft with the highlighted category.
pub open spec fn picked_draft(
    d: DraftContent,
    categories: Seq<String>,
    recent: Seq<Seq<char>>,
    cursor: int,
) -> DraftContent {
    let found = matches_for(categories, d.category_query, cursor, recent);
    if trimmed(d.category_query).len() == 0 && cursor == 0 {
        d
    } else if found.len() == 0 {
        d
    } else {
        d.with_category(found[0])
    }
}

// ---------------------------------------------------------------------------
// Modals

/// The larger number, up to what a counter holds.
pub open spec fn counted_on(n: int, step: int) -> int {
    least(n + step, usize::MAX as int)
}

fn count_on(n: usize, step: usize) -> (r: usize)
    ensures
        r == counted_on(n as int, step as int),
{
    if n <= usize::MAX - step {
        n + step
    } else {
        usize::MAX
    }
}

fn count_back(n: usize, step: usize) -> (r: usize)
    ensures
        r == (if n >= step {
            n - step
        } else {
            0
        }),
{
    if n >= step {
        n - step
    } else {
        0
    }
}

pub open spec fn counted_back(n: int, step: int) -> int {
    if n >= step {
        n - step
    } else {
        0
    }
}

/// A text without its last character.
pub open spec fn shortened(s: Seq<char>) -> Seq<char> {
    if s.len() == 0 {
        s
    } else {
        s.drop_last()
    }
}

fn shorten(s: &str) -> (r: String)
    ensures
        r@ == shortened(s@),
{
    let mut v = chars(s);
    if v.len() > 0 {
        v.pop();
        assert(v@ =~= s@.drop_last());
    }
    from_chars(&v)
}

fn lengthen(s: &str, c: char) -> (r: String)
    ensures
        r@ == s@.push(c),
{
    let mut v = chars(s);
    v.push(c);
    from_chars(&v)
}

/// The session after a key while the details are open.
pub open spec fn details_step(key: KeyEvent, s: SessionContent) -> SessionContent {
    let closed = SessionContent { details_open: false, status: "detalhes fechados"@, ..s };
    match key.code {
        KeyCode::Esc => closed,
        KeyCode::Up => SessionContent { details_scroll: counted_back(s.details_scroll, 1), ..s },
        KeyCode::Down => SessionContent { details_scroll: counted_on(s.details_scroll, 1), ..s },
        KeyCode::PageUp => SessionContent {
            details_scroll: counted_back(s.details_scroll, 10),
            ..s
        },
        KeyCode::PageDown => SessionContent {
            details_scroll: counted_on(s.details_scroll, 10),
            ..s
        },
        KeyCode::Backspace => SessionContent {
            details_query: shortened(s.details_query),
            details_scroll: 0,
            ..s
        },
        KeyCode::Char(c) => if c == 'd' && key.modifiers.control {
            closed
        } else if key.modifiers.types_text() {
            SessionContent { details_query: s.details_query.push(c), details_scroll: 0, ..s }
        } else {
            s
        },
        _ => s,
    }
}

/// A key while the details are open.
pub fn handle_review_tui_details_modal_key(key: KeyEvent, session: &mut ReviewTuiSession)
    ensures
        final(session)@ == details_step(key, old(session)@),
{
    match key.code {
        KeyCode::Esc => {
            session.details_open = false;
            session.say("detalhes fechados");
        },
        KeyCode::Up => {
            session.details_scroll = count_back(session.details_scroll, 1);
        },
        KeyCode::Down => {
            session.details_scroll = count_on(session.details_scroll, 1);
        },
        KeyCode::PageUp => {
            session.details_scroll = count_back(session.details_scroll, 10);
        },
        KeyCode::PageDown => {
            session.details_scroll = count_on(session.details_scroll, 10);
        },
        KeyCode::Backspace => {
            session.details_query = shorten(session.details_query.as_str());
            session.details_scroll = 0;
        },
        KeyCode::Char(c) => {
            if c == 'd' && key.modifiers.control {
                session.details_open = false;
                session.say("detalhes fechados");
            } else if key.modifiers.is_text() {
                session.details_query = lengthen(session.details_query.as_str(), c);
                session.details_scroll = 0;
            }
        },
        _ => {},
    }
}

/// The digit from one to nine that a character is, counted from zero.
pub open spec fn choice_of(c: char) -> Option<int> {
    if '1' <= c <= '9' {
        Some(c as int - '1' as int)
    } else {
        None
    }
}

pub open spec fn search_closed(s: SessionContent) -> SessionContent {
    SessionContent {
        category_modal_open: false,
        category_cursor: 0,
        category_query_dirty: false,
        ..s
    }
}

/// The session and the draft after a key while a category is searched.
pub open spec fn search_step(
    key: KeyEvent,
    s: SessionContent,
    d: DraftContent,
    categories: Seq<String>,
) -> (SessionContent, DraftContent) {
    let found = matches_for(categories, d.category_query, s.category_cursor, s.recent_categories);
    let edited = SessionContent { category_query_dirty: true, category_cursor: 0, ..s };
    match key.code {
        KeyCode::Esc => (
            SessionContent {
                category_modal_open: false,
                category_query_dirty: false,
                status: "busca de categoria cancelada"@,
                ..s
            },
            d.with_query(s.category_query_backup),
        ),
        KeyCode::Up => (
            SessionContent { category_cursor: counted_back(s.category_cursor, 1), ..s },
            d,
        ),
        KeyCode::Down => (
            SessionContent { category_cursor: counted_on(s.category_cursor, 1), ..s },
            d,
        ),
        KeyCode::Enter => (
            search_closed(s),
            picked_draft(d, categories, s.recent_categories, s.category_cursor),
        ),
        KeyCode::Backspace => (
            edited,
            d.with_query(
                if s.category_query_dirty {
                    shortened(d.category_query)
                } else {
                    Seq::empty()
                },
            ),
        ),
        KeyCode::Char(c) => if choice_of(c) is Some && key.modifiers.none_held() {
            let i = choice_of(c)->0;
            if i < found.len() {
                (search_closed(s), d.with_category(found[i]))
            } else {
                (s, d)
            }
        } else if key.modifiers.types_text() {
            (
                edited,
                d.with_query(
                    (if s.category_query_dirty {
                        d.category_query
                    } else {
                        Seq::empty()
                    }).push(c),
                ),
            )
        } else {
            (s, d)
        },
        _ => (s, d),
    }
}

fn close_search(session: &mut ReviewTuiSession)
    ensures
        final(session)@ == search_closed(old(session)@),
{
    session.category_modal_open = false;
    session.category_cursor = 0;
    session.category_query_dirty = false;
}

fn pick_choice(
    choice: usize,
    session: &mut ReviewTuiSession,
    draft: &mut ReviewTuiDraft,
    categories: &Vec<String>,
)
    requires
        old(draft).sound(),
        searchable(texts(categories@), old(draft)@.category_query),
        old(session).recent_categories@.len() <= i64::MAX,
    ensures
        final(draft).sound(),
        ({
            let found = matches_for(
                categories@,
                old(draft)@.category_query,
                old(session)@.category_cursor,
                old(session)@.recent_categories,
            );
            if choice < found.len() {
                final(session)@ == search_closed(old(session)@) && final(draft)@ == old(
                    draft,
                )@.with_category(found[choice as int])
            } else {
                final(session)@ == old(session)@ && final(draft)@ == old(draft)@
            }
        }),
{
    let matches = category_matches(
        categories,
        draft.category_query.as_str(),
        session.category_cursor,
        &session.recent_categories,
    );
    assert(texts(matches@).len() == matches@.len());
    if choice < matches.len() {
        assert(texts(matches@)[choice as int] == matches@[choice as int]@);
        draft.set_category_id(matches[choice].clone());
        close_search(session);
    }
}

/// A key while a category is searched.
pub fn handle_review_tui_category_modal_key(
    key: KeyEvent,
    session: &mut ReviewTuiSession,
    draft: &mut ReviewTuiDraft,
    categories: &Vec<String>,
)
    requires
        old(draft).sound(),
        searchable(texts(categories@), old(draft)@.category_query),
        old(session).recent_categories@.len() <= i64::MAX,
    ensures
        final(draft).sound(),
        (final(session)@, final(draft)@) == search_step(
            key,
            old(session)@,
            old(draft)@,
            categories@,
        ),
{
    match key.code {
        KeyCode::Esc => {
            draft.set_category_query(session.category_query_backup.clone());
            session.category_modal_open = false;
            session.category_query_dirty = false;
            session.say("busca de categoria cancelada");
        },
        KeyCode::Up => {
            session.category_cursor = count_back(session.category_cursor, 1);
        },
        KeyCode::Down => {
            session.category_cursor = count_on(session.category_cursor, 1);
        },
        KeyCode::Enter => {
            apply_review_tui_category_pick(
                draft,
                categories,
                &session.recent_categories,
                session.category_cursor,
            );
            close_search(session);
        },
        KeyCode::Backspace => {
            if session.category_query_dirty {
                draft.set_category_query(shorten(draft.category_query.as_str()));
            } else {
                draft.set_category_query(no_text());
            }
            session.category_query_dirty = true;
            session.category_cursor = 0;
        },
        KeyCode::Char(c) => {
            if '1' <= c && c <= '9' && key.modifiers.is_empty() {
                let choice: usize = (c as u32 - '1' as u32) as usize;
                pick_choice(choice, session, draft, categories);
            } else if key.modifiers.is_text() {
                if session.category_query_dirty {
                    draft.set_category_query(lengthen(draft.category_query.as_str(), c));
                } else {
                    let start = no_text();
                    draft.set_category_query(lengthen(start.as_str(), c));
                }
                session.category_query_dirty = true;
                session.category_cursor = 0;
            }
        },
        _ => {},
    }
}

/// The filters that a key of the filter menu asks for.
pub open spec fn menu_filters(key: KeyEvent, row: TransactionRecord, f: FilterContent) -> Option<
    FilterContent,
> {
    if !key.modifiers.none_held() {
        None
    } else {
        match key.code {
            KeyCode::Char('0') => Some(no_filter()),
            KeyCode::Char('a') => Some(
                FilterContent { account_id: opt_text(row.account_id), ..f },
            ),
            KeyCode::Char('c') => Some(FilterContent { category: opt_text(row.category_id), ..f }),
            KeyCode::Char('e') => Some(
                FilterContent {
                    merchant: match row.merchant_name {
                        Some(m) => if trimmed(m@).len() > 0 {
                            Some(m@)
                        } else {
                            Some(row.raw_description@)
                        },
                        None => Some(row.raw_description@),
                    },
                    ..f
                },
            ),
            _ => None,
        }
    }
}

/// The filters that a key of the filter menu asks for.
pub fn review_tui_filters_from_menu_key(
    key: KeyEvent,
    row: &TransactionRecord,
    current: &ReviewFilters,
) -> (r: Option<ReviewFilters>)
    ensures
        match r {
            Some(f) => menu_filters(key, *row, filter_view(*current)) == Some(filter_view(f)),
            None => menu_filters(key, *row, filter_view(*current)) is None,
        },
{
    if !key.modifiers.is_empty() {
        return None;
    }
    let mut filters = current.copied();
    assert(filter_view(filters) =~= filter_view(*current));
    match key.code {
        KeyCode::Char('0') => {
            let none = ReviewFilters::none();
            assert(filter_view(none) =~= no_filter());
            Some(none)
        },
        KeyCode::Char('a') => {
            filters.account_id = opt_clone(&row.account_id);
            Some(filters)
        },
        KeyCode::Char('c') => {
            filters.category = opt_clone(&row.category_id);
            Some(filters)
        },
        KeyCode::Char('e') => {
            filters.merchant = match &row.merchant_name {
                Some(m) => if is_blank(m.as_str()) {
                    Some(row.raw_description.clone())
                } else {
                    Some(m.clone())
                },
                None => Some(row.raw_description.clone()),
            };
            Some(filters)
        },
        _ => None,
    }
}

/// What the host has to do after a key.
#[derive(Debug)]
pub enum ReviewEffect {
    /// Nothing.
    Stay,
    /// Leave the review.
    Exit,
    /// Save the draft.
    Save,
    /// Fetch the queue with these filters, then tell what came.
    Filter(ReviewFilters),
    /// Fetch the queue of this month, then tell what came.
    Month(String),
    /// Fetch the queue in the other mode, then tell what came.
    ToggleReviewed,
    /// Fetch the transactions like this one, then tell what came.
    FindSimilar,
}

/// The session once the month picker is open.
pub open spec fn picking_month(s: SessionContent) -> SessionContent {
    SessionContent {
        month_picker_cursor: match s.filters.month {
            Some(m) => match first_at(s.available_months, m, 0) {
                Some(i) => i,
                None => 0,
            },
            None => 0,
        },
        month_picker_open: true,
        filter_menu_open: false,
        status: "selecione o mês"@,
        ..s
    }
}

/// A key while the filter menu is open.
pub fn handle_review_tui_filter_menu_key(
    key: KeyEvent,
    session: &mut ReviewTuiSession,
    row: &TransactionRecord,
) -> (r: ReviewEffect)
    ensures
        if key.code == KeyCode::Esc {
            r == ReviewEffect::Stay && final(session)@ == (SessionContent {
                filter_menu_open: false,
                status: "menu de filtros fechado"@,
                ..old(session)@
            })
        } else if key.code == KeyCode::Char('m') && key.modifiers.none_held() {
            r == ReviewEffect::Stay && final(session)@ == picking_month(old(session)@)
        } else {
            final(session)@ == old(session)@ && match menu_filters(
                key,
                *row,
                old(session)@.filters,
            ) {
                Some(f) => match r {
                    ReviewEffect::Filter(g) => filter_view(g) == f,
                    _ => false,
                },
                None => r == ReviewEffect::Stay,
            }
        },
{
    if key.code == KeyCode::Esc {
        session.filter_menu_open = false;
        session.say("menu de filtros fechado");
        return ReviewEffect::Stay;
    }
    if key.code == KeyCode::Char('m') && key.modifiers.is_empty() {
        let cursor: usize = match &session.filters.month {
            Some(m) => match find_first(&session.available_months, m.as_str()) {
                Some(i) => i,
                None => 0,
            },
            None => 0,
        };
        session.month_picker_cursor = cursor;
        session.month_picker_open = true;
        session.filter_menu_open = false;
        session.say("selecione o mês");
        return ReviewEffect::Stay;
    }
    match review_tui_filters_from_menu_key(key, row, &session.filters) {
        Some(f) => ReviewEffect::Filter(f),
        None => ReviewEffect::Stay,
    }
}

/// A key while a month is picked.
pub fn handle_review_tui_month_picker_key(key: KeyEvent, session: &mut ReviewTuiSession) -> (r:
    ReviewEffect)
    ensures
        ({
            let s = old(session)@;
            let n = s.available_months.len();
            match key.code {
                KeyCode::Esc => r == ReviewEffect::Stay && final(session)@ == (SessionContent {
                    month_picker_open: false,
                    filter_menu_open: true,
                    status: "menu de filtros"@,
                    ..s
                }),
                KeyCode::Up => r == ReviewEffect::Stay && final(session)@ == (SessionContent {
                    month_picker_cursor: counted_back(s.month_picker_cursor, 1),
                    ..s
                }),
                KeyCode::Down => r == ReviewEffect::Stay && final(session)@ == (if n > 0 {
                    SessionContent {
                        month_picker_cursor: least(s.month_picker_cursor + 1, n - 1),
                        ..s
                    }
                } else {
                    s
                }),
                KeyCode::Enter => final(session)@ == s && if s.month_picker_cursor < n {
                    match r {
                        ReviewEffect::Month(m) => m@ == s.available_months[s.month_picker_cursor],
                        _ => false,
                    }
                } else {
                    r == ReviewEffect::Stay
                },
                _ => r == ReviewEffect::Stay && final(session)@ == s,
            }
        }),
{
    let n = session.available_months.len();
    assert(texts(session.available_months@).len() == n);
    match key.code {
        KeyCode::Esc => {
            session.month_picker_open = false;
            session.filter_menu_open = true;
            session.say("menu de filtros");
            ReviewEffect::Stay
        },
        KeyCode::Up => {
            session.month_picker_cursor = count_back(session.month_picker_cursor, 1);
            ReviewEffect::Stay
        },
        KeyCode::Down => {
            if n > 0 {
                session.month_picker_cursor = if session.month_picker_cursor < n - 1 {
                    session.month_picker_cursor + 1
                } else {
                    n - 1
                };
            }
            ReviewEffect::Stay
        },
        KeyCode::Enter => {
            if session.month_picker_cursor < n {
                ReviewEffect::Month(session.available_months[session.month_picker_cursor].clone())
            } else {
                ReviewEffect::Stay
            }
        },
        _ => ReviewEffect::Stay,
    }
}

} // verus!
