//! The draft of a review: its fields, the cursor in each, and how they are shown.

use crate::records::{or_empty, text_or_empty, TransactionRecord};
use crate::text::{
    chars, first_index, find_char, from_chars, is_white_space, lemma_first_index, same,
    slice_chars, texts, trim, trimmed, white_space,
};
use vstd::prelude::*;

verus! {

#[derive(Clone, Copy, Debug, PartialEq, Eq, Structural)]
pub enum ReviewTuiField {
    Merchant,
    Description,
    Purpose,
    Category,
}

pub open spec fn label_of(field: ReviewTuiField) -> Seq<char> {
    match field {
        ReviewTuiField::Merchant => "Estabelecimento"@,
        ReviewTuiField::Description => "Descrição humana"@,
        ReviewTuiField::Purpose => "Propósito"@,
        ReviewTuiField::Category => "Categoria"@,
    }
}

/// The field at a position.
pub open spec fn field_at(active: int) -> ReviewTuiField {
    if active == 0 {
        ReviewTuiField::Merchant
    } else if active == 1 {
        ReviewTuiField::Description
    } else if active == 2 {
        ReviewTuiField::Purpose
    } else {
        ReviewTuiField::Category
    }
}

/// The number of fields.
pub const FIELD_COUNT: usize = 4;

/// Where the category stands among the fields.
pub const CATEGORY_POSITION: usize = 3;

impl ReviewTuiField {
    /// The name of a field.
    pub fn label(self) -> (r: &'static str)
        ensures
            r@ == label_of(self),
    {
        match self {
            ReviewTuiField::Merchant => "Estabelecimento",
            ReviewTuiField::Description => "Descrição humana",
            ReviewTuiField::Purpose => "Propósito",
            ReviewTuiField::Category => "Categoria",
        }
    }

    /// The field at a position.
    pub fn at(position: usize) -> (r: ReviewTuiField)
        requires
            position < FIELD_COUNT,
        ensures
            r == field_at(position as int),
    {
        if position == 0 {
            ReviewTuiField::Merchant
        } else if position == 1 {
            ReviewTuiField::Description
        } else if position == 2 {
            ReviewTuiField::Purpose
        } else {
            ReviewTuiField::Category
        }
    }
}

/// What the user typed for a transaction, with a cursor in each field.
#[derive(Debug)]
pub struct ReviewTuiDraft {
    pub merchant_name: String,
    pub description: String,
    pub purpose: String,
    pub category_id: String,
    pub category_query: String,
    pub merchant_cursor: usize,
    pub description_cursor: usize,
    pub purpose_cursor: usize,
    pub category_cursor: usize,
    /// The position of the field that is edited.
    pub active: usize,
}

/// What a draft holds.
#[verifier::ext_equal]
pub struct DraftContent {
    pub merchant_name: Seq<char>,
    pub description: Seq<char>,
    pub purpose: Seq<char>,
    pub category_id: Seq<char>,
    pub category_query: Seq<char>,
    pub merchant_cursor: int,
    pub description_cursor: int,
    pub purpose_cursor: int,
    pub category_cursor: int,
    pub active: int,
}

impl View for ReviewTuiDraft {
    type V = DraftContent;

    open spec fn view(&self) -> DraftContent {
        DraftContent {
            merchant_name: self.merchant_name@,
            description: self.description@,
            purpose: self.purpose@,
            category_id: self.category_id@,
            category_query: self.category_query@,
            merchant_cursor: self.merchant_cursor as int,
            description_cursor: self.description_cursor as int,
            purpose_cursor: self.purpose_cursor as int,
            category_cursor: self.category_cursor as int,
            active: self.active as int,
        }
    }
}

impl DraftContent {
    pub open spec fn field(self) -> ReviewTuiField {
        field_at(self.active)
    }

    pub open spec fn value_of(self, field: ReviewTuiField) -> Seq<char> {
        match field {
            ReviewTuiField::Merchant => self.merchant_name,
            ReviewTuiField::Description => self.description,
            ReviewTuiField::Purpose => self.purpose,
            ReviewTuiField::Category => self.category_query,
        }
    }

    /// The text of the field that is edited.
    pub open spec fn value(self) -> Seq<char> {
        self.value_of(self.field())
    }

    /// The cursor of the field that is edited.
    pub open spec fn cursor(self) -> int {
        match self.field() {
            ReviewTuiField::Merchant => self.merchant_cursor,
            ReviewTuiField::Description => self.description_cursor,
            ReviewTuiField::Purpose => self.purpose_cursor,
            ReviewTuiField::Category => self.category_cursor,
        }
    }

    /// The draft with another cursor in the field that is edited.
    pub open spec fn with_cursor(self, cursor: int) -> DraftContent {
        match self.field() {
            ReviewTuiField::Merchant => DraftContent { merchant_cursor: cursor, ..self },
            ReviewTuiField::Description => DraftContent { description_cursor: cursor, ..self },
            ReviewTuiField::Purpose => DraftContent { purpose_cursor: cursor, ..self },
            ReviewTuiField::Category => DraftContent { category_cursor: cursor, ..self },
        }
    }

    /// The draft with another text in the field that is edited.
    pub open spec fn with_value(self, value: Seq<char>) -> DraftContent {
        match self.field() {
            ReviewTuiField::Merchant => DraftContent { merchant_name: value, ..self },
            ReviewTuiField::Description => DraftContent { description: value, ..self },
            ReviewTuiField::Purpose => DraftContent { purpose: value, ..self },
            ReviewTuiField::Category => DraftContent { category_query: value, ..self },
        }
    }

    pub open spec fn with_active(self, active: int) -> DraftContent {
        DraftContent { active, ..self }
    }

    /// The draft with a category chosen.
    pub open spec fn with_category(self, id: Seq<char>) -> DraftContent {
        DraftContent {
            category_id: id,
            category_query: id,
            category_cursor: id.len() as int,
            ..self
        }
    }

    /// The draft with a search for a category.
    pub open spec fn with_query(self, query: Seq<char>) -> DraftContent {
        DraftContent { category_query: query, category_cursor: query.len() as int, ..self }
    }
}

/// The smaller of two numbers.
pub open spec fn least(a: int, b: int) -> int {
    if a <= b {
        a
    } else {
        b
    }
}

/// The draft once a character was typed.
pub open spec fn typed(d: DraftContent, c: char) -> DraftContent {
    let at = least(d.cursor(), d.value().len() as int);
    d.with_value(d.value().insert(at, c)).with_cursor(at + 1)
}

/// The draft once the character before the cursor was deleted.
pub open spec fn erased(d: DraftContent) -> DraftContent {
    let at = least(d.cursor(), d.value().len() as int);
    if at == 0 {
        d.with_cursor(0)
    } else {
        d.with_value(d.value().remove(at - 1)).with_cursor(at - 1)
    }
}

/// The draft once the character at the cursor was deleted.
pub open spec fn deleted(d: DraftContent) -> DraftContent {
    let at = least(d.cursor(), d.value().len() as int);
    if at == d.value().len() {
        d.with_cursor(at)
    } else {
        d.with_value(d.value().remove(at)).with_cursor(at)
    }
}

/// The start of the run of white space that ends at a position.
pub open spec fn space_start(s: Seq<char>, at: int) -> int
    decreases at,
{
    if 0 < at <= s.len() && white_space(s[at - 1]) {
        space_start(s, at - 1)
    } else {
        at
    }
}

/// The start of the word that ends at a position.
pub open spec fn word_start(s: Seq<char>, at: int) -> int
    decreases at,
{
    if 0 < at <= s.len() && !white_space(s[at - 1]) {
        word_start(s, at - 1)
    } else {
        at
    }
}

/// The start of the word before a position.
pub open spec fn word_before(s: Seq<char>, at: int) -> int {
    word_start(s, space_start(s, least(at, s.len() as int)))
}

/// The end of the word at a position.
pub open spec fn word_end(s: Seq<char>, at: int) -> int
    decreases s.len() - at,
{
    if 0 <= at < s.len() && !white_space(s[at]) {
        word_end(s, at + 1)
    } else {
        at
    }
}

/// The end of the white space at a position.
pub open spec fn space_end(s: Seq<char>, at: int) -> int
    decreases s.len() - at,
{
    if 0 <= at < s.len() && white_space(s[at]) {
        space_end(s, at + 1)
    } else {
        at
    }
}

/// The start of the word after a position.
pub open spec fn word_after(s: Seq<char>, at: int) -> int {
    space_end(s, word_end(s, least(at, s.len() as int)))
}

/// The start of the word before the cursor.
pub fn previous_word_cursor(value: &str, cursor: usize) -> (r: usize)
    ensures
        r == word_before(value@, cursor as int),
        r <= value@.len(),
{
    let v = chars(value);
    let mut pos: usize = if cursor < v.len() {
        cursor
    } else {
        v.len()
    };
    let ghost start = pos;
    while pos > 0 && is_white_space(v[pos - 1])
        invariant
            pos <= v.len(),
            v@ == value@,
            space_start(v@, start as int) == space_start(v@, pos as int),
        decreases pos,
    {
        pos = pos - 1;
    }
    let ghost middle = pos;
    while pos > 0 && !is_white_space(v[pos - 1])
        invariant
            pos <= v.len(),
            v@ == value@,
            word_start(v@, middle as int) == word_start(v@, pos as int),
        decreases pos,
    {
        pos = pos - 1;
    }
    pos
}

/// The start of the word after the cursor.
pub fn next_word_cursor(value: &str, cursor: usize) -> (r: usize)
    ensures
        r == word_after(value@, cursor as int),
        r <= value@.len(),
{
    let v = chars(value);
    let mut pos: usize = if cursor < v.len() {
        cursor
    } else {
        v.len()
    };
    let ghost start = pos;
    while pos < v.len() && !is_white_space(v[pos])
        invariant
            pos <= v.len(),
            v@ == value@,
            word_end(v@, start as int) == word_end(v@, pos as int),
        decreases v.len() - pos,
    {
        pos = pos + 1;
    }
    let ghost middle = pos;
    while pos < v.len() && is_white_space(v[pos])
        invariant
            pos <= v.len(),
            v@ == value@,
            space_end(v@, middle as int) == space_end(v@, pos as int),
        decreases v.len() - pos,
    {
        pos = pos + 1;
    }
    pos
}

/// What a text changed to: nothing where it says the same.
pub open spec fn change_of(new: Seq<char>, old: Option<Seq<char>>) -> Option<Seq<char>> {
    let t = trimmed(new);
    match old {
        Some(o) => if trimmed(o) == t {
            None
        } else {
            Some(t)
        },
        None => if t.len() == 0 {
            None
        } else {
            Some(t)
        },
    }
}

/// What a text changed to.
pub fn changed_text(new_value: &str, old_value: Option<&str>) -> (r: Option<String>)
    ensures
        match r {
            Some(t) => change_of(
                new_value@,
                match old_value {
                    Some(o) => Some(o@),
                    None => None,
                },
            ) == Some(t@),
            None => change_of(
                new_value@,
                match old_value {
                    Some(o) => Some(o@),
                    None => None,
                },
            ) is None,
        },
{
    let new = trim(new_value);
    match old_value {
        Some(o) => {
            let old = trim(o);
            if same(old.as_str(), new.as_str()) {
                None
            } else {
                Some(new)
            }
        },
        None => if new.as_str().is_empty() {
            None
        } else {
            Some(new)
        },
    }
}

fn change(new_value: &String, old_value: &Option<String>) -> (r: Option<String>)
    ensures
        crate::records::opt_text(r) == change_of(
            new_value@,
            crate::records::opt_text(*old_value),
        ),
{
    match old_value {
        Some(o) => changed_text(new_value.as_str(), Some(o.as_str())),
        None => changed_text(new_value.as_str(), None),
    }
}

/// What a review changes.
#[derive(Debug)]
pub struct HumanReviewPatch {
    pub description: Option<String>,
    pub merchant_name: Option<String>,
    pub purpose: Option<String>,
    pub category_id: Option<String>,
}

/// What a review changes, as texts.
pub struct PatchContent {
    pub description: Option<Seq<char>>,
    pub merchant_name: Option<Seq<char>>,
    pub purpose: Option<Seq<char>>,
    pub category_id: Option<Seq<char>>,
}

impl View for HumanReviewPatch {
    type V = PatchContent;

    open spec fn view(&self) -> PatchContent {
        PatchContent {
            description: crate::records::opt_text(self.description),
            merchant_name: crate::records::opt_text(self.merchant_name),
            purpose: crate::records::opt_text(self.purpose),
            category_id: crate::records::opt_text(self.category_id),
        }
    }
}

impl PatchContent {
    pub open spec fn changes(self) -> bool {
        self.description is Some || self.merchant_name is Some || self.purpose is Some
            || self.category_id is Some
    }
}

impl HumanReviewPatch {
    /// Whether there is a change.
    pub fn has_changes(&self) -> (r: bool)
        ensures
            r == self@.changes(),
    {
        self.description.is_some() || self.merchant_name.is_some() || self.purpose.is_some()
            || self.category_id.is_some()
    }
}

/// What a draft changes of a row. The category is as it was typed.
pub open spec fn patch_of(d: DraftContent, row: TransactionRecord) -> PatchContent {
    PatchContent {
        description: change_of(d.description, crate::records::opt_text(row.description)),
        merchant_name: change_of(d.merchant_name, crate::records::opt_text(row.merchant_name)),
        purpose: change_of(d.purpose, crate::records::opt_text(row.purpose)),
        category_id: change_of(d.category_id, crate::records::opt_text(row.category_id)),
    }
}

/// The draft of a row that nobody changed, with the category to edit.
pub open spec fn fresh_draft(row: TransactionRecord) -> DraftContent {
    let merchant = text_or_empty(row.merchant_name);
    let description = text_or_empty(row.description);
    let purpose = text_or_empty(row.purpose);
    let category = text_or_empty(row.category_id);
    DraftContent {
        merchant_name: merchant,
        description,
        purpose,
        category_id: category,
        category_query: category,
        merchant_cursor: merchant.len() as int,
        description_cursor: description.len() as int,
        purpose_cursor: purpose.len() as int,
        category_cursor: category.len() as int,
        active: CATEGORY_POSITION as int,
    }
}

/// The draft with the edited field as it is in the row.
pub open spec fn restored(d: DraftContent, row: TransactionRecord) -> DraftContent {
    match d.field() {
        ReviewTuiField::Merchant => d.with_value(text_or_empty(row.merchant_name)).with_cursor(
            text_or_empty(row.merchant_name).len() as int,
        ),
        ReviewTuiField::Description => d.with_value(text_or_empty(row.description)).with_cursor(
            text_or_empty(row.description).len() as int,
        ),
        ReviewTuiField::Purpose => d.with_value(text_or_empty(row.purpose)).with_cursor(
            text_or_empty(row.purpose).len() as int,
        ),
        ReviewTuiField::Category => d.with_category(text_or_empty(row.category_id)),
    }
}

/// The number of characters.
pub fn count_chars(s: &str) -> (r: usize)
    ensures
        r == s@.len(),
{
    chars(s).len()
}

impl ReviewTuiDraft {
    /// Whether the edited field is one of the fields.
    pub open spec fn sound(self) -> bool {
        self.active < FIELD_COUNT
    }

    /// The draft of a row.
    pub fn from_row(row: &TransactionRecord) -> (r: ReviewTuiDraft)
        ensures
            r.sound(),
            r@ == fresh_draft(*row),
    {
        let merchant_name = or_empty(&row.merchant_name);
        let description = or_empty(&row.description);
        let purpose = or_empty(&row.purpose);
        let category_id = or_empty(&row.category_id);
        ReviewTuiDraft {
            merchant_cursor: count_chars(merchant_name.as_str()),
            description_cursor: count_chars(description.as_str()),
            purpose_cursor: count_chars(purpose.as_str()),
            category_cursor: count_chars(category_id.as_str()),
            merchant_name,
            description,
            purpose,
            category_query: category_id.clone(),
            category_id,
            active: CATEGORY_POSITION,
        }
    }

    /// The field that is edited.
    pub fn field(&self) -> (r: ReviewTuiField)
        requires
            self.sound(),
        ensures
            r == self@.field(),
    {
        ReviewTuiField::at(self.active)
    }

    /// The text of the field that is edited.
    pub fn active_value(&self) -> (r: &str)
        requires
            self.sound(),
        ensures
            r@ == self@.value(),
    {
        tui_field_value(self.field(), self)
    }

    /// The cursor of the field that is edited.
    pub fn active_cursor(&self) -> (r: usize)
        requires
            self.sound(),
        ensures
            r == self@.cursor(),
    {
        match self.field() {
            ReviewTuiField::Merchant => self.merchant_cursor,
            ReviewTuiField::Description => self.description_cursor,
            ReviewTuiField::Purpose => self.purpose_cursor,
            ReviewTuiField::Category => self.category_cursor,
        }
    }

    fn set_cursor(&mut self, cursor: usize)
        requires
            old(self).sound(),
        ensures
            final(self).sound(),
            final(self)@ == old(self)@.with_cursor(cursor as int),
    {
        match self.field() {
            ReviewTuiField::Merchant => {
                self.merchant_cursor = cursor;
            },
            ReviewTuiField::Description => {
                self.description_cursor = cursor;
            },
            ReviewTuiField::Purpose => {
                self.purpose_cursor = cursor;
            },
            ReviewTuiField::Category => {
                self.category_cursor = cursor;
            },
        }
    }

    fn set_value(&mut self, value: String)
        requires
            old(self).sound(),
        ensures
            final(self).sound(),
            final(self)@ == old(self)@.with_value(value@),
    {
        match self.field() {
            ReviewTuiField::Merchant => {
                self.merchant_name = value;
            },
            ReviewTuiField::Description => {
                self.description = value;
            },
            ReviewTuiField::Purpose => {
                self.purpose = value;
            },
            ReviewTuiField::Category => {
                self.category_query = value;
            },
        }
    }

    /// Moves the cursor one character back.
    pub fn move_cursor_left(&mut self)
        requires
            old(self).sound(),
        ensures
            final(self).sound(),
            final(self)@ == old(self)@.with_cursor(
                if old(self)@.cursor() > 0 {
                    old(self)@.cursor() - 1
                } else {
                    0
                },
            ),
    {
        let cursor = self.active_cursor();
        self.set_cursor(
            if cursor > 0 {
                cursor - 1
            } else {
                0
            },
        );
    }

    /// Moves the cursor one character on, up to the end.
    pub fn move_cursor_right(&mut self)
        requires
            old(self).sound(),
        ensures
            final(self).sound(),
            final(self)@ == old(self)@.with_cursor(
                least(old(self)@.cursor() + 1, old(self)@.value().len() as int),
            ),
    {
        let n = count_chars(self.active_value());
        let cursor = self.active_cursor();
        self.set_cursor(
            if cursor < n {
                cursor + 1
            } else {
                n
            },
        );
    }

    /// Moves the cursor to the start.
    pub fn move_cursor_home(&mut self)
        requires
            old(self).sound(),
        ensures
            final(self).sound(),
            final(self)@ == old(self)@.with_cursor(0),
    {
        self.set_cursor(0);
    }

    /// Moves the cursor to the end.
    pub fn move_cursor_end(&mut self)
        requires
            old(self).sound(),
        ensures
            final(self).sound(),
            final(self)@ == old(self)@.with_cursor(old(self)@.value().len() as int),
    {
        let n = count_chars(self.active_value());
        self.set_cursor(n);
    }

    /// Moves the cursor one word back.
    pub fn move_cursor_word_left(&mut self)
        requires
            old(self).sound(),
        ensures
            final(self).sound(),
            final(self)@ == old(self)@.with_cursor(
                word_before(old(self)@.value(), old(self)@.cursor()),
            ),
    {
        let cursor = previous_word_cursor(self.active_value(), self.active_cursor());
        self.set_cursor(cursor);
    }

    /// Moves the cursor one word on.
    pub fn move_cursor_word_right(&mut self)
        requires
            old(self).sound(),
        ensures
            final(self).sound(),
            final(self)@ == old(self)@.with_cursor(
                word_after(old(self)@.value(), old(self)@.cursor()),
            ),
    {
        let cursor = next_word_cursor(self.active_value(), self.active_cursor());
        self.set_cursor(cursor);
    }

    /// Chooses a category.
    pub fn set_category_id(&mut self, category_id: String)
        ensures
            final(self).active == old(self).active,
            final(self)@ == old(self)@.with_category(category_id@),
    {
        self.category_cursor = count_chars(category_id.as_str());
        self.category_query = category_id.clone();
        self.category_id = category_id;
    }

    /// Searches for a category.
    pub fn set_category_query(&mut self, query: String)
        ensures
            final(self).active == old(self).active,
            final(self)@ == old(self)@.with_query(query@),
    {
        self.category_cursor = count_chars(query.as_str());
        self.category_query = query;
    }

    /// Edits the category.
    pub fn focus_category(&mut self)
        ensures
            final(self).sound(),
            final(self)@ == old(self)@.with_active(CATEGORY_POSITION as int),
    {
        self.active = CATEGORY_POSITION;
    }

    /// Edits another field.
    pub fn set_active(&mut self, active: usize)
        requires
            active < FIELD_COUNT,
        ensures
            final(self).sound(),
            final(self)@ == old(self)@.with_active(active as int),
    {
        self.active = active;
    }

    /// Whether the draft changes the row.
    pub fn has_changes_from(&self, row: &TransactionRecord) -> (r: bool)
        ensures
            r == patch_of(self@, *row).changes(),
    {
        self.patch_against(row).has_changes()
    }

    /// Takes the edited field from the row.
    pub fn reset_active_field_from_row(&mut self, row: &TransactionRecord)
        requires
            old(self).sound(),
        ensures
            final(self).sound(),
            final(self)@ == restored(old(self)@, *row),
    {
        match self.field() {
            ReviewTuiField::Merchant => {
                self.merchant_name = or_empty(&row.merchant_name);
                self.merchant_cursor = count_chars(self.merchant_name.as_str());
            },
            ReviewTuiField::Description => {
                self.description = or_empty(&row.description);
                self.description_cursor = count_chars(self.description.as_str());
            },
            ReviewTuiField::Purpose => {
                self.purpose = or_empty(&row.purpose);
                self.purpose_cursor = count_chars(self.purpose.as_str());
            },
            ReviewTuiField::Category => {
                self.set_category_id(or_empty(&row.category_id));
            },
        }
    }

    fn cursor_in_text(&self) -> (r: usize)
        requires
            self.sound(),
        ensures
            r == least(self@.cursor(), self@.value().len() as int),
    {
        let n = count_chars(self.active_value());
        let cursor = self.active_cursor();
        if cursor <= n {
            cursor
        } else {
            n
        }
    }

    /// Types a character.
    pub fn insert_char(&mut self, ch: char)
        requires
            old(self).sound(),
        ensures
            final(self).sound(),
            final(self)@ == typed(old(self)@, ch),
    {
        let at = self.cursor_in_text();
        let mut v = chars(self.active_value());
        v.insert(at, ch);
        assert(at + 1 <= v.len());
        self.set_value(from_chars(&v));
        self.set_cursor(at + 1);
    }

    /// Deletes the character before the cursor.
    pub fn backspace_char(&mut self)
        requires
            old(self).sound(),
        ensures
            final(self).sound(),
            final(self)@ == erased(old(self)@),
    {
        let at = self.cursor_in_text();
        if at == 0 {
            self.set_cursor(0);
            return;
        }
        let mut v = chars(self.active_value());
        v.remove(at - 1);
        self.set_value(from_chars(&v));
        self.set_cursor(at - 1);
    }

    /// Deletes the character at the cursor.
    pub fn delete_char(&mut self)
        requires
            old(self).sound(),
        ensures
            final(self).sound(),
            final(self)@ == deleted(old(self)@),
    {
        let at = self.cursor_in_text();
        let mut v = chars(self.active_value());
        if at < v.len() {
            v.remove(at);
            self.set_value(from_chars(&v));
        }
        self.set_cursor(at);
    }

    /// What the draft changes of a row. The category is as it was typed.
    pub fn patch_against(&self, row: &TransactionRecord) -> (r: HumanReviewPatch)
        ensures
            r@ == patch_of(self@, *row),
    {
        HumanReviewPatch {
            description: change(&self.description, &row.description),
            merchant_name: change(&self.merchant_name, &row.merchant_name),
            purpose: change(&self.purpose, &row.purpose),
            category_id: change(&self.category_id, &row.category_id),
        }
    }
}

/// The text of a field.
pub fn tui_field_value(field: ReviewTuiField, draft: &ReviewTuiDraft) -> (r: &str)
    ensures
        r@ == draft@.value_of(field),
{
    match field {
        ReviewTuiField::Merchant => draft.merchant_name.as_str(),
        ReviewTuiField::Description => draft.description.as_str(),
        ReviewTuiField::Purpose => draft.purpose.as_str(),
        ReviewTuiField::Category => draft.category_query.as_str(),
    }
}

/// Typing a character and deleting it leaves the draft as it was, where the cursor was
/// in the text.
pub proof fn law_typed_then_erased(d: DraftContent, c: char)
    requires
        0 <= d.cursor() <= d.value().len(),
    ensures
        erased(typed(d, c)) == d,
{
    let t = typed(d, c);
    let at = d.cursor();
    assert(t.value() == d.value().insert(at, c));
    assert(t.value().remove(at) =~= d.value());
    assert(erased(t) =~= d);
}

/// Editing keeps the cursor in the text.
pub proof fn law_cursor_stays_in_text(d: DraftContent, c: char)
    requires
        0 <= d.cursor(),
    ensures
        0 <= typed(d, c).cursor() <= typed(d, c).value().len(),
        0 <= erased(d).cursor() <= erased(d).value().len(),
        0 <= deleted(d).cursor() <= deleted(d).value().len(),
{
}

/// A fresh draft changes nothing.
pub proof fn law_fresh_draft_changes_nothing(row: TransactionRecord)
    ensures
        !patch_of(fresh_draft(row), row).changes(),
{
    assert(trimmed(Seq::<char>::empty()) =~= Seq::<char>::empty());
}

// ---------------------------------------------------------------------------
// How an edited text is shown

/// The part of a text that is shown on one line, and the column of the cursor in it.
pub open spec fn line_view(s: Seq<char>, cursor: int, width: int) -> (Seq<char>, int) {
    if width == 0 || s.len() == 0 {
        (Seq::empty(), 0)
    } else {
        let at = least(cursor, s.len() as int);
        let start = if at >= width {
            at - (width - 1)
        } else {
            0
        };
        (s.subrange(start, least(start + width, s.len() as int)), at - start)
    }
}

/// The part of a text that is shown on one line, and the column of the cursor in it.
pub fn editable_tui_view(value: &str, cursor: usize, width: usize) -> (r: (String, usize))
    ensures
        r.0@ == line_view(value@, cursor as int, width as int).0,
        r.1 == line_view(value@, cursor as int, width as int).1,
{
    let v = chars(value);
    if width == 0 || v.len() == 0 {
        let none: Vec<char> = Vec::new();
        return (from_chars(&none), 0);
    }
    let at: usize = if cursor < v.len() {
        cursor
    } else {
        v.len()
    };
    let start: usize = if at >= width {
        at - (width - 1)
    } else {
        0
    };
    let end: usize = if width < v.len() - start {
        start + width
    } else {
        v.len()
    };
    (from_chars(&slice_chars(&v, start, end)), at - start)
}

/// The column of the cursor is on the line.
pub proof fn law_cursor_on_line(s: Seq<char>, cursor: int, width: int)
    requires
        width > 0,
        cursor >= 0,
    ensures
        0 <= line_view(s, cursor, width).1 < width,
        line_view(s, cursor, width).0.len() <= width,
{
}

/// The last position of white space before `n`; -1 where there is none.
pub open spec fn last_space(s: Seq<char>, n: int) -> int
    decreases n,
{
    if n <= 0 {
        -1
    } else if white_space(s[n - 1]) {
        n - 1
    } else {
        last_space(s, n - 1)
    }
}

/// The first line of a wrapped text, its length, and how much of the text it takes:
/// up to a line break, or to the last white space that fits, or to the width.
pub open spec fn first_line(s: Seq<char>, width: int) -> (int, int) {
    let n = first_index(s, '\n');
    if n <= width {
        (n, n + 1)
    } else {
        let k = last_space(s, width);
        if k >= 0 {
            (k, k + 1)
        } else {
            (width, width)
        }
    }
}

proof fn lemma_last_space(s: Seq<char>, n: int)
    requires
        n <= s.len(),
    ensures
        -1 <= last_space(s, n) < n || (n <= 0 && last_space(s, n) == -1),
    decreases n,
{
    if n > 0 {
        lemma_last_space(s, n - 1);
    }
}

proof fn lemma_first_line(s: Seq<char>, width: int)
    requires
        width > 0,
    ensures
        0 <= first_line(s, width).0 <= width,
        first_line(s, width).0 <= s.len(),
        first_line(s, width).1 > 0,
        first_line(s, width).0 <= first_line(s, width).1 <= first_line(s, width).0 + 1,
{
    lemma_first_index(s, '\n');
    if first_index(s, '\n') > width {
        lemma_last_space(s, width);
    }
}

/// A text wrapped to a width.
pub open spec fn wrapped(s: Seq<char>, width: int) -> Seq<Seq<char>>
    decreases s.len(),
{
    if width <= 0 {
        seq![Seq::empty()]
    } else {
        let (n, used) = first_line(s, width);
        if 0 < used <= s.len() {
            seq![s.take(n)] + wrapped(s.skip(used), width)
        } else {
            seq![s]
        }
    }
}

/// Where a position of the text stands once it is wrapped: line and column.
pub open spec fn wrapped_at(s: Seq<char>, at: int, width: int) -> (int, int)
    decreases s.len(),
{
    if width <= 0 {
        (0, 0)
    } else {
        let (n, used) = first_line(s, width);
        if 0 < used <= s.len() && at > n {
            let below = wrapped_at(s.skip(used), at - used, width);
            (below.0 + 1, below.1)
        } else {
            (0, at)
        }
    }
}

fn find_last_space(v: &Vec<char>, from: usize, n: usize) -> (r: Option<usize>)
    requires
        from + n <= v.len(),
    ensures
        match r {
            Some(k) => k < n && last_space(v@.skip(from as int), n as int) == k,
            None => last_space(v@.skip(from as int), n as int) == -1,
        },
{
    let mut k: usize = n;
    while k > 0
        invariant
            k <= n,
            from + n <= v.len(),
            last_space(v@.skip(from as int), n as int) == last_space(
                v@.skip(from as int),
                k as int,
            ),
        decreases k,
    {
        assert(v@.skip(from as int)[k - 1] == v@[from + k - 1]);
        if is_white_space(v[from + (k - 1)]) {
            return Some(k - 1);
        }
        k = k - 1;
    }
    None
}

/// The length of the next line, how much of the text it takes, and whether more
/// follows.
fn next_line(v: &Vec<char>, from: usize, width: usize) -> (r: (usize, usize, bool))
    requires
        from <= v@.len(),
        width > 0,
    ensures
        ({
            let s = v@.skip(from as int);
            let (n, used) = first_line(s, width as int);
            &&& r.0 == n
            &&& r.2 == (used <= s.len())
            &&& r.2 ==> r.1 == used
            &&& r.0 <= s.len()
        }),
{
    let rest = slice_chars(v, from, v.len());
    let ghost s = v@.skip(from as int);
    assert(rest@ =~= s);
    proof {
        lemma_first_line(s, width as int);
        lemma_first_index(s, '\n');
    }
    let n = find_char(&rest, '\n');
    if n <= width {
        if n < rest.len() {
            (n, n + 1, true)
        } else {
            (n, n, false)
        }
    } else {
        match find_last_space(v, from, width) {
            Some(k) => (k, k + 1, true),
            None => (width, width, true),
        }
    }
}

/// Wraps a text to a width at line breaks, at white space where there is some, else
/// in the word. Gives the line and the column of the cursor too.
pub fn wrap_editable_text(value: &str, cursor: usize, width: usize) -> (r: (
    Vec<String>,
    (usize, usize),
))
    ensures
        texts(r.0@) == wrapped(value@, width as int),
        ({
            let at = wrapped_at(value@, least(cursor as int, value@.len() as int), width as int);
            r.1.0 == at.0 && r.1.1 == at.1
        }),
{
    let mut lines: Vec<String> = Vec::new();
    let v = chars(value);
    if width == 0 {
        let none: Vec<char> = Vec::new();
        lines.push(from_chars(&none));
        assert(texts(lines@) =~= seq![Seq::<char>::empty()]);
        return (lines, (0, 0));
    }
    let at: usize = if cursor < v.len() {
        cursor
    } else {
        v.len()
    };
    let mut from: usize = 0;
    let mut place: Option<(usize, usize)> = None;
    let ghost want = wrapped_at(v@, at as int, width as int);
    let ghost all = wrapped(v@, width as int);
    assert(v@.skip(0) =~= v@);
    assert(texts(lines@) + wrapped(v@, width as int) =~= all);
    loop
        invariant_except_break
            from >= lines@.len(),
            texts(lines@) + wrapped(v@.skip(from as int), width as int) == all,
            match place {
                Some((row, col)) => row == want.0 && col == want.1,
                None => from <= at && want == ({
                    let here = wrapped_at(v@.skip(from as int), at - from, width as int);
                    (here.0 + lines@.len(), here.1)
                }),
            },
        invariant
            width > 0,
            from <= v.len(),
            at <= v.len(),
            v@ == value@,
            all == wrapped(value@, width as int),
            want == wrapped_at(value@, at as int, width as int),
        ensures
            texts(lines@) == all,
            match place {
                Some((row, col)) => row == want.0 && col == want.1,
                None => false,
            },
        decreases v.len() - from,
    {
        let ghost s = v@.skip(from as int);
        let (n, used, more) = next_line(&v, from, width);
        proof {
            lemma_first_line(s, width as int);
        }
        if place.is_none() && (!more || at - from <= n) {
            place = Some((lines.len(), at - from));
        }
        let line = slice_chars(&v, from, from + n);
        assert(line@ =~= s.take(n as int));
        let ghost before = texts(lines@);
        lines.push(from_chars(&line));
        assert(texts(lines@) =~= before.push(s.take(n as int)));
        if !more {
            assert(s.take(n as int) =~= s);
            assert(texts(lines@) =~= all);
            break;
        }
        proof {
            assert(s.skip(used as int) =~= v@.skip(from + used));
            assert(before + (seq![s.take(n as int)] + wrapped(s.skip(used as int), width as int))
                =~= texts(lines@) + wrapped(s.skip(used as int), width as int));
        }
        from = from + used;
    }
    match place {
        Some(p) => (lines, p),
        None => (lines, (0, 0)),
    }
}

/// No wrapped line is wider than the width.
pub proof fn law_wrapped_lines_fit(s: Seq<char>, width: int, i: int)
    requires
        width > 0,
        0 <= i < wrapped(s, width).len(),
    ensures
        wrapped(s, width)[i].len() <= width,
    decreases s.len(),
{
    lemma_first_line(s, width);
    lemma_first_index(s, '\n');
    let (n, used) = first_line(s, width);
    if 0 < used <= s.len() {
        if i > 0 {
            law_wrapped_lines_fit(s.skip(used), width, i - 1);
        }
    }
}

/// The cursor stands on a line of the wrapped text, within it.
pub proof fn law_cursor_in_wrapped_text(s: Seq<char>, at: int, width: int)
    requires
        width > 0,
        0 <= at <= s.len(),
    ensures
        0 <= wrapped_at(s, at, width).0 < wrapped(s, width).len(),
        0 <= wrapped_at(s, at, width).1 <= wrapped(s, width)[wrapped_at(s, at, width).0].len(),
    decreases s.len(),
{
    lemma_first_line(s, width);
    lemma_first_index(s, '\n');
    let (n, used) = first_line(s, width);
    if 0 < used <= s.len() && at > n {
        law_cursor_in_wrapped_text(s.skip(used), at - used, width);
    }
}

} // verus!
