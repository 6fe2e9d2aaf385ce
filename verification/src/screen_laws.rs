//! What the keys of the screens, the saves and the audit trail promise.

use crate::amount::abs;
use crate::audit::{sync_trail, RebindEvent};
use crate::cash_view::{
    change_style, direct_tab, key_delta, moved_index, state_after, tab_after, CashflowTuiState,
    CashflowTuiTab,
};
use crate::draft::{DraftContent, FIELD_COUNT};
use crate::keys::{KeyCode, KeyEvent};
use crate::maintenance::{reclassified, reclassifies, RuleOutcome};
use crate::order::lemma_where_at;
use crate::records::{opt_text, AccountRecord, TransactionRecord};
use crate::review_flow::{event_step, focus_step, month_picker_step, EffectContent};
use crate::review_save::{save_ended, saving, SaveOutcome};
use crate::review_session::{
    details_step, menu_filters, no_filter, picking_month, row_move, search_step, FilterContent,
    SessionContent,
};
use crate::screen::colored;
use vstd::prelude::*;

verus! {

// ---------------------------------------------------------------------------
// The cash flow screen

/// The tabs follow each other as their numbers do, from the last round to the first.
pub proof fn law_tabs_in_order(tab: CashflowTuiTab)
    ensures
        direct_tab(KeyCode::Char('1')) == Some(tab) ==> direct_tab(KeyCode::Char('2')) == Some(
            tab_after(tab),
        ),
        direct_tab(KeyCode::Char('2')) == Some(tab) ==> direct_tab(KeyCode::Char('3')) == Some(
            tab_after(tab),
        ),
        direct_tab(KeyCode::Char('3')) == Some(tab) ==> direct_tab(KeyCode::Char('1')) == Some(
            tab_after(tab),
        ),
        direct_tab(KeyCode::Char('1')) == Some(tab) || direct_tab(KeyCode::Char('2')) == Some(tab)
            || direct_tab(KeyCode::Char('3')) == Some(tab),
        direct_tab(KeyCode::Char('1')) == Some(CashflowTuiTab::Income),
{
}

/// A selection moves by what the key asks for while it stays in the list, and to the end
/// of the list where it would leave it.
pub proof fn law_selection_moves(index: int, len: int, delta: int)
    requires
        0 <= index < len,
    ensures
        0 <= index + delta < len ==> moved_index(index, len, delta) == index + delta,
        index + delta < 0 ==> moved_index(index, len, delta) == 0,
        index + delta >= len ==> moved_index(index, len, delta) == len - 1,
{
}

/// The arrows move by one and the page keys by eight, in opposite directions.
pub proof fn law_keys_move(code: KeyCode)
    ensures
        key_delta(KeyCode::Down) == Some(1int),
        key_delta(KeyCode::Up) == Some(-1int),
        key_delta(KeyCode::PageDown) == Some(8int),
        key_delta(KeyCode::PageUp) == Some(-8int),
        key_delta(code) is Some <==> code == KeyCode::Down || code == KeyCode::Up || code
            == KeyCode::PageDown || code == KeyCode::PageUp,
{
}

/// A key leaves the screen only where it is Escape or `q`, and then changes nothing; a key
/// that moves changes only the selection of the tab that is shown; a key that changes the
/// tab changes nothing else.
pub proof fn law_screen_after_key(
    code: KeyCode,
    state: CashflowTuiState,
    incomes: int,
    expenses: int,
    bills: int,
)
    ensures
        ({
            let (after, left) = state_after(code, state, incomes, expenses, bills);
            &&& left <==> code == KeyCode::Esc || code == KeyCode::Char('q')
            &&& left ==> after == state
            &&& after.tab != state.tab ==> after.income_index == state.income_index
                && after.expense_index == state.expense_index && after.card_scroll
                == state.card_scroll
            &&& after.income_index != state.income_index ==> state.tab == CashflowTuiTab::Income
            &&& after.expense_index != state.expense_index ==> state.tab
                == CashflowTuiTab::Expenses
            &&& after.card_scroll != state.card_scroll ==> state.tab == CashflowTuiTab::Cards
        }),
{
}

/// The arrow down goes on by one in the list that is shown, and the arrow up goes back.
pub proof fn law_arrows_undo_each_other(
    state: CashflowTuiState,
    incomes: int,
    expenses: int,
    bills: int,
)
    requires
        incomes <= usize::MAX && expenses <= usize::MAX && bills <= usize::MAX,
        state.tab == CashflowTuiTab::Income ==> state.income_index + 1 < incomes,
        state.tab == CashflowTuiTab::Expenses ==> state.expense_index + 1 < expenses,
        state.tab == CashflowTuiTab::Cards ==> state.card_scroll + 1 < bills,
    ensures
        ({
            let (down, a) = state_after(KeyCode::Down, state, incomes, expenses, bills);
            let (up, b) = state_after(KeyCode::Up, down, incomes, expenses, bills);
            &&& up == state
            &&& state.tab == CashflowTuiTab::Income ==> down.income_index == state.income_index + 1
            &&& state.tab == CashflowTuiTab::Expenses ==> down.expense_index == state.expense_index
                + 1
            &&& state.tab == CashflowTuiTab::Cards ==> down.card_scroll == state.card_scroll + 1
        }),
{
}

/// A change is shown in red exactly where more was moved than before, in green where less,
/// and otherwise in neither.
pub proof fn law_change_colors(current: crate::amount::Amount, previous: crate::amount::Amount)
    requires
        current.in_range(),
        previous.in_range(),
        previous.scaled() != 0,
    ensures
        abs(current.scaled()) > abs(previous.scaled()) ==> change_style(current, previous)
            == colored(crate::screen::Color::LightRed),
        abs(current.scaled()) < abs(previous.scaled()) ==> change_style(current, previous)
            == colored(crate::screen::Color::LightGreen),
        abs(current.scaled()) == abs(previous.scaled()) ==> change_style(current, previous)
            == colored(crate::screen::Color::DarkGray),
{
    crate::places::lemma_magnitude(current);
    crate::places::lemma_magnitude(previous);
}

// ---------------------------------------------------------------------------
// The review screen

/// Control or command with `x` leaves the review from wherever it is, and changes nothing.
pub proof fn law_exit_works_everywhere(
    key: KeyEvent,
    s: SessionContent,
    d: DraftContent,
    rows: Seq<TransactionRecord>,
    categories: Seq<String>,
)
    requires
        key.code == KeyCode::Char('x'),
        key.modifiers.control || key.modifiers.command,
    ensures
        ({
            let o = event_step(key, s, d, rows, categories);
            o.effect == EffectContent::Exit && o.session == s && o.draft == d
        }),
{
}

/// In the queue the arrows and the page keys move in opposite directions, by one.
pub proof fn law_queue_arrows(up: KeyEvent, down: KeyEvent)
    requires
        up.code == KeyCode::Up || up.code == KeyCode::PageUp,
        down.code == KeyCode::Down || down.code == KeyCode::PageDown,
    ensures
        row_move(up, true) == -1,
        row_move(down, true) == 1,
{
}

/// The tabulator goes from the queue to the first field, on through the fields and back to
/// the queue; with shift it goes the same way back.
pub proof fn law_backtab_undoes_tab(
    tab: KeyEvent,
    back: KeyEvent,
    s: SessionContent,
    d: DraftContent,
)
    requires
        tab.code == KeyCode::Tab,
        back.code == KeyCode::BackTab,
        0 <= d.active < FIELD_COUNT,
    ensures
        ({
            let o = focus_step(tab, s, d)->0;
            let p = focus_step(back, o.session, o.draft)->0;
            &&& p.session.focus_queue == s.focus_queue
            &&& !s.focus_queue ==> p.draft.active == d.active
            &&& s.focus_queue ==> !o.session.focus_queue && o.draft.active == 0
            &&& !s.focus_queue && d.active + 1 < FIELD_COUNT ==> !o.session.focus_queue
                && o.draft.active == d.active + 1
            &&& !s.focus_queue && d.active + 1 == FIELD_COUNT ==> o.session.focus_queue
            &&& p.draft.value_of(crate::draft::ReviewTuiField::Merchant) == d.merchant_name
        }),
{
}

/// A character typed in the search of the details stands at the end of the query, and the
/// backspace takes it away again.
pub proof fn law_details_query(typed: KeyEvent, erase: KeyEvent, s: SessionContent, c: char)
    requires
        typed.code == KeyCode::Char(c),
        typed.modifiers.types_text(),
        erase.code == KeyCode::Backspace,
    ensures
        details_step(typed, s).details_query == s.details_query.push(c),
        details_step(erase, details_step(typed, s)).details_query == s.details_query,
        details_step(typed, s).details_open == s.details_open,
{
    assert(s.details_query.push(c).drop_last() =~= s.details_query);
}

/// In the search of a category a character that is typed first begins a new query and then
/// stands behind it; the backspace takes the last one away.
pub proof fn law_search_query(
    typed: KeyEvent,
    erase: KeyEvent,
    s: SessionContent,
    d: DraftContent,
    categories: Seq<String>,
    c: char,
)
    requires
        typed.code == KeyCode::Char(c),
        !('1' <= c <= '9'),
        typed.modifiers.types_text(),
        erase.code == KeyCode::Backspace,
    ensures
        ({
            let (t, e) = search_step(typed, s, d, categories);
            let (u, f) = search_step(erase, t, e, categories);
            &&& s.category_query_dirty ==> e.category_query == d.category_query.push(c)
            &&& !s.category_query_dirty ==> e.category_query == seq![c]
            &&& s.category_query_dirty ==> f.category_query == d.category_query
            &&& e.category_id == d.category_id
            &&& t.category_modal_open == s.category_modal_open
        }),
{
    assert(d.category_query.push(c).drop_last() =~= d.category_query);
    assert(Seq::<char>::empty().push(c) =~= seq![c]);
}

/// Escape in the search of a category brings back the query from before, and no category
/// is chosen.
pub proof fn law_search_is_cancelled(
    key: KeyEvent,
    s: SessionContent,
    d: DraftContent,
    categories: Seq<String>,
)
    requires
        key.code == KeyCode::Esc,
    ensures
        ({
            let (t, e) = search_step(key, s, d, categories);
            &&& !t.category_modal_open
            &&& e.category_query == s.category_query_backup
            &&& e.category_id == d.category_id
        }),
{
}

/// While a month is picked, Enter asks for the month under the cursor, and the arrows keep
/// the cursor in the list.
pub proof fn law_month_picker(
    enter: KeyEvent,
    down: KeyEvent,
    up: KeyEvent,
    s: SessionContent,
    d: DraftContent,
)
    requires
        enter.code == KeyCode::Enter,
        down.code == KeyCode::Down,
        up.code == KeyCode::Up,
        0 <= s.month_picker_cursor < s.available_months.len(),
    ensures
        month_picker_step(enter, s, d).effect == EffectContent::Month(
            s.available_months[s.month_picker_cursor],
        ),
        ({
            let after = month_picker_step(down, s, d).session.month_picker_cursor;
            &&& 0 <= after < s.available_months.len()
            &&& s.month_picker_cursor + 1 < s.available_months.len() ==> after
                == s.month_picker_cursor + 1
        }),
        ({
            let after = month_picker_step(up, s, d).session.month_picker_cursor;
            &&& 0 <= after < s.available_months.len()
            &&& s.month_picker_cursor > 0 ==> after == s.month_picker_cursor - 1
        }),
{
}

/// The picker opens at the month of the filter where the list has it, else at the first.
pub proof fn law_picker_opens_at_month(s: SessionContent)
    ensures
        ({
            let p = picking_month(s);
            &&& p.month_picker_open && !p.filter_menu_open
            &&& s.filters.month is None ==> p.month_picker_cursor == 0
            &&& (s.filters.month is Some && s.available_months.contains(s.filters.month->0)) ==> {
                &&& 0 <= p.month_picker_cursor < s.available_months.len()
                &&& s.available_months[p.month_picker_cursor] == s.filters.month->0
            }
        }),
{
    if let Some(m) = s.filters.month {
        lemma_first_at(s.available_months, m, 0);
        if s.available_months.contains(m) {
            let k = choose|k: int| 0 <= k < s.available_months.len() && s.available_months[k] == m;
            assert(s.available_months[k] == m);
        }
    }
}

proof fn lemma_first_at(list: Seq<Seq<char>>, key: Seq<char>, from: int)
    requires
        0 <= from <= list.len(),
    ensures
        match crate::categories::first_at(list, key, from) {
            Some(i) => from <= i < list.len() && list[i] == key,
            None => forall|k: int| from <= k < list.len() ==> #[trigger] list[k] != key,
        },
    decreases list.len() - from,
{
    if from < list.len() && list[from] != key {
        lemma_first_at(list, key, from + 1);
    }
}

/// A key of the filter menu sets one filter from the transaction that is shown, and leaves
/// the others; `0` takes all away.
pub proof fn law_menu_sets_one_filter(key: KeyEvent, row: TransactionRecord, f: FilterContent)
    requires
        key.modifiers.none_held(),
    ensures
        key.code == KeyCode::Char('0') ==> menu_filters(key, row, f) == Some(no_filter()),
        key.code == KeyCode::Char('a') ==> (menu_filters(key, row, f) matches Some(g)
            && g.account_id == opt_text(row.account_id) && g.category == f.category && g.merchant
            == f.merchant && g.month == f.month && g.owner_accounts == f.owner_accounts),
        key.code == KeyCode::Char('c') ==> (menu_filters(key, row, f) matches Some(g) && g.category
            == opt_text(row.category_id) && g.account_id == f.account_id && g.merchant
            == f.merchant && g.month == f.month && g.owner_accounts == f.owner_accounts),
        key.code == KeyCode::Char('e') ==> (menu_filters(key, row, f) matches Some(g)
            && g.merchant is Some && g.account_id == f.account_id && g.category == f.category
            && g.month == f.month && g.owner_accounts == f.owner_accounts),
        no_filter().month is None && no_filter().account_id is None && no_filter().category is None
            && no_filter().merchant is None && no_filter().owner_accounts is None,
{
}

// ---------------------------------------------------------------------------
// Saves

/// A save that was started counts as pending, clears the last error, and moves on to the
/// next transaction, or stays at the last.
pub proof fn law_saving_moves_on(
    s: SessionContent,
    history: Option<Seq<char>>,
    label: Seq<char>,
    rows: Seq<TransactionRecord>,
)
    requires
        0 <= s.index < rows.len(),
        0 <= s.pending_save_count < usize::MAX,
    ensures
        ({
            let t = saving(s, history, label, rows);
            &&& t.pending_save_count == s.pending_save_count + 1
            &&& t.last_save_error is None
            &&& s.index + 1 < rows.len() ==> t.index == s.index + 1
            &&& s.index + 1 == rows.len() ==> t.index == s.index
            &&& s.bulk_mode ==> t.bulk_ids.len() == 0
            &&& t.saves_completed == s.saves_completed
        }),
{
}

/// A save that ended well counts what it saved; one that failed tells why, and counts
/// nothing.
pub proof fn law_save_ends(s: SessionContent, o: SaveOutcome)
    requires
        0 <= s.saves_completed,
    ensures
        o matches SaveOutcome::Saved { count, .. } ==> save_ended(s, o).last_save_error
            == s.last_save_error && (s.saves_completed + count <= usize::MAX ==> save_ended(
            s,
            o,
        ).saves_completed == s.saves_completed + count),
        !(o is Saved) ==> save_ended(s, o).last_save_error is Some && save_ended(
            s,
            o,
        ).saves_completed == s.saves_completed,
{
}

// ---------------------------------------------------------------------------
// Rules and the audit trail

/// The rules change a transaction exactly where a rule decided, and the category is another
/// one or there is a context to keep.
pub proof fn law_reclassified(
    items: Seq<TransactionRecord>,
    outcomes: Seq<RuleOutcome>,
    i: int,
)
    requires
        0 <= i < items.len(),
    ensures
        reclassified(items, outcomes).contains(i) <==> outcomes[i].category_source@ == "rule"@ && (
        opt_text(outcomes[i].category_id) != opt_text(items[i].category_id)
            || outcomes[i].context is Some),
{
    let f = |i: int| reclassifies(items[i], outcomes[i]);
    lemma_where_at(items.len() as int, f);
    let at = reclassified(items, outcomes);
    assert(f(i) == reclassifies(items[i], outcomes[i]));
    if at.contains(i) {
        let k = choose|k: int| 0 <= k < at.len() && at[k] == i;
        assert(f(at[k]));
    }
}

/// The trail of a sync has one entry for each transaction left out, each account rebound,
/// each account and each transaction stored; an entry about what was left out names it and
/// what it repeats.
pub proof fn law_sync_trail(
    skipped: Seq<(Seq<char>, Seq<char>, Seq<char>)>,
    rebinds: Seq<RebindEvent>,
    accounts: Seq<AccountRecord>,
    transactions: Seq<TransactionRecord>,
    i: int,
    k: int,
)
    requires
        0 <= i < skipped.len(),
        0 <= k < transactions.len(),
    ensures
        ({
            let trail = sync_trail(skipped, rebinds, accounts, transactions);
            let n = skipped.len() + rebinds.len() + accounts.len();
            &&& trail.len() == n + transactions.len()
            &&& trail[i].entity_type == "transaction"@ && trail[i].entity_id == skipped[i].0
            &&& trail[i].action == "dedup_skipped"@
            &&& trail[n + k].entity_type == "transaction"@
            &&& trail[n + k].entity_id == transactions[k].transaction_id@
            &&& trail[n + k].key == transactions[k].idempotency_key@
            &&& trail[n + k].action == "sync_pluggy"@
        }),
{
}

} // verus!
