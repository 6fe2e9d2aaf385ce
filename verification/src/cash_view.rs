//! The cash flow of a month on screen: what is selected, which keys move the selection,
//! and the lines that are drawn.

use crate::amount::{magnitude, negated, Amount};
use crate::card_bills::CashflowCardBillDetail;
use crate::cashflow::CashflowCategoryGroup;
use crate::families::{
    family_views, sub_views, CashflowTerminalFamily, CashflowTerminalSubcategory, FamilyContent,
    SubContent,
};
use crate::human::{
    bar_text, category_emoji, emoji_of, family_label, label_of_family, month_label, month_name,
    progress_bar, reais, reais_text, short_date, short_date_text,
};
use crate::keys::{KeyCode, KeyEvent};
use crate::money::{brl_signed, brl_signed_text};
use crate::month_report::{CashflowAccountBalance, CashflowCardSummary, CashflowMonthReport};
use crate::review_view::{amount_style, amount_tui_style};
use crate::scenario::CashflowRow;
use crate::screen::{
    badge, clip_tui_text, clipped, colored, line_of, line_views, pad_end, padded_end, plain_style,
    push_line, push_single, push_span, span_views, strong, Color, ScreenLine, Span, Style,
};
use crate::terminal::{
    balance_text, cashflow_card_paid_label, cashflow_tui_change_text, change_fits, change_text,
    display_token, families_fit, family_fits, join_some, optional_balance_label, paid_text,
    part_fits, share_pct, some_names, token_text, whole_share,
};
use crate::text::{chars, digits, from_chars, glue, glue3, join, joined, number, push_text, put, texts};
use vstd::prelude::*;

verus! {

// ---------------------------------------------------------------------------
// State

#[derive(Clone, Copy, Debug, PartialEq, Eq, Structural)]
pub enum CashflowTuiTab {
    Income,
    Expenses,
    Cards,
}

pub open spec fn tab_label(tab: CashflowTuiTab) -> Seq<char> {
    match tab {
        CashflowTuiTab::Income => "Entradas"@,
        CashflowTuiTab::Expenses => "Saídas"@,
        CashflowTuiTab::Cards => "Cartões"@,
    }
}

pub open spec fn tab_after(tab: CashflowTuiTab) -> CashflowTuiTab {
    match tab {
        CashflowTuiTab::Income => CashflowTuiTab::Expenses,
        CashflowTuiTab::Expenses => CashflowTuiTab::Cards,
        CashflowTuiTab::Cards => CashflowTuiTab::Income,
    }
}

pub open spec fn tab_before(tab: CashflowTuiTab) -> CashflowTuiTab {
    match tab {
        CashflowTuiTab::Income => CashflowTuiTab::Cards,
        CashflowTuiTab::Expenses => CashflowTuiTab::Income,
        CashflowTuiTab::Cards => CashflowTuiTab::Expenses,
    }
}

impl CashflowTuiTab {
    pub fn label(self) -> (r: &'static str)
        ensures
            r@ == tab_label(self),
    {
        match self {
            CashflowTuiTab::Income => "Entradas",
            CashflowTuiTab::Expenses => "Saídas",
            CashflowTuiTab::Cards => "Cartões",
        }
    }

    pub fn next(self) -> (r: CashflowTuiTab)
        ensures
            r == tab_after(self),
    {
        match self {
            CashflowTuiTab::Income => CashflowTuiTab::Expenses,
            CashflowTuiTab::Expenses => CashflowTuiTab::Cards,
            CashflowTuiTab::Cards => CashflowTuiTab::Income,
        }
    }

    pub fn previous(self) -> (r: CashflowTuiTab)
        ensures
            r == tab_before(self),
    {
        match self {
            CashflowTuiTab::Income => CashflowTuiTab::Cards,
            CashflowTuiTab::Expenses => CashflowTuiTab::Income,
            CashflowTuiTab::Cards => CashflowTuiTab::Expenses,
        }
    }
}

/// A step forward and a step back lead to the tab again, as do three steps in one direction.
pub proof fn law_tabs_go_round(tab: CashflowTuiTab)
    ensures
        tab_before(tab_after(tab)) == tab,
        tab_after(tab_before(tab)) == tab,
        tab_after(tab_after(tab_after(tab))) == tab,
{
}

/// What is selected.
#[derive(Clone, Copy, Debug, PartialEq, Eq, Structural)]
pub struct CashflowTuiState {
    pub tab: CashflowTuiTab,
    pub income_index: usize,
    pub expense_index: usize,
    pub card_scroll: usize,
}

impl Default for CashflowTuiState {
    fn default() -> (r: CashflowTuiState)
        ensures
            r.tab == CashflowTuiTab::Expenses,
            r.income_index == 0,
            r.expense_index == 0,
            r.card_scroll == 0,
    {
        CashflowTuiState {
            tab: CashflowTuiTab::Expenses,
            income_index: 0,
            expense_index: 0,
            card_scroll: 0,
        }
    }
}

/// An index moved within a list.
pub open spec fn moved_index(index: int, len: int, delta: int) -> int {
    if len == 0 {
        0
    } else if index + delta < 0 {
        0
    } else if index + delta > len - 1 {
        len - 1
    } else {
        index + delta
    }
}

/// Moves an index within a list.
pub fn move_bounded_index(index: &mut usize, len: usize, delta: isize)
    ensures
        *final(index) == moved_index(*old(index) as int, len as int, delta as int),
{
    if len == 0 {
        *index = 0;
        return;
    }
    let next: i128 = *index as i128 + delta as i128;
    if next < 0 {
        *index = 0;
    } else if next > (len - 1) as i128 {
        *index = len - 1;
    } else {
        *index = next as usize;
    }
}

/// Wherever it is moved, an index stays within a list that has something.
pub proof fn law_index_stays_in_list(index: int, len: int, delta: int)
    requires
        len > 0,
    ensures
        0 <= moved_index(index, len, delta) < len,
{
}

/// What a key does to the selection.
pub open spec fn moved_state(
    state: CashflowTuiState,
    incomes: int,
    expenses: int,
    bills: int,
    delta: int,
) -> CashflowTuiState {
    match state.tab {
        CashflowTuiTab::Income => (CashflowTuiState {
            income_index: moved_index(state.income_index as int, incomes, delta) as usize,
            ..state
        }),
        CashflowTuiTab::Expenses => (CashflowTuiState {
            expense_index: moved_index(state.expense_index as int, expenses, delta) as usize,
            ..state
        }),
        CashflowTuiTab::Cards => (CashflowTuiState {
            card_scroll: moved_index(state.card_scroll as int, bills, delta) as usize,
            ..state
        }),
    }
}

/// Moves the selection of the tab that is shown.
pub fn move_cashflow_tui_selection(
    state: &mut CashflowTuiState,
    incomes: usize,
    expenses: usize,
    bills: usize,
    delta: isize,
)
    ensures
        *final(state) == moved_state(
            *old(state),
            incomes as int,
            expenses as int,
            bills as int,
            delta as int,
        ),
{
    match state.tab {
        CashflowTuiTab::Income => {
            let mut index: usize = state.income_index;
            move_bounded_index(&mut index, incomes, delta);
            state.income_index = index;
        },
        CashflowTuiTab::Expenses => {
            let mut index: usize = state.expense_index;
            move_bounded_index(&mut index, expenses, delta);
            state.expense_index = index;
        },
        CashflowTuiTab::Cards => {
            let mut index: usize = state.card_scroll;
            move_bounded_index(&mut index, bills, delta);
            state.card_scroll = index;
        },
    }
}

pub open spec fn exits(code: KeyCode) -> bool {
    code == KeyCode::Esc || code == KeyCode::Char('q')
}

/// Whether a key leaves the screen.
pub fn cashflow_tui_exit_key(key: KeyEvent) -> (r: bool)
    ensures
        r == exits(key.code),
{
    match key.code {
        KeyCode::Esc => true,
        KeyCode::Char(c) => c == 'q',
        _ => false,
    }
}

pub open spec fn direct_tab(code: KeyCode) -> Option<CashflowTuiTab> {
    match code {
        KeyCode::Char(c) => if c == '1' {
            Some(CashflowTuiTab::Income)
        } else if c == '2' {
            Some(CashflowTuiTab::Expenses)
        } else if c == '3' {
            Some(CashflowTuiTab::Cards)
        } else {
            None
        },
        _ => None,
    }
}

/// The tab that a number names.
pub fn cashflow_tui_direct_tab_key(key: KeyEvent) -> (r: Option<CashflowTuiTab>)
    ensures
        r == direct_tab(key.code),
{
    match key.code {
        KeyCode::Char(c) => if c == '1' {
            Some(CashflowTuiTab::Income)
        } else if c == '2' {
            Some(CashflowTuiTab::Expenses)
        } else if c == '3' {
            Some(CashflowTuiTab::Cards)
        } else {
            None
        },
        _ => None,
    }
}

pub open spec fn stepped_tab(code: KeyCode, current: CashflowTuiTab) -> Option<CashflowTuiTab> {
    if code == KeyCode::Tab || code == KeyCode::Right {
        Some(tab_after(current))
    } else if code == KeyCode::BackTab || code == KeyCode::Left {
        Some(tab_before(current))
    } else {
        None
    }
}

/// The tab that a key steps to.
pub fn cashflow_tui_step_tab_key(key: KeyEvent, current: CashflowTuiTab) -> (r: Option<
    CashflowTuiTab,
>)
    ensures
        r == stepped_tab(key.code, current),
{
    match key.code {
        KeyCode::Tab => Some(current.next()),
        KeyCode::Right => Some(current.next()),
        KeyCode::BackTab => Some(current.previous()),
        KeyCode::Left => Some(current.previous()),
        _ => None,
    }
}

pub open spec fn key_delta(code: KeyCode) -> Option<int> {
    if code == KeyCode::Up {
        Some(-1)
    } else if code == KeyCode::Down {
        Some(1)
    } else if code == KeyCode::PageUp {
        Some(-8)
    } else if code == KeyCode::PageDown {
        Some(8)
    } else {
        None
    }
}

/// How far a key moves the selection.
pub fn cashflow_tui_move_delta_key(key: KeyEvent) -> (r: Option<isize>)
    ensures
        match r {
            Some(d) => key_delta(key.code) == Some(d as int),
            None => key_delta(key.code) is None,
        },
{
    match key.code {
        KeyCode::Up => Some(-1),
        KeyCode::Down => Some(1),
        KeyCode::PageUp => Some(-8),
        KeyCode::PageDown => Some(8),
        _ => None,
    }
}

/// The state after a key, and whether the screen is left.
pub open spec fn state_after(
    code: KeyCode,
    state: CashflowTuiState,
    incomes: int,
    expenses: int,
    bills: int,
) -> (CashflowTuiState, bool) {
    if exits(code) {
        (state, true)
    } else if direct_tab(code) is Some {
        (CashflowTuiState { tab: direct_tab(code)->Some_0, ..state }, false)
    } else if stepped_tab(code, state.tab) is Some {
        (CashflowTuiState { tab: stepped_tab(code, state.tab)->Some_0, ..state }, false)
    } else if key_delta(code) is Some {
        (moved_state(state, incomes, expenses, bills, key_delta(code)->Some_0), false)
    } else {
        (state, false)
    }
}

/// Takes a key. The result tells whether the screen is left.
pub fn handle_cashflow_tui_key(
    key: KeyEvent,
    state: &mut CashflowTuiState,
    income_families: &Vec<CashflowTerminalFamily>,
    expense_families: &Vec<CashflowTerminalFamily>,
    card_bill_count: usize,
) -> (r: bool)
    ensures
        (*final(state), r) == state_after(
            key.code,
            *old(state),
            income_families@.len() as int,
            expense_families@.len() as int,
            card_bill_count as int,
        ),
{
    if cashflow_tui_exit_key(key) {
        return true;
    }
    if let Some(tab) = cashflow_tui_direct_tab_key(key) {
        state.tab = tab;
        return false;
    }
    if let Some(tab) = cashflow_tui_step_tab_key(key, state.tab) {
        state.tab = tab;
        return false;
    }
    if let Some(delta) = cashflow_tui_move_delta_key(key) {
        move_cashflow_tui_selection(
            state,
            income_families.len(),
            expense_families.len(),
            card_bill_count,
            delta,
        );
    }
    false
}

// ---------------------------------------------------------------------------
// Pieces

pub open spec fn gray(s: Seq<char>) -> (Seq<char>, Style) {
    (s, colored(Color::DarkGray))
}

pub open spec fn raw(s: Seq<char>) -> (Seq<char>, Style) {
    (s, plain_style())
}

pub open spec fn money_piece(a: Amount) -> (Seq<char>, Style) {
    (brl_signed_text(a), amount_style(a))
}

fn push_gray(spans: &mut Vec<Span>, text: &str)
    ensures
        span_views(final(spans)@) == span_views(old(spans)@).push(gray(text@)),
{
    push_span(spans, text, Style::colored(Color::DarkGray));
}

fn push_raw(spans: &mut Vec<Span>, text: &str)
    ensures
        span_views(final(spans)@) == span_views(old(spans)@).push(raw(text@)),
{
    push_span(spans, text, Style::plain());
}

fn push_money(spans: &mut Vec<Span>, amount: Amount)
    ensures
        span_views(final(spans)@) == span_views(old(spans)@).push(money_piece(amount)),
{
    push_span(spans, brl_signed(amount).as_str(), amount_tui_style(amount));
}

fn no_spans() -> (r: Vec<Span>)
    ensures
        span_views(r@) == Seq::<(Seq<char>, Style)>::empty(),
{
    let out: Vec<Span> = Vec::new();
    assert(span_views(out@) =~= Seq::empty());
    out
}

/// The style of a change: bright where it is new, red where more was moved, green where
/// less.
pub open spec fn change_style(current: Amount, previous: Amount) -> Style {
    let now = magnitude(current).scaled();
    let before = magnitude(previous).scaled();
    if previous.scaled() == 0 {
        if current.scaled() == 0 {
            colored(Color::DarkGray)
        } else {
            strong(Color::Cyan)
        }
    } else if now > before {
        colored(Color::LightRed)
    } else if now < before {
        colored(Color::LightGreen)
    } else {
        colored(Color::DarkGray)
    }
}

/// The style of a change.
pub fn cashflow_tui_change_style(current: &Amount, previous: &Amount) -> (r: Style)
    ensures
        r == change_style(*current, *previous),
{
    if !previous.is_below_zero() && !previous.is_above_zero() {
        if !current.is_below_zero() && !current.is_above_zero() {
            Style::colored(Color::DarkGray)
        } else {
            Style::strong(Color::Cyan)
        }
    } else if previous.abs().is_less(&current.abs()) {
        Style::colored(Color::LightRed)
    } else if current.abs().is_less(&previous.abs()) {
        Style::colored(Color::LightGreen)
    } else {
        Style::colored(Color::DarkGray)
    }
}

// ---------------------------------------------------------------------------
// Header

pub open spec fn title_pieces(month: Seq<char>, forecast: bool) -> Seq<(Seq<char>, Style)> {
    seq![
        (" fin cashflow "@, badge(Color::Black, Color::Cyan)),
        raw("  "@),
        (month_name(month), strong(Color::White)),
        raw("  "@),
        (if forecast {
            (" forecast "@, badge(Color::Black, Color::Yellow))
        } else {
            gray(" sem forecast "@)
        }),
    ]
}

pub open spec fn summary_pieces(
    names: (Seq<char>, Seq<char>, Seq<char>),
    income: Amount,
    expenses: Amount,
    net: Amount,
) -> Seq<(Seq<char>, Style)> {
    seq![
        gray(names.0),
        money_piece(income),
        raw("   "@),
        gray(names.1),
        money_piece(negated(expenses)),
        raw("   "@),
        gray(names.2),
        money_piece(net),
    ]
}

pub open spec fn balance_pieces(row: CashflowRow) -> Seq<(Seq<char>, Style)> {
    seq![
        gray(" Saldo inicial "@),
        raw(balance_text(row.opening_balance)),
        raw("   "@),
        gray(" Saldo final "@),
        raw(balance_text(row.closing_balance)),
    ]
}

pub open spec fn balance_name(b: CashflowAccountBalance) -> Seq<char> {
    b.label@ + " "@ + (match b.balance {
        Some(x) => brl_signed_text(x),
        None => "—"@,
    })
}

pub open spec fn balance_names(balances: Seq<CashflowAccountBalance>) -> Seq<Seq<char>> {
    balances.map_values(|b: CashflowAccountBalance| balance_name(b))
}

pub open spec fn room_behind(width: int, used: int) -> int {
    if width > used {
        width - used
    } else {
        0
    }
}

/// The balances of the accounts, cut to the width.
pub open spec fn account_pieces(balances: Seq<CashflowAccountBalance>, width: int) -> Seq<
    (Seq<char>, Style),
> {
    if balances.len() == 0 {
        seq![gray(" Contas correntes: sem snapshot"@)]
    } else {
        seq![
            gray(" Contas correntes: "@),
            raw(clipped(joined(balance_names(balances), " · "@), room_behind(width, 20))),
        ]
    }
}

/// The balances of the accounts, cut to the width.
pub fn cashflow_tui_account_spans(balances: &Vec<CashflowAccountBalance>, max_width: usize) -> (r: Vec<
    Span,
>)
    ensures
        span_views(r@) == account_pieces(balances@, max_width as int),
{
    let mut out = no_spans();
    if balances.len() == 0 {
        push_gray(&mut out, " Contas correntes: sem snapshot");
        assert(span_views(out@) =~= account_pieces(balances@, max_width as int));
        return out;
    }
    let ghost want = balance_names(balances@);
    let mut names: Vec<String> = Vec::new();
    let mut i: usize = 0;
    assert(texts(names@) =~= want.take(0));
    while i < balances.len()
        invariant
            i <= balances.len(),
            want == balance_names(balances@),
            texts(names@) == want.take(i as int),
        decreases balances.len() - i,
    {
        let amount = match balances[i].balance {
            Some(x) => brl_signed(x),
            None => "—".to_string(),
        };
        push_text(&mut names, glue3(balances[i].label.as_str(), " ", amount.as_str()));
        i = i + 1;
        assert(texts(names@) =~= want.take(i as int));
    }
    assert(texts(names@) =~= want);
    let room: usize = if max_width > 20 {
        max_width - 20
    } else {
        0
    };
    push_gray(&mut out, " Contas correntes: ");
    push_raw(&mut out, clip_tui_text(join(&names, " · ").as_str(), room).as_str());
    assert(span_views(out@) =~= account_pieces(balances@, max_width as int));
    out
}

/// The lines of the head.
pub open spec fn header_lines(report: CashflowMonthReport, forecast: bool, width: int) -> Seq<
    (Seq<(Seq<char>, Style)>, Style),
> {
    seq![
        line_of(title_pieces(report.month_ref@, forecast)),
        line_of(
            summary_pieces(
                (" Entradas "@, " Saídas "@, " Resultado "@),
                report.actual_summary.income,
                report.actual_summary.expenses,
                report.actual_summary.net,
            ),
        ),
    ] + (match report.forecast_summary {
        Some(f) => seq![
            line_of(
                summary_pieces(
                    (" Forecast + "@, " Forecast - "@, " Projetado "@),
                    f.income,
                    f.expenses,
                    report.summary.net,
                ),
            ),
        ],
        None => Seq::empty(),
    }) + seq![
        line_of(balance_pieces(report.summary)),
        line_of(account_pieces(report.account_balances@, width)),
    ]
}

fn make_summary(a: &str, b: &str, c: &str, income: Amount, expenses: Amount, net: Amount) -> (r: Vec<
    Span,
>)
    ensures
        span_views(r@) == summary_pieces((a@, b@, c@), income, expenses, net),
{
    let mut s = no_spans();
    push_gray(&mut s, a);
    push_money(&mut s, income);
    push_raw(&mut s, "   ");
    push_gray(&mut s, b);
    push_money(&mut s, expenses.neg());
    push_raw(&mut s, "   ");
    push_gray(&mut s, c);
    push_money(&mut s, net);
    assert(span_views(s@) =~= summary_pieces((a@, b@, c@), income, expenses, net));
    s
}

fn make_title(month: &str, forecast: bool) -> (r: Vec<Span>)
    ensures
        span_views(r@) == title_pieces(month@, forecast),
{
    let mut s = no_spans();
    push_span(&mut s, " fin cashflow ", Style::badge(Color::Black, Color::Cyan));
    push_raw(&mut s, "  ");
    push_span(&mut s, month_label(month).as_str(), Style::strong(Color::White));
    push_raw(&mut s, "  ");
    if forecast {
        push_span(&mut s, " forecast ", Style::badge(Color::Black, Color::Yellow));
    } else {
        push_gray(&mut s, " sem forecast ");
    }
    assert(span_views(s@) =~= title_pieces(month@, forecast));
    s
}

fn no_lines() -> (r: Vec<ScreenLine>)
    ensures
        line_views(r@) == Seq::<(Seq<(Seq<char>, Style)>, Style)>::empty(),
{
    let out: Vec<ScreenLine> = Vec::new();
    assert(line_views(out@) =~= Seq::empty());
    out
}

/// The lines of the head.
pub fn cashflow_tui_header_lines(report: &CashflowMonthReport, include_forecast: bool, width: usize) -> (r:
    Vec<ScreenLine>)
    ensures
        line_views(r@) == header_lines(*report, include_forecast, width as int),
{
    let mut out = no_lines();
    push_line(&mut out, make_title(report.month_ref.as_str(), include_forecast));
    push_line(
        &mut out,
        make_summary(
            " Entradas ",
            " Saídas ",
            " Resultado ",
            report.actual_summary.income,
            report.actual_summary.expenses,
            report.actual_summary.net,
        ),
    );
    match &report.forecast_summary {
        Some(f) => {
            push_line(
                &mut out,
                make_summary(
                    " Forecast + ",
                    " Forecast - ",
                    " Projetado ",
                    f.income,
                    f.expenses,
                    report.summary.net,
                ),
            );
        },
        None => {},
    }
    let mut b = no_spans();
    push_gray(&mut b, " Saldo inicial ");
    push_raw(&mut b, optional_balance_label(report.summary.opening_balance).as_str());
    push_raw(&mut b, "   ");
    push_gray(&mut b, " Saldo final ");
    push_raw(&mut b, optional_balance_label(report.summary.closing_balance).as_str());
    assert(span_views(b@) =~= balance_pieces(report.summary));
    push_line(&mut out, b);
    push_line(&mut out, cashflow_tui_account_spans(&report.account_balances, width));
    assert(line_views(out@) =~= header_lines(*report, include_forecast, width as int));
    out
}

// ---------------------------------------------------------------------------
// Families

/// The families of the tab that is shown, and the selected one.
pub open spec fn selected_of(state: CashflowTuiState, incomes: int, expenses: int) -> int {
    let (n, at) = match state.tab {
        CashflowTuiTab::Income => (incomes, state.income_index as int),
        CashflowTuiTab::Expenses => (expenses, state.expense_index as int),
        CashflowTuiTab::Cards => (0int, 0int),
    };
    let last = if n > 0 {
        n - 1
    } else {
        0
    };
    if at < last {
        at
    } else {
        last
    }
}

/// The selected place of the tab that is shown.
pub fn cashflow_tui_selected(state: &CashflowTuiState, incomes: usize, expenses: usize) -> (r: usize)
    ensures
        r == selected_of(*state, incomes as int, expenses as int),
{
    let n: usize = match state.tab {
        CashflowTuiTab::Income => incomes,
        CashflowTuiTab::Expenses => expenses,
        CashflowTuiTab::Cards => 0,
    };
    let at: usize = match state.tab {
        CashflowTuiTab::Income => state.income_index,
        CashflowTuiTab::Expenses => state.expense_index,
        CashflowTuiTab::Cards => 0,
    };
    let last: usize = if n > 0 {
        n - 1
    } else {
        0
    };
    if at < last {
        at
    } else {
        last
    }
}

pub open spec fn row_style(selected: bool) -> Style {
    if selected {
        badge(Color::White, Color::Rgb(34, 48, 64))
    } else {
        colored(Color::Gray)
    }
}

/// The line of a family in the list.
pub open spec fn family_row(f: FamilyContent, selected: bool) -> (Seq<(Seq<char>, Style)>, Style) {
    (
        seq![
            (if selected {
                ">"@
            } else {
                " "@
            }, colored(Color::Cyan)),
            raw(" "@),
            raw(emoji_of(f.family)),
            raw(" "@),
            raw(padded_end(clipped(label_of_family(f.family), 18), 18)),
            raw(" "@),
            money_piece(f.total),
            raw(" "@),
            (change_text(f.total, f.previous), change_style(f.total, f.previous)),
        ],
        row_style(selected),
    )
}

/// The line of a family in the list.
pub fn cashflow_tui_family_line(f: &CashflowTerminalFamily, selected: bool) -> (r: ScreenLine)
    requires
        change_fits(f.total, f.previous),
    ensures
        r@ == family_row(f@, selected),
{
    let mut s = no_spans();
    push_span(
        &mut s,
        if selected {
            ">"
        } else {
            " "
        },
        Style::colored(Color::Cyan),
    );
    push_raw(&mut s, " ");
    push_raw(&mut s, category_emoji(f.family.as_str()));
    push_raw(&mut s, " ");
    let label = clip_tui_text(family_label(f.family.as_str()).as_str(), 18);
    push_raw(&mut s, pad_end(label.as_str(), 18).as_str());
    push_raw(&mut s, " ");
    push_money(&mut s, f.total);
    push_raw(&mut s, " ");
    push_span(
        &mut s,
        cashflow_tui_change_text(&f.total, &f.previous).as_str(),
        cashflow_tui_change_style(&f.total, &f.previous),
    );
    let style = if selected {
        Style::badge(Color::White, Color::Rgb(34, 48, 64))
    } else {
        Style::colored(Color::Gray)
    };
    let out = ScreenLine { spans: s, style };
    assert(out@.0 =~= family_row(f@, selected).0);
    out
}

/// The first row that is shown so that the selected one stands in the middle.
pub open spec fn list_start(selected: int, visible: int) -> int {
    room_behind(selected, visible / 2)
}

pub open spec fn list_end(selected: int, visible: int, n: int) -> int {
    let end = list_start(selected, visible) + visible;
    if end < n {
        end
    } else {
        n
    }
}

pub open spec fn family_rows(families: Seq<FamilyContent>, selected: int, from: int, to: int) -> Seq<
    (Seq<(Seq<char>, Style)>, Style),
> {
    Seq::new((to - from) as nat, |k: int| family_row(families[from + k], from + k == selected))
}

/// The rows of the list of families that fit in a height.
pub fn cashflow_tui_family_rows(
    families: &Vec<CashflowTerminalFamily>,
    selected: usize,
    height: usize,
) -> (r: Vec<ScreenLine>)
    requires
        families_fit(family_views(families@)),
        selected < families@.len() || (selected == 0 && families@.len() == 0),
        height <= 65535,
    ensures
        ({
            let visible = if height > 3 {
                height - 2
            } else {
                1
            };
            line_views(r@) == family_rows(
                family_views(families@),
                selected as int,
                list_start(selected as int, visible),
                list_end(selected as int, visible, families@.len() as int),
            )
        }),
{
    let visible: usize = if height > 3 {
        height - 2
    } else {
        1
    };
    let half: usize = visible / 2;
    let from: usize = if selected > half {
        selected - half
    } else {
        0
    };
    let to: usize = if families.len() - from > visible {
        from + visible
    } else {
        families.len()
    };
    let ghost views = family_views(families@);
    let ghost want = family_rows(views, selected as int, from as int, to as int);
    let mut out = no_lines();
    let mut k: usize = from;
    assert(line_views(out@) =~= want.take(0));
    while k < to
        invariant
            from <= k <= to <= families.len(),
            views == family_views(families@),
            families_fit(views),
            want == family_rows(views, selected as int, from as int, to as int),
            line_views(out@) == want.take(k - from),
        decreases to - k,
    {
        assert(views[k as int] == families@[k as int]@);
        assert(family_fits(views[k as int]));
        let ghost before = line_views(out@);
        let line = cashflow_tui_family_line(&families[k], k == selected);
        out.push(line);
        assert(line_views(out@) =~= before.push(line@));
        k = k + 1;
        assert(line_views(out@) =~= want.take(k - from));
    }
    assert(line_views(out@) =~= want);
    out
}

/// The lines of a subcategory in the detail.
pub open spec fn sub_detail(family_total: Amount, s: SubContent, width: int) -> Seq<
    (Seq<(Seq<char>, Style)>, Style),
> {
    seq![
        line_of(
            seq![
                (padded_end(token_text(s.subcategory), 24), colored(Color::Gray)),
                raw(" "@),
                money_piece(s.total),
                raw("  "@),
                (change_text(s.total, s.previous), change_style(s.total, s.previous)),
                raw("  "@),
                gray(bar_text(whole_share(s.total, family_total))),
            ],
        ),
    ] + (if s.forecast.scaled() == 0 {
        Seq::empty()
    } else {
        seq![
            line_of(
                seq![
                    ("  forecast: "@, colored(Color::Yellow)),
                    gray(clipped(some_names(s.names, 5), room_behind(width, 14))),
                ],
            ),
        ]
    })
}

pub open spec fn subs_detail(family_total: Amount, subs: Seq<SubContent>, width: int, n: int) -> Seq<
    (Seq<(Seq<char>, Style)>, Style),
>
    decreases n,
{
    if n <= 0 {
        Seq::empty()
    } else {
        subs_detail(family_total, subs, width, n - 1) + sub_detail(family_total, subs[n - 1], width)
    }
}

/// The lines of the detail of a family.
pub open spec fn family_detail(f: FamilyContent, width: int) -> Seq<
    (Seq<(Seq<char>, Style)>, Style),
> {
    seq![
        line_of(
            seq![
                (label_of_family(f.family), strong(Color::White)),
                raw("  "@),
                money_piece(f.total),
                raw("  "@),
                (
                    "vs mês ant. "@ + change_text(f.total, f.previous),
                    change_style(f.total, f.previous),
                ),
            ],
        ),
    ] + (if f.forecast.scaled() == 0 {
        Seq::empty()
    } else {
        seq![
            line_of(
                seq![
                    ("forecast incluído "@, colored(Color::Yellow)),
                    money_piece(f.forecast),
                ],
            ),
        ]
    }) + seq![line_of(seq![raw(""@)])] + subs_detail(
        f.total,
        f.subcategories,
        width,
        f.subcategories.len() as int,
    )
}

fn push_sub_detail(
    out: &mut Vec<ScreenLine>,
    family_total: &Amount,
    s: &CashflowTerminalSubcategory,
    width: usize,
)
    requires
        change_fits(s.total, s.previous),
        part_fits(s.total, *family_total),
    ensures
        line_views(final(out)@) == line_views(old(out)@) + sub_detail(
            *family_total,
            s@,
            width as int,
        ),
{
    let ghost start = line_views(out@);
    let mut p = no_spans();
    push_span(
        &mut p,
        pad_end(display_token(s.subcategory.as_str()).as_str(), 24).as_str(),
        Style::colored(Color::Gray),
    );
    push_raw(&mut p, " ");
    push_money(&mut p, s.total);
    push_raw(&mut p, "  ");
    push_span(
        &mut p,
        cashflow_tui_change_text(&s.total, &s.previous).as_str(),
        cashflow_tui_change_style(&s.total, &s.previous),
    );
    push_raw(&mut p, "  ");
    push_gray(&mut p, progress_bar(share_pct(&s.total, family_total)).as_str());
    assert(span_views(p@) =~= seq![
        (padded_end(token_text(s@.subcategory), 24), colored(Color::Gray)),
        raw(" "@),
        money_piece(s.total),
        raw("  "@),
        (change_text(s.total, s.previous), change_style(s.total, s.previous)),
        raw("  "@),
        gray(bar_text(whole_share(s.total, *family_total))),
    ]);
    push_line(out, p);
    if s.forecast.is_below_zero() || s.forecast.is_above_zero() {
        let room: usize = if width > 14 {
            width - 14
        } else {
            0
        };
        let mut n = no_spans();
        push_span(&mut n, "  forecast: ", Style::colored(Color::Yellow));
        push_gray(
            &mut n,
            clip_tui_text(join_some(&s.forecast_names, 5).as_str(), room).as_str(),
        );
        assert(span_views(n@) =~= seq![
            ("  forecast: "@, colored(Color::Yellow)),
            gray(clipped(some_names(s@.names, 5), room_behind(width as int, 14))),
        ]);
        push_line(out, n);
    }
    assert(line_views(out@) =~= start + sub_detail(*family_total, s@, width as int));
}

/// The lines of the detail of a family.
pub fn cashflow_tui_family_detail_lines(f: &CashflowTerminalFamily, width: usize) -> (r: Vec<
    ScreenLine,
>)
    requires
        family_fits(f@),
    ensures
        line_views(r@) == family_detail(f@, width as int),
{
    let mut out = no_lines();
    let mut t = no_spans();
    push_span(&mut t, family_label(f.family.as_str()).as_str(), Style::strong(Color::White));
    push_raw(&mut t, "  ");
    push_money(&mut t, f.total);
    push_raw(&mut t, "  ");
    push_span(
        &mut t,
        glue("vs mês ant. ", cashflow_tui_change_text(&f.total, &f.previous).as_str()).as_str(),
        cashflow_tui_change_style(&f.total, &f.previous),
    );
    assert(span_views(t@) =~= seq![
        (label_of_family(f@.family), strong(Color::White)),
        raw("  "@),
        money_piece(f.total),
        raw("  "@),
        ("vs mês ant. "@ + change_text(f.total, f.previous), change_style(f.total, f.previous)),
    ]);
    push_line(&mut out, t);
    if f.forecast.is_below_zero() || f.forecast.is_above_zero() {
        let mut p = no_spans();
        push_span(&mut p, "forecast incluído ", Style::colored(Color::Yellow));
        push_money(&mut p, f.forecast);
        assert(span_views(p@) =~= seq![
            ("forecast incluído "@, colored(Color::Yellow)),
            money_piece(f.forecast),
        ]);
        push_line(&mut out, p);
    }
    push_single(&mut out, "", Style::plain());
    let ghost head = line_views(out@);
    let ghost subs = sub_views(f.subcategories@);
    let mut i: usize = 0;
    assert(head + subs_detail(f.total, subs, width as int, 0) =~= head);
    while i < f.subcategories.len()
        invariant
            i <= f.subcategories.len(),
            family_fits(f@),
            subs == sub_views(f.subcategories@),
            line_views(out@) == head + subs_detail(f.total, subs, width as int, i as int),
        decreases f.subcategories.len() - i,
    {
        assert(f@.subcategories[i as int] == f.subcategories@[i as int]@);
        push_sub_detail(&mut out, &f.total, &f.subcategories[i], width);
        i = i + 1;
        assert(line_views(out@) =~= head + subs_detail(f.total, subs, width as int, i as int));
    }
    assert(line_views(out@) =~= family_detail(f@, width as int));
    out
}

/// The lines of the detail: those of the selected family, or a word that there is nothing.
pub fn cashflow_tui_detail_lines(
    families: &Vec<CashflowTerminalFamily>,
    selected: usize,
    width: usize,
) -> (r: Vec<ScreenLine>)
    requires
        families_fit(family_views(families@)),
    ensures
        line_views(r@) == (if selected < families@.len() {
            family_detail(family_views(families@)[selected as int], width as int)
        } else {
            seq![line_of(seq![gray("sem dados para esta seção"@)])]
        }),
{
    if selected < families.len() {
        assert(family_views(families@)[selected as int] == families@[selected as int]@);
        cashflow_tui_family_detail_lines(&families[selected], width)
    } else {
        let mut out = no_lines();
        push_single(&mut out, "sem dados para esta seção", Style::colored(Color::DarkGray));
        assert(line_views(out@) =~= seq![line_of(seq![gray("sem dados para esta seção"@)])]);
        out
    }
}

// ---------------------------------------------------------------------------
// Cards

/// The overview of the cards.
pub open spec fn card_overview(s: CashflowCardSummary) -> Seq<(Seq<(Seq<char>, Style)>, Style)> {
    seq![
        line_of(seq![raw("total de cartão de crédito "@), money_piece(negated(s.total))]),
        line_of(seq![gray(paid_text(s))]),
        line_of(seq![raw(""@)]),
        line_of(seq![raw("total de compra parcelada "@), money_piece(negated(s.installments_total))]),
        line_of(
            seq![
                gray(
                    digits(s.installment_transactions as nat) + " compras · liberou este mês "@
                        + reais_text(s.installments_released_this_month),
                ),
            ],
        ),
    ]
}

/// The overview of the cards.
pub fn cashflow_tui_card_overview(s: &CashflowCardSummary) -> (r: Vec<ScreenLine>)
    ensures
        line_views(r@) == card_overview(*s),
{
    let mut out = no_lines();
    let mut a = no_spans();
    push_raw(&mut a, "total de cartão de crédito ");
    push_money(&mut a, s.total.neg());
    assert(span_views(a@) =~= seq![raw("total de cartão de crédito "@), money_piece(negated(s.total))]);
    push_line(&mut out, a);
    push_single(&mut out, cashflow_card_paid_label(s).as_str(), Style::colored(Color::DarkGray));
    push_single(&mut out, "", Style::plain());
    let mut b = no_spans();
    push_raw(&mut b, "total de compra parcelada ");
    push_money(&mut b, s.installments_total.neg());
    assert(span_views(b@) =~= seq![
        raw("total de compra parcelada "@),
        money_piece(negated(s.installments_total)),
    ]);
    push_line(&mut out, b);
    let mut note = chars(number(s.installment_transactions).as_str());
    put(&mut note, " compras · liberou este mês ");
    put(&mut note, reais(s.installments_released_this_month).as_str());
    push_single(&mut out, from_chars(&note).as_str(), Style::colored(Color::DarkGray));
    assert(line_views(out@) =~= card_overview(*s));
    out
}

/// The line of a group of purchases; none where there are none.
pub open spec fn group_line(label: Seq<char>, g: CashflowCategoryGroup) -> Seq<
    (Seq<(Seq<char>, Style)>, Style),
> {
    if g.subtotal.scaled() == 0 && g.transactions == 0 {
        Seq::empty()
    } else {
        seq![
            line_of(
                seq![
                    ("  "@ + padded_end(label, 22), colored(Color::Gray)),
                    money_piece(g.subtotal),
                    gray("  "@ + digits(g.transactions as nat) + " transações"@),
                ],
            ),
        ]
    }
}

fn cashflow_tui_card_group_lines(out: &mut Vec<ScreenLine>, label: &str, g: &CashflowCategoryGroup)
    ensures
        line_views(final(out)@) == line_views(old(out)@) + group_line(label@, *g),
{
    let ghost start = line_views(out@);
    if !g.subtotal.is_below_zero() && !g.subtotal.is_above_zero() && g.transactions == 0 {
        assert(line_views(out@) =~= start + group_line(label@, *g));
        return;
    }
    let mut p = no_spans();
    push_span(
        &mut p,
        glue("  ", pad_end(label, 22).as_str()).as_str(),
        Style::colored(Color::Gray),
    );
    push_money(&mut p, g.subtotal);
    push_gray(&mut p, glue3("  ", number(g.transactions).as_str(), " transações").as_str());
    assert(span_views(p@) =~= seq![
        ("  "@ + padded_end(label@, 22), colored(Color::Gray)),
        money_piece(g.subtotal),
        gray("  "@ + digits(g.transactions as nat) + " transações"@),
    ]);
    push_line(out, p);
    assert(line_views(out@) =~= start + group_line(label@, *g));
}

pub open spec fn other_lines(groups: Seq<CashflowCategoryGroup>, n: int) -> Seq<
    (Seq<(Seq<char>, Style)>, Style),
>
    decreases n,
{
    if n <= 0 {
        Seq::empty()
    } else {
        other_lines(groups, n - 1) + group_line(
            token_text(groups[n - 1].category_id@),
            groups[n - 1],
        )
    }
}

/// The lines of a bill.
pub open spec fn bill_lines(b: CashflowCardBillDetail) -> Seq<(Seq<(Seq<char>, Style)>, Style)> {
    seq![
        line_of(
            seq![
                (clipped(b.account_id@, 24), colored(Color::Cyan)),
                raw("  "@),
                money_piece(negated(b.bill_total)),
                raw("  "@),
                gray(
                    match b.payment_date {
                        Some(d) => short_date_text(d),
                        None => "sem pagamento"@,
                    },
                ),
            ],
        ),
    ] + group_line("compras parceladas"@, b.installments) + group_line(
        "assinaturas"@,
        b.subscriptions,
    ) + other_lines(b.other_categories@, b.other_categories@.len() as int) + seq![
        line_of(seq![raw(""@)]),
    ]
}

fn cashflow_tui_bill_lines(out: &mut Vec<ScreenLine>, b: &CashflowCardBillDetail)
    ensures
        line_views(final(out)@) == line_views(old(out)@) + bill_lines(*b),
{
    let ghost start = line_views(out@);
    let paid = match &b.payment_date {
        Some(d) => short_date(d),
        None => "sem pagamento".to_string(),
    };
    let mut p = no_spans();
    push_span(
        &mut p,
        clip_tui_text(b.account_id.as_str(), 24).as_str(),
        Style::colored(Color::Cyan),
    );
    push_raw(&mut p, "  ");
    push_money(&mut p, b.bill_total.neg());
    push_raw(&mut p, "  ");
    push_gray(&mut p, paid.as_str());
    assert(span_views(p@) =~= bill_lines(*b)[0].0);
    push_line(out, p);
    cashflow_tui_card_group_lines(out, "compras parceladas", &b.installments);
    cashflow_tui_card_group_lines(out, "assinaturas", &b.subscriptions);
    let ghost head = line_views(out@);
    let mut i: usize = 0;
    assert(head + other_lines(b.other_categories@, 0) =~= head);
    while i < b.other_categories.len()
        invariant
            i <= b.other_categories.len(),
            line_views(out@) == head + other_lines(b.other_categories@, i as int),
        decreases b.other_categories.len() - i,
    {
        let g = &b.other_categories[i];
        cashflow_tui_card_group_lines(out, display_token(g.category_id.as_str()).as_str(), g);
        i = i + 1;
        assert(line_views(out@) =~= head + other_lines(b.other_categories@, i as int));
    }
    push_single(out, "", Style::plain());
    assert(line_views(out@) =~= start + bill_lines(*b));
}

/// The lines of the bills from `from` up to `to`.
pub open spec fn bills_lines(bills: Seq<CashflowCardBillDetail>, from: int, to: int) -> Seq<
    (Seq<(Seq<char>, Style)>, Style),
>
    decreases to - from,
{
    if to <= from {
        Seq::empty()
    } else {
        bills_lines(bills, from, to - 1) + bill_lines(bills[to - 1])
    }
}

/// The bills that are shown behind a scroll, at most `height`.
pub open spec fn bills_end(n: int, scroll: int, height: int) -> int {
    if scroll + height < n {
        scroll + height
    } else {
        n
    }
}

/// The lines of the detail of the cards.
pub open spec fn cards_detail(
    summary: CashflowCardSummary,
    bills: Seq<CashflowCardBillDetail>,
    scroll: int,
    height: int,
) -> Seq<(Seq<(Seq<char>, Style)>, Style)> {
    seq![
        line_of(
            seq![
                ("Cartões de crédito"@, strong(Color::White)),
                raw("  "@),
                money_piece(negated(summary.total)),
            ],
        ),
        line_of(seq![raw(""@)]),
    ] + (if bills.len() == 0 {
        seq![line_of(seq![gray("sem dados para esta seção"@)])]
    } else {
        bills_lines(bills, scroll, bills_end(bills.len() as int, scroll, height))
    })
}

/// The lines of the detail of the cards.
pub fn cashflow_tui_cards_detail_lines(
    summary: &CashflowCardSummary,
    bills: &Vec<CashflowCardBillDetail>,
    scroll: usize,
    height: usize,
) -> (r: Vec<ScreenLine>)
    ensures
        line_views(r@) == cards_detail(*summary, bills@, scroll as int, height as int),
{
    let mut out = no_lines();
    let mut t = no_spans();
    push_span(&mut t, "Cartões de crédito", Style::strong(Color::White));
    push_raw(&mut t, "  ");
    push_money(&mut t, summary.total.neg());
    assert(span_views(t@) =~= seq![
        ("Cartões de crédito"@, strong(Color::White)),
        raw("  "@),
        money_piece(negated(summary.total)),
    ]);
    push_line(&mut out, t);
    push_single(&mut out, "", Style::plain());
    if bills.len() == 0 {
        push_single(&mut out, "sem dados para esta seção", Style::colored(Color::DarkGray));
        assert(line_views(out@) =~= cards_detail(*summary, bills@, scroll as int, height as int));
        return out;
    }
    let ghost head = line_views(out@);
    let mut k: usize = scroll;
    assert(head + bills_lines(bills@, scroll as int, scroll as int) =~= head);
    while k < bills.len() && k - scroll < height
        invariant
            scroll <= k,
            k <= bills.len() || k == scroll,
            k - scroll <= height,
            line_views(out@) == head + bills_lines(bills@, scroll as int, k as int),
        decreases bills.len() - k,
    {
        cashflow_tui_bill_lines(&mut out, &bills[k]);
        k = k + 1;
        assert(line_views(out@) =~= head + bills_lines(bills@, scroll as int, k as int));
    }
    proof {
        let end = bills_end(bills@.len() as int, scroll as int, height as int);
        if k as int != end {
            assert(bills_lines(bills@, scroll as int, k as int) =~= bills_lines(
                bills@,
                scroll as int,
                end,
            ));
        }
        assert(line_views(out@) =~= cards_detail(*summary, bills@, scroll as int, height as int));
    }
    out
}

// ---------------------------------------------------------------------------
// Footer

pub open spec fn tab_piece(tab: CashflowTuiTab, shown: CashflowTuiTab) -> (Seq<char>, Style) {
    (
        " "@ + tab_label(tab) + " "@,
        if tab == shown {
            badge(Color::Black, Color::Cyan)
        } else {
            colored(Color::DarkGray)
        },
    )
}

/// The pieces of the footer: the tabs and the keys.
pub open spec fn footer_pieces(shown: CashflowTuiTab) -> Seq<(Seq<char>, Style)> {
    seq![
        tab_piece(CashflowTuiTab::Income, shown),
        tab_piece(CashflowTuiTab::Expenses, shown),
        tab_piece(CashflowTuiTab::Cards, shown),
        raw("   "@),
        ("Tab/←/→"@, colored(Color::Yellow)),
        raw(" troca seção   "@),
        ("↑/↓"@, colored(Color::Yellow)),
        raw(" navega   "@),
        ("q/Esc"@, colored(Color::Yellow)),
        raw(" sai"@),
    ]
}

fn push_tab(spans: &mut Vec<Span>, tab: CashflowTuiTab, shown: CashflowTuiTab)
    ensures
        span_views(final(spans)@) == span_views(old(spans)@).push(tab_piece(tab, shown)),
{
    let style = if tab == shown {
        Style::badge(Color::Black, Color::Cyan)
    } else {
        Style::colored(Color::DarkGray)
    };
    push_span(spans, glue3(" ", tab.label(), " ").as_str(), style);
}

/// The pieces of the footer.
pub fn cashflow_tui_footer(shown: CashflowTuiTab) -> (r: Vec<Span>)
    ensures
        span_views(r@) == footer_pieces(shown),
{
    let mut s = no_spans();
    push_tab(&mut s, CashflowTuiTab::Income, shown);
    push_tab(&mut s, CashflowTuiTab::Expenses, shown);
    push_tab(&mut s, CashflowTuiTab::Cards, shown);
    push_raw(&mut s, "   ");
    push_span(&mut s, "Tab/←/→", Style::colored(Color::Yellow));
    push_raw(&mut s, " troca seção   ");
    push_span(&mut s, "↑/↓", Style::colored(Color::Yellow));
    push_raw(&mut s, " navega   ");
    push_span(&mut s, "q/Esc", Style::colored(Color::Yellow));
    push_raw(&mut s, " sai");
    assert(span_views(s@) =~= footer_pieces(shown));
    s
}

} // verus!
