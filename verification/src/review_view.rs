//! A review on the screen: what it shows.

use crate::amount::Amount;
use crate::categories::{category_matches, matches_for, searchable};
use crate::date::{iso, iso_text, month_ref_for, month_text};
use crate::draft::{
    count_chars, editable_tui_view, field_at, label_of, least, line_view, tui_field_value,
    wrap_editable_text, wrapped, wrapped_at, DraftContent, ReviewTuiDraft, ReviewTuiField,
    FIELD_COUNT,
};
use crate::human::{category_emoji, day_month, day_month_text, emoji_of};
use crate::metadata::{metadata_text, paths, text_at};
use crate::money::{brl, brl_text};
use crate::records::{opt_text, or_empty, text_or_empty, TransactionRecord};
use crate::review_save::ReviewHumanSummary;
use crate::review_session::{FilterContent, ReviewTuiSession, SessionContent};
use crate::screen::{
    badge, clip_tui_text, clipped, colored, line_of, line_views, pad_end, pad_start, padded_end,
    padded_start, plain_style, push_line, push_single, push_span, run_of, span_views, strong, Color,
    ScreenLine, Span, Style,
};
use crate::text::{
    chars, contains, digits, from_chars, glue, glue3, has_text, is_blank, join, joined, lines,
    lines_of, lower_ascii, number, push_text, put, replace_char, replaced, texts, to_lower_ascii,
    trim, trimmed,
};
use vstd::prelude::*;

verus! {

pub open spec fn raw_span(text: Seq<char>) -> (Seq<char>, Style) {
    (text, plain_style())
}

/// The style of an amount.
pub open spec fn amount_style(a: Amount) -> Style {
    strong(
        if a.sign() {
            Color::LightRed
        } else {
            Color::LightGreen
        },
    )
}

/// The style of an amount.
pub fn amount_tui_style(amount: Amount) -> (r: Style)
    ensures
        r == amount_style(amount),
{
    if amount.is_sign_negative() {
        Style::strong(Color::LightRed)
    } else {
        Style::strong(Color::LightGreen)
    }
}

// ---------------------------------------------------------------------------
// Header

/// A badge with a space behind it, where there is something to show.
pub open spec fn opt_badge(text: Option<Seq<char>>, bg: Color) -> Seq<(Seq<char>, Style)> {
    match text {
        Some(t) => seq![(" "@ + t + " "@, badge(Color::Black, bg)), raw_span(" "@)],
        None => Seq::empty(),
    }
}

pub open spec fn opt_clipped(text: Option<Seq<char>>, width: int) -> Option<Seq<char>> {
    match text {
        Some(t) => Some(clipped(t, width)),
        None => None,
    }
}

fn push_opt_badge(spans: &mut Vec<Span>, text: &Option<String>, bg: Color)
    ensures
        span_views(final(spans)@) == span_views(old(spans)@) + opt_badge(opt_text(*text), bg),
{
    let ghost before = span_views(spans@);
    match text {
        Some(t) => {
            push_span(
                spans,
                glue3(" ", t.as_str(), " ").as_str(),
                Style::badge(Color::Black, bg),
            );
            push_span(spans, " ", Style::plain());
            assert(span_views(spans@) =~= before + opt_badge(opt_text(*text), bg));
        },
        None => {
            assert(span_views(spans@) =~= before + opt_badge(opt_text(*text), bg));
        },
    }
}

fn clip_option(text: &Option<String>, width: usize) -> (r: Option<String>)
    ensures
        opt_text(r) == opt_clipped(opt_text(*text), width as int),
{
    match text {
        Some(t) => Some(clip_tui_text(t.as_str(), width)),
        None => None,
    }
}

/// The filters as badges.
pub open spec fn filter_badges(f: FilterContent) -> Seq<(Seq<char>, Style)> {
    opt_badge(f.month, Color::Yellow) + opt_badge(f.account_id, Color::Blue) + opt_badge(
        opt_clipped(f.merchant, 18),
        Color::Magenta,
    ) + opt_badge(opt_clipped(f.category, 18), Color::Green)
}

/// The second line of the header: the filters.
pub open spec fn filter_line(f: FilterContent) -> Seq<(Seq<char>, Style)> {
    let badges = filter_badges(f);
    if badges.len() == 0 {
        seq![("  sem filtros"@, colored(Color::DarkGray))]
    } else {
        seq![raw_span("  "@)] + badges
    }
}

fn make_filter_line(session: &ReviewTuiSession) -> (r: Vec<Span>)
    ensures
        span_views(r@) == filter_line(session@.filters),
{
    let f = &session.filters;
    let mut badges: Vec<Span> = Vec::new();
    push_span(&mut badges, "  ", Style::plain());
    let ghost lead = seq![raw_span("  "@)];
    assert(span_views(badges@) =~= lead);
    push_opt_badge(&mut badges, &f.month, Color::Yellow);
    push_opt_badge(&mut badges, &f.account_id, Color::Blue);
    push_opt_badge(&mut badges, &clip_option(&f.merchant, 18), Color::Magenta);
    push_opt_badge(&mut badges, &clip_option(&f.category, 18), Color::Green);
    assert(span_views(badges@) =~= lead + filter_badges(session@.filters));
    assert(span_views(badges@).len() == badges@.len());
    if badges.len() == 1 {
        let mut out: Vec<Span> = Vec::new();
        push_span(&mut out, "  sem filtros", Style::colored(Color::DarkGray));
        assert(span_views(out@) =~= filter_line(session@.filters));
        out
    } else {
        badges
    }
}

/// Which transactions the queue shows.
pub open spec fn mode_badge(include_reviewed: bool) -> (Seq<char>, Style) {
    if include_reviewed {
        (" todas "@, badge(Color::Black, Color::LightMagenta))
    } else {
        (" pendentes "@, badge(Color::Black, Color::LightYellow))
    }
}

/// The badges that show only at times: bulk mode, saves under way, an error.
pub open spec fn state_badges(s: SessionContent) -> Seq<(Seq<char>, Style)> {
    let bulk = if s.bulk_mode {
        seq![
            raw_span("  "@),
            (
                " BULK · "@ + digits(s.bulk_ids.len()) + " "@,
                badge(Color::White, Color::Magenta),
            ),
        ]
    } else {
        Seq::empty()
    };
    let pending = if s.pending_save_count > 0 {
        seq![
            raw_span("  "@),
            (
                " ⟳ salvando "@ + digits(s.pending_save_count as nat) + " "@,
                badge(Color::Black, Color::LightBlue),
            ),
        ]
    } else {
        Seq::empty()
    };
    let error = match s.last_save_error {
        Some(e) => seq![
            raw_span("  "@),
            (" ⚠ "@ + clipped(e, 60) + " "@, badge(Color::White, Color::Red)),
        ],
        None => Seq::empty(),
    };
    bulk + pending + error
}

fn push_state_badges(spans: &mut Vec<Span>, session: &ReviewTuiSession)
    ensures
        span_views(final(spans)@) == span_views(old(spans)@) + state_badges(session@),
{
    let ghost start = span_views(spans@);
    assert(texts(session.bulk_ids@).len() == session.bulk_ids@.len());
    if session.bulk_mode {
        push_span(spans, "  ", Style::plain());
        push_span(
            spans,
            glue3(" BULK · ", number(session.bulk_ids.len() as u64).as_str(), " ").as_str(),
            Style::badge(Color::White, Color::Magenta),
        );
    }
    if session.pending_save_count > 0 {
        push_span(spans, "  ", Style::plain());
        push_span(
            spans,
            glue3(" ⟳ salvando ", number(session.pending_save_count as u64).as_str(), " ").as_str(),
            Style::badge(Color::Black, Color::LightBlue),
        );
    }
    match &session.last_save_error {
        Some(e) => {
            push_span(spans, "  ", Style::plain());
            push_span(
                spans,
                glue3(" ⚠ ", clip_tui_text(e.as_str(), 60).as_str(), " ").as_str(),
                Style::badge(Color::White, Color::Red),
            );
        },
        None => {},
    }
    assert(span_views(spans@) =~= start + state_badges(session@));
}

/// What is going on.
pub open spec fn processing_span(processing: Option<Seq<char>>, tick: int) -> (Seq<char>, Style) {
    match processing {
        Some(label) => (
            (if tick % 4 == 0 {
                "-"@
            } else if tick % 4 == 1 {
                "\\"@
            } else if tick % 4 == 2 {
                "|"@
            } else {
                "/"@
            }) + " "@ + label,
            strong(Color::Yellow),
        ),
        None => raw_span(""@),
    }
}

/// What is going on, with a spinner.
pub fn review_tui_processing_span(processing: &Option<String>, spinner_tick: usize) -> (r: Span)
    ensures
        r@ == processing_span(opt_text(*processing), spinner_tick as int),
{
    match processing {
        Some(label) => {
            let k: usize = spinner_tick % 4;
            let spinner = if k == 0 {
                "-"
            } else if k == 1 {
                "\\"
            } else if k == 2 {
                "|"
            } else {
                "/"
            };
            Span {
                text: glue3(spinner, " ", label.as_str()),
                style: Style::strong(Color::Yellow),
            }
        },
        None => Span { text: "".to_string(), style: Style::plain() },
    }
}

/// What is missing, in words.
pub open spec fn missing_text(s: ReviewHumanSummary) -> Seq<char> {
    "desc "@ + crate::date::signed_text(s.missing_description_count as int) + " · merchant "@
        + crate::date::signed_text(s.missing_merchant_count as int) + " · propósito "@
        + crate::date::signed_text(s.missing_purpose_count as int)
}

fn make_missing_text(s: &ReviewHumanSummary) -> (r: String)
    ensures
        r@ == missing_text(*s),
{
    let mut out = chars("desc ");
    put(&mut out, crate::date::signed_number(s.missing_description_count).as_str());
    put(&mut out, " · merchant ");
    put(&mut out, crate::date::signed_number(s.missing_merchant_count).as_str());
    put(&mut out, " · propósito ");
    put(&mut out, crate::date::signed_number(s.missing_purpose_count).as_str());
    assert(out@ =~= missing_text(*s));
    from_chars(&out)
}

/// The first line of the header: where the review stands.
pub open spec fn state_line(
    s: SessionContent,
    total: int,
    summary: ReviewHumanSummary,
    processing: Option<Seq<char>>,
    tick: int,
) -> Seq<(Seq<char>, Style)> {
    seq![
        (" fin "@, badge(Color::Black, Color::Cyan)),
        raw_span("  "@),
        (
            " "@ + digits((s.index + 1) as nat) + "/"@ + digits(total as nat) + " "@,
            badge(Color::Black, Color::White),
        ),
        raw_span("  "@),
        mode_badge(s.include_reviewed),
    ] + state_badges(s) + seq![
        raw_span("  "@),
        (missing_text(summary), colored(Color::DarkGray)),
        raw_span("  "@),
        processing_span(processing, tick),
    ]
}

fn make_state_line(
    session: &ReviewTuiSession,
    total: usize,
    summary: &ReviewHumanSummary,
    processing: &Option<String>,
    tick: usize,
) -> (r: Vec<Span>)
    requires
        session.index < total,
    ensures
        span_views(r@) == state_line(
            session@,
            total as int,
            *summary,
            opt_text(*processing),
            tick as int,
        ),
{
    let mut spans: Vec<Span> = Vec::new();
    push_span(&mut spans, " fin ", Style::badge(Color::Black, Color::Cyan));
    push_span(&mut spans, "  ", Style::plain());
    let place = glue3(
        number(session.index as u64 + 1).as_str(),
        "/",
        number(total as u64).as_str(),
    );
    push_span(
        &mut spans,
        glue3(" ", place.as_str(), " ").as_str(),
        Style::badge(Color::Black, Color::White),
    );
    proof {
        assert(" "@ + place@ + " "@ =~= " "@ + digits((session@.index + 1) as nat) + "/"@ + digits(
            total as nat,
        ) + " "@);
    }
    push_span(&mut spans, "  ", Style::plain());
    if session.include_reviewed {
        push_span(&mut spans, " todas ", Style::badge(Color::Black, Color::LightMagenta));
    } else {
        push_span(&mut spans, " pendentes ", Style::badge(Color::Black, Color::LightYellow));
    }
    push_state_badges(&mut spans, session);
    push_span(&mut spans, "  ", Style::plain());
    push_span(&mut spans, make_missing_text(summary).as_str(), Style::colored(Color::DarkGray));
    push_span(&mut spans, "  ", Style::plain());
    let work = review_tui_processing_span(processing, tick);
    push_span(&mut spans, work.text.as_str(), work.style);
    assert(span_views(spans@) =~= state_line(
        session@,
        total as int,
        *summary,
        opt_text(*processing),
        tick as int,
    ));
    spans
}

/// The header of a review.
pub fn draw_review_tui_header(
    session: &ReviewTuiSession,
    total: usize,
    summary: &ReviewHumanSummary,
    processing: &Option<String>,
    spinner_tick: usize,
) -> (r: Vec<ScreenLine>)
    requires
        session.index < total,
    ensures
        line_views(r@) == seq![
            line_of(
                state_line(
                    session@,
                    total as int,
                    *summary,
                    opt_text(*processing),
                    spinner_tick as int,
                ),
            ),
            line_of(filter_line(session@.filters)),
        ],
{
    let mut out: Vec<ScreenLine> = Vec::new();
    assert(line_views(out@) =~= Seq::empty());
    push_line(&mut out, make_state_line(session, total, summary, processing, spinner_tick));
    push_line(&mut out, make_filter_line(session));
    assert(line_views(out@) =~= seq![
        line_of(
            state_line(
                session@,
                total as int,
                *summary,
                opt_text(*processing),
                spinner_tick as int,
            ),
        ),
        line_of(filter_line(session@.filters)),
    ]);
    out
}

// ---------------------------------------------------------------------------
// The filter menu

/// The merchant that the filter menu offers.
pub open spec fn offered_merchant(row: TransactionRecord) -> Seq<char> {
    match row.merchant_name {
        Some(m) => if trimmed(m@).len() > 0 {
            m@
        } else {
            row.raw_description@
        },
        None => row.raw_description@,
    }
}

pub open spec fn or_text(o: Option<String>, other: Seq<char>) -> Seq<char> {
    match o {
        Some(s) => s@,
        None => other,
    }
}

pub open spec fn menu_line(key: Seq<char>, name: Seq<char>, value: Seq<char>) -> (
    Seq<(Seq<char>, Style)>,
    Style,
) {
    line_of(
        seq![
            (key, strong(Color::Cyan)),
            (name, colored(Color::DarkGray)),
            (value, colored(Color::White)),
        ],
    )
}

pub open spec fn blank_line() -> (Seq<(Seq<char>, Style)>, Style) {
    line_of(seq![raw_span(""@)])
}

/// The filter menu.
pub open spec fn filter_menu(row: TransactionRecord, told: Seq<char>) -> Seq<
    (Seq<(Seq<char>, Style)>, Style),
> {
    seq![
        line_of(seq![(" Filtrar fila "@, badge(Color::Black, Color::Cyan))]),
        blank_line(),
        menu_line(
            "  m "@,
            "mês       "@,
            "→ seletor  (atual: "@ + month_text(row.transaction_date) + ")"@,
        ),
        menu_line("  a "@, "conta     "@, or_text(row.account_id, "sem-conta"@)),
        menu_line("  c "@, "categoria "@, or_text(row.category_id, "sem-categoria"@)),
        menu_line("  e "@, "merchant  "@, clipped(offered_merchant(row), 30)),
        blank_line(),
        line_of(
            seq![
                ("  0 "@, strong(Color::Cyan)),
                ("limpar todos os filtros"@, colored(Color::DarkGray)),
            ],
        ),
        line_of(
            seq![("  Esc "@, strong(Color::Cyan)), ("fechar"@, colored(Color::DarkGray))],
        ),
        blank_line(),
        line_of(seq![("  ▸ "@ + told, strong(Color::Yellow))]),
    ]
}

fn push_menu_line(out: &mut Vec<ScreenLine>, key: &str, name: &str, value: &str)
    ensures
        line_views(final(out)@) == line_views(old(out)@).push(menu_line(key@, name@, value@)),
{
    let mut spans: Vec<Span> = Vec::new();
    push_span(&mut spans, key, Style::strong(Color::Cyan));
    push_span(&mut spans, name, Style::colored(Color::DarkGray));
    push_span(&mut spans, value, Style::colored(Color::White));
    assert(span_views(spans@) =~= menu_line(key@, name@, value@).0);
    push_line(out, spans);
}

fn push_hint_line(out: &mut Vec<ScreenLine>, key: &str, name: &str)
    ensures
        line_views(final(out)@) == line_views(old(out)@).push(
            line_of(seq![(key@, strong(Color::Cyan)), (name@, colored(Color::DarkGray))]),
        ),
{
    let mut spans: Vec<Span> = Vec::new();
    push_span(&mut spans, key, Style::strong(Color::Cyan));
    push_span(&mut spans, name, Style::colored(Color::DarkGray));
    assert(span_views(spans@) =~= seq![
        (key@, strong(Color::Cyan)),
        (name@, colored(Color::DarkGray)),
    ]);
    push_line(out, spans);
}

/// The filter menu of a review.
pub fn draw_review_tui_filter_modal(row: &TransactionRecord, session: &ReviewTuiSession) -> (r: Vec<
    ScreenLine,
>)
    ensures
        line_views(r@) == filter_menu(*row, session.filters.told()),
{
    let mut out: Vec<ScreenLine> = Vec::new();
    assert(line_views(out@) =~= Seq::empty());
    push_single(&mut out, " Filtrar fila ", Style::badge(Color::Black, Color::Cyan));
    push_single(&mut out, "", Style::plain());
    let month = glue3("→ seletor  (atual: ", month_ref_for(&row.transaction_date).as_str(), ")");
    push_menu_line(&mut out, "  m ", "mês       ", month.as_str());
    let account = match &row.account_id {
        Some(a) => a.as_str(),
        None => "sem-conta",
    };
    push_menu_line(&mut out, "  a ", "conta     ", account);
    let category = match &row.category_id {
        Some(c) => c.as_str(),
        None => "sem-categoria",
    };
    push_menu_line(&mut out, "  c ", "categoria ", category);
    let merchant = match &row.merchant_name {
        Some(m) => if is_blank(m.as_str()) {
            row.raw_description.as_str()
        } else {
            m.as_str()
        },
        None => row.raw_description.as_str(),
    };
    push_menu_line(&mut out, "  e ", "merchant  ", clip_tui_text(merchant, 30).as_str());
    push_single(&mut out, "", Style::plain());
    push_hint_line(&mut out, "  0 ", "limpar todos os filtros");
    push_hint_line(&mut out, "  Esc ", "fechar");
    push_single(&mut out, "", Style::plain());
    push_single(
        &mut out,
        glue("  ▸ ", session.filters.summary().as_str()).as_str(),
        Style::strong(Color::Yellow),
    );
    assert(line_views(out@) =~= filter_menu(*row, session.filters.told()));
    out
}

// ---------------------------------------------------------------------------
// The queue

/// The part of a list that is shown round a position: from where, and to where.
pub open spec fn shown_range(index: int, len: int, visible: int) -> (int, int) {
    let start = if index >= visible / 2 {
        index - visible / 2
    } else {
        0
    };
    (start, least(start + visible, len))
}

/// The part of a list that is shown round a position.
pub fn visible_range(index: usize, len: usize, visible: usize) -> (r: (usize, usize))
    requires
        index < len,
    ensures
        (r.0 as int, r.1 as int) == shown_range(index as int, len as int, visible as int),
        r.0 <= r.1 <= len,
        visible >= 1 ==> r.0 <= index < r.1,
{
    let half: usize = visible / 2;
    let start: usize = if index >= half {
        index - half
    } else {
        0
    };
    let end: usize = if visible < len - start {
        start + visible
    } else {
        len
    };
    (start, end)
}

/// The widest amount of the rows.
pub open spec fn amount_width(rows: Seq<TransactionRecord>) -> int
    decreases rows.len(),
{
    if rows.len() == 0 {
        0
    } else {
        let before = amount_width(rows.drop_last());
        let n = brl_text(rows.last().amount).len() as int;
        if n > before {
            n
        } else {
            before
        }
    }
}

fn find_amount_width(rows: &Vec<TransactionRecord>) -> (r: usize)
    ensures
        r == amount_width(rows@),
{
    let mut widest: usize = 0;
    let mut i: usize = 0;
    assert(rows@.take(0) =~= Seq::<TransactionRecord>::empty());
    while i < rows.len()
        invariant
            i <= rows.len(),
            widest == amount_width(rows@.take(i as int)),
        decreases rows.len() - i,
    {
        assert(rows@.take(i + 1).drop_last() =~= rows@.take(i as int));
        let n = count_chars(brl(rows[i].amount).as_str());
        if n > widest {
            widest = n;
        }
        i = i + 1;
    }
    assert(rows@.take(i as int) =~= rows@);
    widest
}

pub open spec fn at_least(n: int, least_one: int) -> int {
    if n < least_one {
        least_one
    } else {
        n
    }
}

/// What is left of a width.
pub open spec fn room(width: int, used: int) -> int {
    if width > used {
        width - used
    } else {
        0
    }
}

/// A row of the queue.
pub open spec fn queue_line(
    row: TransactionRecord,
    at: int,
    selected: bool,
    index_width: int,
    amounts: int,
    width: int,
) -> (Seq<(Seq<char>, Style)>, Style) {
    (
        seq![
            (
                if selected {
                    ">"@
                } else {
                    " "@
                },
                colored(Color::Cyan),
            ),
            raw_span(" "@),
            (padded_start(digits((at + 1) as nat), index_width), colored(Color::DarkGray)),
            raw_span(" "@),
            raw_span(emoji_of(text_or_empty(row.category_id))),
            raw_span(" "@),
            (padded_start(brl_text(row.amount), amounts), amount_style(row.amount)),
            raw_span(" "@),
            raw_span(
                clipped(row.shown(), at_least(room(width, 5 + index_width + amounts), 12)),
            ),
        ],
        selection_style(selected),
    )
}

pub open spec fn selection_style(selected: bool) -> Style {
    if selected {
        Style { fg: Color::White, bg: Color::Rgb(34, 48, 64), bold: true }
    } else {
        colored(Color::Gray)
    }
}

/// The style of a row, selected or not.
pub fn row_style(selected: bool) -> (r: Style)
    ensures
        r == selection_style(selected),
{
    if selected {
        Style { fg: Color::White, bg: Color::Rgb(34, 48, 64), bold: true }
    } else {
        Style::colored(Color::Gray)
    }
}

fn make_queue_line(
    row: &TransactionRecord,
    at: usize,
    selected: bool,
    index_width: usize,
    amounts: usize,
    width: usize,
) -> (r: ScreenLine)
    requires
        at < usize::MAX,
        index_width <= 20,
        amounts <= usize::MAX - 25,
    ensures
        r@ == queue_line(
            *row,
            at as int,
            selected,
            index_width as int,
            amounts as int,
            width as int,
        ),
{
    let mut spans: Vec<Span> = Vec::new();
    push_span(
        &mut spans,
        if selected {
            ">"
        } else {
            " "
        },
        Style::colored(Color::Cyan),
    );
    push_span(&mut spans, " ", Style::plain());
    push_span(
        &mut spans,
        pad_start(number(at as u64 + 1).as_str(), index_width).as_str(),
        Style::colored(Color::DarkGray),
    );
    push_span(&mut spans, " ", Style::plain());
    push_span(
        &mut spans,
        category_emoji(or_empty(&row.category_id).as_str()),
        Style::plain(),
    );
    push_span(&mut spans, " ", Style::plain());
    push_span(
        &mut spans,
        pad_start(brl(row.amount).as_str(), amounts).as_str(),
        amount_tui_style(row.amount),
    );
    push_span(&mut spans, " ", Style::plain());
    let used: usize = 5 + index_width + amounts;
    let left: usize = if width > used {
        width - used
    } else {
        0
    };
    let label = clip_tui_text(
        row.display_description(),
        if left < 12 {
            12
        } else {
            left
        },
    );
    push_span(&mut spans, label.as_str(), Style::plain());
    assert(span_views(spans@) =~= queue_line(
        *row,
        at as int,
        selected,
        index_width as int,
        amounts as int,
        width as int,
    ).0);
    ScreenLine { spans, style: row_style(selected) }
}

/// The width of the numbers of the queue.
pub open spec fn number_width(total: int) -> int {
    at_least(digits(total as nat).len() as int, 2)
}

/// The rows of the queue that are shown.
pub open spec fn queue_lines(
    rows: Seq<TransactionRecord>,
    index: int,
    height: int,
    width: int,
) -> Seq<(Seq<(Seq<char>, Style)>, Style)> {
    let (start, end) = shown_range(index, rows.len() as int, at_least(height - 2, 1));
    Seq::new(
        (end - start) as nat,
        |k: int|
            queue_line(
                rows[start + k],
                start + k,
                start + k == index,
                number_width(rows.len() as int),
                amount_width(rows),
                width,
            ),
    )
}

proof fn lemma_digits_few(n: nat)
    requires
        n <= u64::MAX,
    ensures
        digits(n).len() <= 20,
{
    reveal_with_fuel(crate::amount::pow10, 21);
    crate::amount::lemma_digits_len(n, 20);
}

/// The queue of a review.
pub fn draw_review_tui_queue(
    rows: &Vec<TransactionRecord>,
    index: usize,
    height: usize,
    width: usize,
) -> (r: Vec<ScreenLine>)
    requires
        index < rows@.len(),
        amount_width(rows@) <= usize::MAX - 25,
    ensures
        line_views(r@) == queue_lines(rows@, index as int, height as int, width as int),
{
    let visible: usize = if height > 3 {
        height - 2
    } else {
        1
    };
    let (start, end) = visible_range(index, rows.len(), visible);
    let total_width = count_chars(number(rows.len() as u64).as_str());
    proof {
        lemma_digits_few(rows@.len() as nat);
    }
    let index_width: usize = if total_width < 2 {
        2
    } else {
        total_width
    };
    let amounts = find_amount_width(rows);
    let ghost want = queue_lines(rows@, index as int, height as int, width as int);
    let mut out: Vec<ScreenLine> = Vec::new();
    let mut k: usize = start;
    assert(line_views(out@) =~= want.take(0));
    while k < end
        invariant
            start <= k <= end <= rows.len(),
            index < rows@.len(),
            index_width <= 20,
            amounts <= usize::MAX - 25,
            want.len() == end - start,
            forall|j: int|
                0 <= j < want.len() ==> #[trigger] want[j] == queue_line(
                    rows@[start + j],
                    start + j,
                    start + j == index,
                    index_width as int,
                    amounts as int,
                    width as int,
                ),
            line_views(out@) == want.take(k - start),
        decreases end - k,
    {
        let ghost before = line_views(out@);
        let line = make_queue_line(&rows[k], k, k == index, index_width, amounts, width);
        out.push(line);
        assert(line@ == want[k - start]);
        assert(line_views(out@) =~= before.push(line@));
        k = k + 1;
        assert(line_views(out@) =~= want.take(k - start));
    }
    assert(want.take(end - start) =~= want);
    out
}

// ---------------------------------------------------------------------------
// The bulk panel

pub open spec fn target_line(row: TransactionRecord, width: int) -> (Seq<(Seq<char>, Style)>, Style) {
    let date = day_month_text(row.transaction_date);
    let amount = brl_text(row.amount);
    line_of(
        seq![
            (date, colored(Color::Yellow)),
            raw_span(" "@),
            raw_span(emoji_of(text_or_empty(row.category_id))),
            raw_span(" "@),
            raw_span(
                clipped(
                    row.raw_description@,
                    at_least(room(width, (date.len() + 4 + amount.len() + 2) as int), 8),
                ),
            ),
            raw_span(" "@),
            (amount, amount_style(row.amount)),
        ],
    )
}

/// The transactions that a save changes.
pub open spec fn bulk_lines(targets: Seq<TransactionRecord>, visible: int, width: int) -> Seq<
    (Seq<(Seq<char>, Style)>, Style),
> {
    let fit = room(visible, 2);
    if targets.len() == 0 {
        seq![
            line_of(
                seq![("(nenhuma transação com mesma descrição)"@, colored(Color::DarkGray))],
            ),
        ]
    } else {
        seq![
            line_of(seq![("Aplicar ao salvar:"@, strong(Color::LightMagenta))]),
            blank_line(),
        ] + Seq::new(
            least(fit, targets.len() as int) as nat,
            |k: int| target_line(targets[k], width),
        ) + (if targets.len() > fit {
            seq![
                line_of(
                    seq![
                        (
                            "… +"@ + digits((targets.len() - fit) as nat) + " mais"@,
                            colored(Color::DarkGray),
                        ),
                    ],
                ),
            ]
        } else {
            Seq::empty()
        })
    }
}

fn push_target_line(out: &mut Vec<ScreenLine>, row: &TransactionRecord, width: usize)
    ensures
        line_views(final(out)@) == line_views(old(out)@).push(target_line(*row, width as int)),
{
    let date = day_month(&row.transaction_date);
    let amount = brl(row.amount);
    let a = count_chars(date.as_str());
    let b = count_chars(amount.as_str());
    let mut left: usize = width;
    left = if left > a {
        left - a
    } else {
        0
    };
    left = if left > b {
        left - b
    } else {
        0
    };
    left = if left > 6 {
        left - 6
    } else {
        0
    };
    let mut spans: Vec<Span> = Vec::new();
    push_span(&mut spans, date.as_str(), Style::colored(Color::Yellow));
    push_span(&mut spans, " ", Style::plain());
    push_span(
        &mut spans,
        category_emoji(or_empty(&row.category_id).as_str()),
        Style::plain(),
    );
    push_span(&mut spans, " ", Style::plain());
    push_span(
        &mut spans,
        clip_tui_text(
            row.raw_description.as_str(),
            if left < 8 {
                8
            } else {
                left
            },
        ).as_str(),
        Style::plain(),
    );
    push_span(&mut spans, " ", Style::plain());
    push_span(&mut spans, amount.as_str(), amount_tui_style(row.amount));
    assert(span_views(spans@) =~= target_line(*row, width as int).0);
    push_line(out, spans);
}

/// The panel with the transactions that a save changes.
pub fn draw_review_tui_bulk_panel(targets: &Vec<TransactionRecord>, visible: usize, width: usize) -> (r:
    Vec<ScreenLine>)
    ensures
        line_views(r@) == bulk_lines(targets@, visible as int, width as int),
{
    let mut out: Vec<ScreenLine> = Vec::new();
    assert(line_views(out@) =~= Seq::empty());
    if targets.len() == 0 {
        push_single(
            &mut out,
            "(nenhuma transação com mesma descrição)",
            Style::colored(Color::DarkGray),
        );
        assert(line_views(out@) =~= bulk_lines(targets@, visible as int, width as int));
        return out;
    }
    let fit: usize = if visible > 2 {
        visible - 2
    } else {
        0
    };
    push_single(&mut out, "Aplicar ao salvar:", Style::strong(Color::LightMagenta));
    push_single(&mut out, "", Style::plain());
    let ghost head = line_views(out@);
    let ghost body = Seq::new(
        least(fit as int, targets@.len() as int) as nat,
        |k: int| target_line(targets@[k], width as int),
    );
    assert(head =~= seq![
        line_of(seq![("Aplicar ao salvar:"@, strong(Color::LightMagenta))]),
        blank_line(),
    ]);
    let mut k: usize = 0;
    assert(head + body.take(0) =~= head);
    while k < targets.len() && k < fit
        invariant
            k <= targets.len(),
            k <= fit,
            body == Seq::new(
                least(fit as int, targets@.len() as int) as nat,
                |j: int| target_line(targets@[j], width as int),
            ),
            line_views(out@) == head + body.take(k as int),
        decreases targets.len() - k,
    {
        push_target_line(&mut out, &targets[k], width);
        k = k + 1;
        assert(line_views(out@) =~= head + body.take(k as int));
    }
    assert(body.take(k as int) =~= body);
    if targets.len() > fit {
        push_single(
            &mut out,
            glue3("… +", number((targets.len() - fit) as u64).as_str(), " mais").as_str(),
            Style::colored(Color::DarkGray),
        );
    }
    assert(line_views(out@) =~= bulk_lines(targets@, visible as int, width as int));
    out
}

// ---------------------------------------------------------------------------
// The card of a transaction

/// A text without white space round it, unless nothing is left.
pub fn non_empty_text(value: &Option<String>) -> (r: Option<String>)
    ensures
        opt_text(r) == (match *value {
            Some(v) => if trimmed(v@).len() > 0 {
                Some(trimmed(v@))
            } else {
                None
            },
            None => None,
        }),
{
    match value {
        Some(v) => {
            let t = trim(v.as_str());
            if t.as_str().is_empty() {
                None
            } else {
                Some(t)
            }
        },
        None => None,
    }
}

/// How the category of a row reads.
pub open spec fn category_label(row: TransactionRecord) -> Seq<char> {
    match row.category_id {
        Some(c) => replaced(c@, ':', " > "@),
        None => "sem-categoria"@,
    }
}

/// How the category of a row reads.
pub fn category_tui_label(row: &TransactionRecord) -> (r: String)
    ensures
        r@ == category_label(*row),
{
    match &row.category_id {
        Some(c) => replace_char(c.as_str(), ':', " > "),
        None => "sem-categoria".to_string(),
    }
}

pub open spec fn mcc_path() -> Seq<Seq<char>> {
    seq!["raw"@, "creditCardMetadata"@, "payeeMCC"@]
}

pub open spec fn receiver_path() -> Seq<Seq<char>> {
    seq!["raw"@, "paymentData"@, "receiver"@, "name"@]
}

pub open spec fn told_bit(name: Seq<char>, value: Option<Seq<char>>) -> Seq<Seq<char>> {
    match value {
        Some(v) => seq![name + v],
        None => Seq::empty(),
    }
}

/// What the feed tells of a row beside its texts.
pub open spec fn metadata_bits(row: TransactionRecord, hour: Option<Seq<char>>) -> Seq<Seq<char>> {
    told_bit("hora: "@, hour) + told_bit("MCC: "@, text_at(row.metadata_json, mcc_path()))
        + told_bit("receiver: "@, text_at(row.metadata_json, receiver_path()))
}

fn push_bit(bits: &mut Vec<String>, name: &str, value: &Option<String>)
    ensures
        texts(final(bits)@) == texts(old(bits)@) + told_bit(name@, opt_text(*value)),
{
    let ghost before = texts(bits@);
    match value {
        Some(v) => {
            push_text(bits, glue(name, v.as_str()));
        },
        None => {},
    }
    assert(texts(bits@) =~= before + told_bit(name@, opt_text(*value)));
}

/// What the feed tells of a row beside its texts.
pub fn review_tui_metadata_bits(row: &TransactionRecord, raw_hour: &Option<String>) -> (r: Vec<
    String,
>)
    ensures
        texts(r@) == metadata_bits(*row, opt_text(*raw_hour)),
{
    let mut bits: Vec<String> = Vec::new();
    assert(texts(bits@) =~= Seq::<Seq<char>>::empty());
    push_bit(&mut bits, "hora: ", raw_hour);
    let mcc = ["raw", "creditCardMetadata", "payeeMCC"];
    assert(paths(mcc@) =~= mcc_path());
    push_bit(&mut bits, "MCC: ", &metadata_text(&row.metadata_json, &mcc));
    let receiver = ["raw", "paymentData", "receiver", "name"];
    assert(paths(receiver@) =~= receiver_path());
    push_bit(&mut bits, "receiver: ", &metadata_text(&row.metadata_json, &receiver));
    assert(texts(bits@) =~= metadata_bits(*row, opt_text(*raw_hour)));
    bits
}

pub open spec fn labeled_line(label: Seq<char>, value: Seq<char>, width: int) -> (
    Seq<(Seq<char>, Style)>,
    Style,
) {
    line_of(
        seq![
            (padded_end(label, 19), colored(Color::DarkGray)),
            raw_span(clipped(value, room(width, 19))),
        ],
    )
}

fn push_labeled_line(out: &mut Vec<ScreenLine>, label: &str, value: &str, width: usize)
    ensures
        line_views(final(out)@) == line_views(old(out)@).push(
            labeled_line(label@, value@, width as int),
        ),
{
    let mut spans: Vec<Span> = Vec::new();
    push_span(&mut spans, pad_end(label, 19).as_str(), Style::colored(Color::DarkGray));
    push_span(
        &mut spans,
        clip_tui_text(
            value,
            if width > 19 {
                width - 19
            } else {
                0
            },
        ).as_str(),
        Style::plain(),
    );
    assert(span_views(spans@) =~= labeled_line(label@, value@, width as int).0);
    push_line(out, spans);
}

/// The first line of a card.
pub open spec fn card_title(row: TransactionRecord) -> Seq<(Seq<char>, Style)> {
    seq![
        raw_span(emoji_of(text_or_empty(row.category_id))),
        raw_span(" "@),
        (brl_text(row.amount), amount_style(row.amount)),
        raw_span("   "@),
        (iso_text(row.transaction_date), colored(Color::Yellow)),
    ] + (if trimmed(text_or_empty(row.category_id)).len() > 0 {
        seq![raw_span("   "@), (category_label(row), colored(Color::Cyan))]
    } else {
        Seq::empty()
    })
}

fn make_card_title(row: &TransactionRecord) -> (r: Vec<Span>)
    ensures
        span_views(r@) == card_title(*row),
{
    let category = or_empty(&row.category_id);
    let mut spans: Vec<Span> = Vec::new();
    push_span(&mut spans, category_emoji(category.as_str()), Style::plain());
    push_span(&mut spans, " ", Style::plain());
    push_span(&mut spans, brl(row.amount).as_str(), amount_tui_style(row.amount));
    push_span(&mut spans, "   ", Style::plain());
    push_span(
        &mut spans,
        iso(&row.transaction_date).as_str(),
        Style::colored(Color::Yellow),
    );
    if !is_blank(category.as_str()) {
        push_span(&mut spans, "   ", Style::plain());
        push_span(&mut spans, category_tui_label(row).as_str(), Style::colored(Color::Cyan));
    }
    assert(span_views(spans@) =~= card_title(*row));
    spans
}

/// The lines of a card above its fields.
pub open spec fn card_head(row: TransactionRecord, hour: Option<Seq<char>>, width: int) -> Seq<
    (Seq<(Seq<char>, Style)>, Style),
> {
    let account = trimmed(text_or_empty(row.account_id));
    let bits = metadata_bits(row, hour);
    seq![line_of(card_title(row))] + (if account.len() > 0 {
        seq![labeled_line("Conta"@, account, width)]
    } else {
        Seq::empty()
    }) + seq![labeled_line("Descrição original"@, row.raw_description@, width)] + (if bits.len()
        > 0 {
        seq![labeled_line("Metadados"@, joined(bits, " | "@), width)]
    } else {
        Seq::empty()
    }) + seq![blank_line()]
}

fn make_card_head(row: &TransactionRecord, raw_hour: &Option<String>, width: usize) -> (r: Vec<
    ScreenLine,
>)
    ensures
        line_views(r@) == card_head(*row, opt_text(*raw_hour), width as int),
        r@.len() <= 5,
{
    let mut out: Vec<ScreenLine> = Vec::new();
    assert(line_views(out@) =~= Seq::empty());
    push_line(&mut out, make_card_title(row));
    let account = trim(or_empty(&row.account_id).as_str());
    if !account.as_str().is_empty() {
        push_labeled_line(&mut out, "Conta", account.as_str(), width);
    }
    push_labeled_line(&mut out, "Descrição original", row.raw_description.as_str(), width);
    let bits = review_tui_metadata_bits(row, raw_hour);
    assert(texts(bits@).len() == bits@.len());
    if bits.len() > 0 {
        push_labeled_line(&mut out, "Metadados", join(&bits, " | ").as_str(), width);
    }
    push_single(&mut out, "", Style::plain());
    assert(line_views(out@) =~= card_head(*row, opt_text(*raw_hour), width as int));
    assert(line_views(out@).len() == out@.len());
    out
}

pub open spec fn larger(a: int, b: int) -> int {
    if a < b {
        b
    } else {
        a
    }
}

/// The width of the names of the fields.
pub open spec fn label_width() -> int {
    larger(
        larger(
            label_of(ReviewTuiField::Merchant).len() as int,
            label_of(ReviewTuiField::Description).len() as int,
        ),
        larger(
            label_of(ReviewTuiField::Purpose).len() as int,
            label_of(ReviewTuiField::Category).len() as int,
        ),
    ) + 2
}

/// The width of the names of the fields.
pub fn review_tui_card_label_width() -> (r: usize)
    ensures
        r == label_width(),
        r <= 32,
{
    proof {
        reveal_strlit("Estabelecimento");
        reveal_strlit("Descrição humana");
        reveal_strlit("Propósito");
        reveal_strlit("Categoria");
    }
    let mut widest: usize = 0;
    let a = count_chars(ReviewTuiField::Merchant.label());
    let b = count_chars(ReviewTuiField::Description.label());
    let c = count_chars(ReviewTuiField::Purpose.label());
    let d = count_chars(ReviewTuiField::Category.label());
    if a > widest {
        widest = a;
    }
    if b > widest {
        widest = b;
    }
    if c > widest {
        widest = c;
    }
    if d > widest {
        widest = d;
    }
    widest + 2
}

/// The style of a value, edited or not.
pub open spec fn value_style(active: bool) -> Style {
    if active {
        Style { fg: Color::White, bg: Color::Rgb(31, 58, 51), bold: false }
    } else {
        colored(Color::Gray)
    }
}

/// The text of a field as the card shows it.
pub open spec fn card_value(d: DraftContent, field: ReviewTuiField) -> Seq<char> {
    if field == ReviewTuiField::Category {
        d.category_id
    } else {
        d.value_of(field)
    }
}

/// A line of a field.
pub open spec fn field_line(spans: Seq<(Seq<char>, Style)>, active: bool) -> (
    Seq<(Seq<char>, Style)>,
    Style,
) {
    (
        spans,
        if active {
            value_style(true)
        } else {
            plain_style()
        },
    )
}

/// A wrapped line of the purpose.
pub open spec fn purpose_line(chunk: Seq<char>, k: int, active: bool, width: int) -> (
    Seq<(Seq<char>, Style)>,
    Style,
) {
    field_line(
        seq![
            (
                if k == 0 {
                    padded_end(label_of(ReviewTuiField::Purpose), label_width())
                } else {
                    run_of(' ', label_width())
                },
                colored(Color::DarkGray),
            ),
            (
                if active {
                    padded_end(chunk, width)
                } else {
                    chunk
                },
                value_style(active),
            ),
        ],
        active,
    )
}

/// The lines of a field, and where the cursor stands in them.
pub open spec fn field_lines(d: DraftContent, focus_queue: bool, field: ReviewTuiField, width: int) -> (
    Seq<(Seq<(Seq<char>, Style)>, Style)>,
    Option<(int, int)>,
) {
    let active = !focus_queue && d.field() == field;
    let value = card_value(d, field);
    let left = room(width, label_width() + 2);
    if field == ReviewTuiField::Purpose {
        let at = if active {
            least(d.cursor(), value.len() as int)
        } else {
            value.len() as int
        };
        let chunks = wrapped(value, larger(left, 1));
        let (row, col) = wrapped_at(value, at, larger(left, 1));
        (
            Seq::new(chunks.len(), |k: int| purpose_line(chunks[k], k, active, left)),
            if active {
                Some((label_width() + col, row))
            } else {
                None
            },
        )
    } else {
        let edited = active && field != ReviewTuiField::Category;
        let (shown, col) = if edited {
            line_view(value, d.cursor(), left)
        } else {
            (clipped(value, left), 0)
        };
        (
            seq![
                field_line(
                    seq![
                        (padded_end(label_of(field), label_width()), colored(Color::DarkGray)),
                        (shown, value_style(active)),
                        (
                            if active && field == ReviewTuiField::Category {
                                "  Enter abre busca"@
                            } else {
                                ""@
                            },
                            colored(Color::DarkGray),
                        ),
                    ],
                    active,
                ),
            ],
            if edited {
                Some((label_width() + col, 0int))
            } else {
                None
            },
        )
    }
}

fn make_value_style(active: bool) -> (r: Style)
    ensures
        r == value_style(active),
{
    if active {
        Style { fg: Color::White, bg: Color::Rgb(31, 58, 51), bold: false }
    } else {
        Style::colored(Color::Gray)
    }
}

fn line_style(active: bool) -> (r: Style)
    ensures
        r == (if active {
            value_style(true)
        } else {
            plain_style()
        }),
{
    if active {
        make_value_style(true)
    } else {
        Style::plain()
    }
}

fn make_purpose_lines(
    draft: &ReviewTuiDraft,
    active: bool,
    left: usize,
) -> (r: (Vec<ScreenLine>, (usize, usize)))
    requires
        draft.sound(),
        active ==> draft@.field() == ReviewTuiField::Purpose,
    ensures
        ({
            let value = draft@.purpose;
            let at = if active {
                least(draft@.cursor(), value.len() as int)
            } else {
                value.len() as int
            };
            let chunks = wrapped(value, larger(left as int, 1));
            &&& line_views(r.0@) == Seq::new(
                chunks.len(),
                |k: int| purpose_line(chunks[k], k, active, left as int),
            )
            &&& (r.1.0 as int, r.1.1 as int) == wrapped_at(value, at, larger(left as int, 1))
        }),
{
    let cursor = if active {
        draft.active_cursor()
    } else {
        count_chars(draft.purpose.as_str())
    };
    let wide: usize = if left < 1 {
        1
    } else {
        left
    };
    let (parts, place) = wrap_editable_text(draft.purpose.as_str(), cursor, wide);
    let ghost chunks = wrapped(draft@.purpose, wide as int);
    let ghost want = Seq::new(
        chunks.len(),
        |k: int| purpose_line(chunks[k], k, active, left as int),
    );
    let label = ReviewTuiField::Purpose.label();
    let width = review_tui_card_label_width();
    let mut out: Vec<ScreenLine> = Vec::new();
    let mut k: usize = 0;
    assert(line_views(out@) =~= want.take(0));
    assert(parts@.len() == texts(parts@).len());
    while k < parts.len()
        invariant
            k <= parts.len(),
            texts(parts@) == chunks,
            parts@.len() == chunks.len(),
            width == label_width(),
            label@ == label_of(ReviewTuiField::Purpose),
            want == Seq::new(
                chunks.len(),
                |j: int| purpose_line(chunks[j], j, active, left as int),
            ),
            line_views(out@) == want.take(k as int),
        decreases parts.len() - k,
    {
        assert(texts(parts@)[k as int] == parts@[k as int]@);
        let ghost before = line_views(out@);
        let mut spans: Vec<Span> = Vec::new();
        let name = if k == 0 {
            pad_end(label, width)
        } else {
            from_chars(&crate::screen::run_chars(' ', width))
        };
        push_span(&mut spans, name.as_str(), Style::colored(Color::DarkGray));
        let shown = if active {
            pad_end(parts[k].as_str(), left)
        } else {
            parts[k].clone()
        };
        push_span(&mut spans, shown.as_str(), make_value_style(active));
        let line = ScreenLine { spans, style: line_style(active) };
        assert(span_views(line.spans@) =~= want[k as int].0);
        assert(line@ == want[k as int]);
        out.push(line);
        assert(line_views(out@) =~= before.push(want[k as int]));
        k = k + 1;
        assert(line_views(out@) =~= want.take(k as int));
    }
    assert(want.take(k as int) =~= want);
    (out, place)
}

/// The lines of a field, and where the cursor stands in them: column and line.
pub fn review_tui_edit_line(
    draft: &ReviewTuiDraft,
    focus_queue: bool,
    field: ReviewTuiField,
    width: usize,
) -> (r: (Vec<ScreenLine>, Option<(usize, usize)>))
    requires
        draft.sound(),
        width <= usize::MAX - 64,
    ensures
        ({
            let want = field_lines(draft@, focus_queue, field, width as int);
            &&& line_views(r.0@) == want.0
            &&& match r.1 {
                Some((col, row)) => want.1 == Some((col as int, row as int)),
                None => want.1 is None,
            }
        }),
{
    let active = !focus_queue && draft.field() == field;
    let names = review_tui_card_label_width();
    let left: usize = if width > names + 2 {
        width - (names + 2)
    } else {
        0
    };
    if field == ReviewTuiField::Purpose {
        proof {
            let value = draft@.purpose;
            let at = if active {
                least(draft@.cursor(), value.len() as int)
            } else {
                value.len() as int
            };
            crate::draft::law_cursor_in_wrapped_text(value, at, larger(left as int, 1));
            crate::draft::law_wrapped_lines_fit(
                value,
                larger(left as int, 1),
                wrapped_at(value, at, larger(left as int, 1)).0,
            );
        }
        let (out, (row, col)) = make_purpose_lines(draft, active, left);
        return (
            out,
            if active {
                Some((names + col, row))
            } else {
                None
            },
        );
    }
    let value = match field {
        ReviewTuiField::Category => draft.category_id.as_str(),
        _ => tui_field_value(field, draft),
    };
    let edited = active && field != ReviewTuiField::Category;
    let (shown, col): (String, usize) = if edited {
        proof {
            if left > 0 {
                crate::draft::law_cursor_on_line(value@, draft@.cursor(), left as int);
            }
        }
        editable_tui_view(value, draft.active_cursor(), left)
    } else {
        (clip_tui_text(value, left), 0)
    };
    let mut spans: Vec<Span> = Vec::new();
    push_span(
        &mut spans,
        pad_end(field.label(), names).as_str(),
        Style::colored(Color::DarkGray),
    );
    push_span(&mut spans, shown.as_str(), make_value_style(active));
    push_span(
        &mut spans,
        if active && field == ReviewTuiField::Category {
            "  Enter abre busca"
        } else {
            ""
        },
        Style::colored(Color::DarkGray),
    );
    let line = ScreenLine { spans, style: line_style(active) };
    let mut out: Vec<ScreenLine> = Vec::new();
    out.push(line);
    proof {
        let want = field_lines(draft@, focus_queue, field, width as int);
        assert(span_views(line.spans@) =~= want.0[0].0);
        assert(line_views(out@) =~= want.0);
    }
    (
        out,
        if edited {
            Some((names + col, 0))
        } else {
            None
        },
    )
}

/// The lines of the first fields, and where the cursor stands in them.
pub open spec fn all_field_lines(d: DraftContent, focus_queue: bool, width: int, n: int) -> (
    Seq<(Seq<(Seq<char>, Style)>, Style)>,
    Option<(int, int)>,
)
    decreases n,
{
    if n <= 0 {
        (Seq::empty(), None)
    } else {
        let before = all_field_lines(d, focus_queue, width, n - 1);
        let here = field_lines(d, focus_queue, field_at(n - 1), width);
        (
            before.0 + here.0,
            match before.1 {
                Some(p) => Some(p),
                None => match here.1 {
                    Some((col, row)) => Some((col, before.0.len() + row)),
                    None => None,
                },
            },
        )
    }
}

/// The card of a transaction, and where the cursor stands in it.
pub open spec fn card_lines(
    row: TransactionRecord,
    hour: Option<Seq<char>>,
    d: DraftContent,
    focus_queue: bool,
    width: int,
) -> (Seq<(Seq<(Seq<char>, Style)>, Style)>, Option<(int, int)>) {
    let head = card_head(row, hour, room(width, 2));
    let fields = all_field_lines(d, focus_queue, width, FIELD_COUNT as int);
    (
        head + fields.0,
        match fields.1 {
            Some((col, line)) => Some((col, head.len() + line)),
            None => None,
        },
    )
}

fn append_lines(out: &mut Vec<ScreenLine>, more: Vec<ScreenLine>)
    ensures
        line_views(final(out)@) == line_views(old(out)@) + line_views(more@),
        final(out)@.len() == old(out)@.len() + more@.len(),
{
    let ghost before = out@;
    let ghost added = more@;
    let mut rest = more;
    out.append(&mut rest);
    assert(line_views(out@) =~= line_views(before) + line_views(added));
}

/// The card of a transaction, and where the cursor stands in it: column and line.
pub fn review_tui_card_lines(
    row: &TransactionRecord,
    raw_hour: &Option<String>,
    draft: &ReviewTuiDraft,
    focus_queue: bool,
    width: usize,
) -> (r: (Vec<ScreenLine>, Option<(usize, usize)>))
    requires
        draft.sound(),
        width <= usize::MAX - 64,
    ensures
        ({
            let want = card_lines(*row, opt_text(*raw_hour), draft@, focus_queue, width as int);
            &&& line_views(r.0@) == want.0
            &&& match r.1 {
                Some((col, line)) => want.1 == Some((col as int, line as int)),
                None => want.1 is None,
            }
        }),
{
    let mut out = make_card_head(
        row,
        raw_hour,
        if width > 2 {
            width - 2
        } else {
            0
        },
    );
    let ghost head = line_views(out@);
    assert(head.len() == out@.len());
    let mut cursor: Option<(usize, usize)> = None;
    let mut k: usize = 0;
    assert(head + all_field_lines(draft@, focus_queue, width as int, 0).0 =~= head);
    while k < FIELD_COUNT
        invariant
            k <= FIELD_COUNT,
            draft.sound(),
            width <= usize::MAX - 64,
            line_views(out@) == head + all_field_lines(
                draft@,
                focus_queue,
                width as int,
                k as int,
            ).0,
            match cursor {
                Some((col, line)) => match all_field_lines(
                    draft@,
                    focus_queue,
                    width as int,
                    k as int,
                ).1 {
                    Some((c, l)) => col == c && line == head.len() + l,
                    None => false,
                },
                None => all_field_lines(draft@, focus_queue, width as int, k as int).1 is None,
            },
        decreases FIELD_COUNT - k,
    {
        let ghost before = line_views(out@);
        assert(before.len() == out@.len());
        let field = ReviewTuiField::at(k);
        proof {
            lemma_cursor_in_lines(draft@, focus_queue, field, width as int);
        }
        let (lines, place) = review_tui_edit_line(draft, focus_queue, field, width);
        assert(line_views(lines@).len() == lines@.len());
        let start = out.len();
        append_lines(&mut out, lines);
        if cursor.is_none() {
            match place {
                Some((col, line)) => {
                    let end = out.len();
                    assert(start + line < end);
                    cursor = Some((col, start + line));
                },
                None => {},
            }
        }
        proof {
            let a = all_field_lines(draft@, focus_queue, width as int, k as int).0;
            let b = field_lines(draft@, focus_queue, field, width as int).0;
            assert(head + a + b =~= head + (a + b));
        }
        k = k + 1;
    }
    (out, cursor)
}

/// The cursor stands in the lines of its field.
proof fn lemma_cursor_in_lines(
    d: DraftContent,
    focus_queue: bool,
    field: ReviewTuiField,
    width: int,
)
    requires
        d.cursor() >= 0,
    ensures
        match field_lines(d, focus_queue, field, width).1 {
            Some((col, row)) => 0 <= row < field_lines(d, focus_queue, field, width).0.len(),
            None => true,
        },
{
    if field == ReviewTuiField::Purpose {
        let value = d.purpose;
        let active = !focus_queue && d.field() == field;
        let at = if active {
            least(d.cursor(), value.len() as int)
        } else {
            value.len() as int
        };
        crate::draft::law_cursor_in_wrapped_text(
            value,
            at,
            larger(room(width, label_width() + 2), 1),
        );
    }
}

// ---------------------------------------------------------------------------
// The search for a category, the months, the details, the footer

pub open spec fn match_line(k: int, category: Seq<char>) -> (Seq<(Seq<char>, Style)>, Style) {
    line_of(
        seq![
            (
                if k == 0 {
                    "> "@
                } else {
                    "  "@
                },
                colored(Color::Cyan),
            ),
            (digits((k + 1) as nat) + " "@, strong(Color::Yellow)),
            raw_span(emoji_of(category) + "  "@),
            raw_span(replaced(category, ':', " › "@)),
        ],
    )
}

/// What the search for a category shows.
pub open spec fn search_lines(query: Seq<char>, found: Seq<Seq<char>>, visible: int) -> Seq<
    (Seq<(Seq<char>, Style)>, Style),
> {
    seq![
        line_of(
            seq![
                ("Busca: "@, colored(Color::DarkGray)),
                raw_span(
                    if query.len() == 0 {
                        "digite para buscar"@
                    } else {
                        query
                    },
                ),
            ],
        ),
        blank_line(),
    ] + Seq::new(
        least(visible, found.len() as int) as nat,
        |k: int| match_line(k, found[k]),
    )
}

fn push_match_line(out: &mut Vec<ScreenLine>, k: usize, category: &str)
    requires
        k < usize::MAX,
    ensures
        line_views(final(out)@) == line_views(old(out)@).push(match_line(k as int, category@)),
{
    let mut spans: Vec<Span> = Vec::new();
    push_span(
        &mut spans,
        if k == 0 {
            "> "
        } else {
            "  "
        },
        Style::colored(Color::Cyan),
    );
    push_span(
        &mut spans,
        glue(number(k as u64 + 1).as_str(), " ").as_str(),
        Style::strong(Color::Yellow),
    );
    push_span(&mut spans, glue(category_emoji(category), "  ").as_str(), Style::plain());
    push_span(&mut spans, replace_char(category, ':', " › ").as_str(), Style::plain());
    assert(span_views(spans@) =~= match_line(k as int, category@).0);
    push_line(out, spans);
}

/// The search for a category.
pub fn draw_review_tui_category_modal(
    draft: &ReviewTuiDraft,
    categories: &Vec<String>,
    session: &ReviewTuiSession,
    visible: usize,
) -> (r: Vec<ScreenLine>)
    requires
        searchable(texts(categories@), draft@.category_query),
        session.recent_categories@.len() <= i64::MAX,
    ensures
        line_views(r@) == search_lines(
            draft@.category_query,
            matches_for(
                categories@,
                draft@.category_query,
                session@.category_cursor,
                session@.recent_categories,
            ),
            visible as int,
        ),
{
    let found = category_matches(
        categories,
        draft.category_query.as_str(),
        session.category_cursor,
        &session.recent_categories,
    );
    let ghost list = texts(found@);
    assert(list.len() == found@.len());
    let mut out: Vec<ScreenLine> = Vec::new();
    assert(line_views(out@) =~= Seq::empty());
    let mut spans: Vec<Span> = Vec::new();
    push_span(&mut spans, "Busca: ", Style::colored(Color::DarkGray));
    push_span(
        &mut spans,
        if draft.category_query.as_str().is_empty() {
            "digite para buscar"
        } else {
            draft.category_query.as_str()
        },
        Style::plain(),
    );
    let ghost first = span_views(spans@);
    push_line(&mut out, spans);
    push_single(&mut out, "", Style::plain());
    let ghost head = line_views(out@);
    let ghost body = Seq::new(
        least(visible as int, list.len() as int) as nat,
        |k: int| match_line(k, list[k]),
    );
    let mut k: usize = 0;
    assert(head + body.take(0) =~= head);
    while k < found.len() && k < visible
        invariant
            k <= found.len(),
            k <= visible,
            list == texts(found@),
            list.len() == found@.len(),
            body == Seq::new(
                least(visible as int, list.len() as int) as nat,
                |j: int| match_line(j, list[j]),
            ),
            line_views(out@) == head + body.take(k as int),
        decreases found.len() - k,
    {
        assert(list[k as int] == found@[k as int]@);
        push_match_line(&mut out, k, found[k].as_str());
        k = k + 1;
        assert(line_views(out@) =~= head + body.take(k as int));
    }
    proof {
        assert(body.take(k as int) =~= body);
        let want = search_lines(draft@.category_query, list, visible as int);
        assert(first =~= want[0].0);
        assert(line_views(out@) =~= want);
    }
    out
}

/// A month to pick.
pub open spec fn month_line(month: Seq<char>, selected: bool, active: bool) -> (
    Seq<(Seq<char>, Style)>,
    Style,
) {
    line_of(
        seq![
            (
                (if active {
                    "● "@
                } else {
                    "  "@
                }) + month,
                if selected {
                    badge(Color::Black, Color::Cyan)
                } else if active {
                    badge(Color::Yellow, Color::Reset)
                } else {
                    Style { fg: Color::White, bg: Color::Reset, bold: false }
                },
            ),
        ],
    )
}

/// The first month that is shown, so that the cursor is.
pub open spec fn month_scroll(cursor: int, visible: int) -> int {
    if cursor >= visible {
        cursor - visible + 1
    } else {
        0
    }
}

/// The months to pick from.
pub open spec fn month_lines(s: SessionContent, visible: int) -> Seq<
    (Seq<(Seq<char>, Style)>, Style),
> {
    let n = s.available_months.len() as int;
    let cursor = least(s.month_picker_cursor, room(n, 1));
    let scroll = month_scroll(cursor, visible);
    let hint = colored(Color::DarkGray);
    seq![
        line_of(
            seq![
                ("↑↓"@, hint),
                raw_span(" navegar  "@),
                ("Enter"@, hint),
                raw_span(" aplicar  "@),
                ("Esc"@, hint),
                raw_span(" voltar"@),
            ],
        ),
        blank_line(),
    ] + Seq::new(
        larger(least(visible, n - scroll), 0) as nat,
        |k: int|
            month_line(
                s.available_months[scroll + k],
                scroll + k == cursor,
                s.filters.month == Some(s.available_months[scroll + k]),
            ),
    )
}

/// The months to pick from.
pub fn draw_review_tui_month_picker(session: &ReviewTuiSession, visible: usize) -> (r: Vec<
    ScreenLine,
>)
    ensures
        line_views(r@) == month_lines(session@, visible as int),
{
    let n = session.available_months.len();
    assert(texts(session.available_months@).len() == n);
    let last: usize = if n > 1 {
        n - 1
    } else {
        0
    };
    let cursor: usize = if session.month_picker_cursor < last {
        session.month_picker_cursor
    } else {
        last
    };
    let scroll: usize = if cursor >= visible {
        cursor - visible + 1
    } else {
        0
    };
    let mut out: Vec<ScreenLine> = Vec::new();
    assert(line_views(out@) =~= Seq::empty());
    let hint = Style::colored(Color::DarkGray);
    let mut spans: Vec<Span> = Vec::new();
    push_span(&mut spans, "↑↓", hint);
    push_span(&mut spans, " navegar  ", Style::plain());
    push_span(&mut spans, "Enter", hint);
    push_span(&mut spans, " aplicar  ", Style::plain());
    push_span(&mut spans, "Esc", hint);
    push_span(&mut spans, " voltar", Style::plain());
    let ghost first = span_views(spans@);
    push_line(&mut out, spans);
    push_single(&mut out, "", Style::plain());
    let ghost head = line_views(out@);
    let ghost months = session@.available_months;
    let ghost body = Seq::new(
        larger(least(visible as int, n - scroll), 0) as nat,
        |k: int|
            month_line(
                months[scroll + k],
                scroll + k == cursor,
                session@.filters.month == Some(months[scroll + k]),
            ),
    );
    let mut k: usize = 0;
    assert(head + body.take(0) =~= head);
    while k < visible && scroll < n && k < n - scroll
        invariant
            k <= visible,
            k <= body.len(),
            n == session.available_months.len(),
            months == session@.available_months,
            body == Seq::new(
                larger(least(visible as int, n - scroll), 0) as nat,
                |j: int|
                    month_line(
                        months[scroll + j],
                        scroll + j == cursor,
                        session@.filters.month == Some(months[scroll + j]),
                    ),
            ),
            line_views(out@) == head + body.take(k as int),
        decreases visible - k,
    {
        let at: usize = scroll + k;
        let month = session.available_months[at].as_str();
        assert(months[at as int] == month@);
        let active = crate::records::is_text(&session.filters.month, month);
        let selected = at == cursor;
        let text = glue(
            if active {
                "● "
            } else {
                "  "
            },
            month,
        );
        let style = if selected {
            Style::badge(Color::Black, Color::Cyan)
        } else if active {
            Style::badge(Color::Yellow, Color::Reset)
        } else {
            Style { fg: Color::White, bg: Color::Reset, bold: false }
        };
        push_single(&mut out, text.as_str(), style);
        assert(line_of(seq![(text@, style)]) == body[k as int]);
        k = k + 1;
        assert(line_views(out@) =~= head + body.take(k as int));
    }
    proof {
        assert(body.take(k as int) =~= body);
        let want = month_lines(session@, visible as int);
        assert(first =~= want[0].0);
        assert(line_views(out@) =~= want);
    }
    out
}

/// The lines that hold a query.
pub open spec fn lines_with(list: Seq<Seq<char>>, query: Seq<char>) -> Seq<Seq<char>>
    decreases list.len(),
{
    if list.len() == 0 {
        Seq::empty()
    } else if has_text(lower_ascii(list.last()), query) {
        lines_with(list.drop_last(), query).push(list.last())
    } else {
        lines_with(list.drop_last(), query)
    }
}

/// The lines of the details that hold the query.
pub open spec fn detail_lines(text: Seq<char>, query: Seq<char>) -> Seq<Seq<char>> {
    let q = lower_ascii(trimmed(query));
    if q.len() == 0 {
        lines_of(text)
    } else {
        lines_with(lines_of(text), q)
    }
}

/// The lines of the details that hold the query.
pub fn review_tui_detail_lines(text: &str, query: &str) -> (r: Vec<String>)
    ensures
        texts(r@) == detail_lines(text@, query@),
{
    let all = lines(text);
    let q = to_lower_ascii(trim(query).as_str());
    if q.as_str().is_empty() {
        return all;
    }
    let ghost list = texts(all@);
    let mut out: Vec<String> = Vec::new();
    let mut i: usize = 0;
    assert(list.take(0) =~= Seq::<Seq<char>>::empty());
    assert(texts(out@) =~= Seq::<Seq<char>>::empty());
    while i < all.len()
        invariant
            i <= all.len(),
            list == texts(all@),
            texts(out@) == lines_with(list.take(i as int), q@),
        decreases all.len() - i,
    {
        proof {
            assert(list.take(i + 1).drop_last() =~= list.take(i as int));
            assert(list.take(i + 1).last() == all@[i as int]@);
        }
        if contains(to_lower_ascii(all[i].as_str()).as_str(), q.as_str()) {
            push_text(&mut out, all[i].clone());
        }
        i = i + 1;
    }
    assert(list.take(i as int) =~= list);
    out
}

/// The title of the details.
pub fn review_tui_details_title(query: &str) -> (r: String)
    ensures
        r@ == (if query@.len() == 0 {
            "Atributos da transação · digite para filtrar · setas navegam · Esc fecha"@
        } else {
            "Atributos da transação · filtro: "@ + query@ + " · Esc fecha"@
        }),
{
    if query.is_empty() {
        "Atributos da transação · digite para filtrar · setas navegam · Esc fecha".to_string()
    } else {
        glue3("Atributos da transação · filtro: ", query, " · Esc fecha")
    }
}

/// The first line of the details that is shown.
pub fn review_tui_details_start(scroll: usize, len: usize, visible: usize) -> (r: usize)
    ensures
        r == least(scroll as int, room(len as int, visible as int)),
{
    let most: usize = if len > visible {
        len - visible
    } else {
        0
    };
    if scroll <= most {
        scroll
    } else {
        most
    }
}

/// The status line of a review.
pub fn review_tui_footer_status_line(status: &str) -> (r: Span)
    ensures
        r@ == (if status@.len() == 0 {
            ("Campos raw são somente leitura."@, colored(Color::Gray))
        } else {
            (status@, strong(Color::LightGreen))
        }),
{
    if status.is_empty() {
        Span {
            text: "Campos raw são somente leitura.".to_string(),
            style: Style::colored(Color::Gray),
        }
    } else {
        Span { text: status.to_string(), style: Style::strong(Color::LightGreen) }
    }
}

pub open spec fn key_pieces(key: Seq<char>, label: Seq<char>) -> Seq<(Seq<char>, Style)> {
    seq![(key, strong(Color::Cyan)), (label, colored(Color::DarkGray))]
}

/// The keys of a review, with what they do.
pub open spec fn key_hints() -> Seq<(Seq<char>, Style)> {
    let gap = seq![("  "@, colored(Color::DarkGray))];
    key_pieces("Tab"@, " foco"@) + gap + key_pieces("↑↓"@, " navega"@) + gap + key_pieces(
        "Enter"@,
        " cat"@,
    ) + gap + key_pieces("^F"@, " filtros"@) + gap + key_pieces("^R"@, " todas"@) + gap + key_pieces(
        "^B"@,
        " bulk"@,
    ) + gap + key_pieces("^D"@, " detalhes"@) + gap + key_pieces("^S"@, " salva"@) + gap
        + key_pieces("^X"@, " sai"@)
}

fn push_key(spans: &mut Vec<Span>, key: &str, label: &str)
    ensures
        span_views(final(spans)@) == span_views(old(spans)@) + key_pieces(key@, label@),
{
    let ghost start = span_views(spans@);
    push_span(spans, key, Style::strong(Color::Cyan));
    push_span(spans, label, Style::colored(Color::DarkGray));
    assert(span_views(spans@) =~= start + key_pieces(key@, label@));
}

/// The keys of a review, with what they do.
pub fn review_tui_key_hints() -> (r: Vec<Span>)
    ensures
        span_views(r@) == key_hints(),
{
    let mut out: Vec<Span> = Vec::new();
    let style = Style::colored(Color::DarkGray);
    push_key(&mut out, "Tab", " foco");
    push_span(&mut out, "  ", style);
    push_key(&mut out, "↑↓", " navega");
    push_span(&mut out, "  ", style);
    push_key(&mut out, "Enter", " cat");
    push_span(&mut out, "  ", style);
    push_key(&mut out, "^F", " filtros");
    push_span(&mut out, "  ", style);
    push_key(&mut out, "^R", " todas");
    push_span(&mut out, "  ", style);
    push_key(&mut out, "^B", " bulk");
    push_span(&mut out, "  ", style);
    push_key(&mut out, "^D", " detalhes");
    push_span(&mut out, "  ", style);
    push_key(&mut out, "^S", " salva");
    push_span(&mut out, "  ", style);
    push_key(&mut out, "^X", " sai");
    assert(span_views(out@) =~= key_hints());
    out
}

} // verus!
