//! Pieces of text with their style, and texts cut and padded to a width.

use crate::text::{append_chars, chars, from_chars};
use vstd::prelude::*;

verus! {

#[derive(Clone, Copy, Debug, PartialEq, Eq, Structural)]
pub enum Color {
    Plain,
    Reset,
    Black,
    Blue,
    Cyan,
    DarkGray,
    Gray,
    Green,
    LightBlue,
    LightGreen,
    LightMagenta,
    LightRed,
    LightYellow,
    Magenta,
    Red,
    White,
    Yellow,
    Rgb(u8, u8, u8),
}

/// How a piece of text looks.
#[derive(Clone, Copy, Debug, PartialEq, Eq, Structural)]
pub struct Style {
    pub fg: Color,
    pub bg: Color,
    pub bold: bool,
}

pub open spec fn plain_style() -> Style {
    Style { fg: Color::Plain, bg: Color::Plain, bold: false }
}

pub open spec fn colored(fg: Color) -> Style {
    Style { fg, bg: Color::Plain, bold: false }
}

pub open spec fn strong(fg: Color) -> Style {
    Style { fg, bg: Color::Plain, bold: true }
}

pub open spec fn badge(fg: Color, bg: Color) -> Style {
    Style { fg, bg, bold: true }
}

impl Style {
    pub fn plain() -> (r: Style)
        ensures
            r == plain_style(),
    {
        Style { fg: Color::Plain, bg: Color::Plain, bold: false }
    }

    pub fn colored(fg: Color) -> (r: Style)
        ensures
            r == colored(fg),
    {
        Style { fg, bg: Color::Plain, bold: false }
    }

    pub fn strong(fg: Color) -> (r: Style)
        ensures
            r == strong(fg),
    {
        Style { fg, bg: Color::Plain, bold: true }
    }

    pub fn badge(fg: Color, bg: Color) -> (r: Style)
        ensures
            r == badge(fg, bg),
    {
        Style { fg, bg, bold: true }
    }
}

/// A piece of text with its style.
#[derive(Debug)]
pub struct Span {
    pub text: String,
    pub style: Style,
}

impl View for Span {
    type V = (Seq<char>, Style);

    open spec fn view(&self) -> (Seq<char>, Style) {
        (self.text@, self.style)
    }
}

pub open spec fn span_views(spans: Seq<Span>) -> Seq<(Seq<char>, Style)> {
    spans.map_values(|s: Span| s@)
}

/// A line of a screen: its pieces, and the style of what lies behind them.
#[derive(Debug)]
pub struct ScreenLine {
    pub spans: Vec<Span>,
    pub style: Style,
}

impl View for ScreenLine {
    type V = (Seq<(Seq<char>, Style)>, Style);

    open spec fn view(&self) -> (Seq<(Seq<char>, Style)>, Style) {
        (span_views(self.spans@), self.style)
    }
}

pub open spec fn line_views(lines: Seq<ScreenLine>) -> Seq<(Seq<(Seq<char>, Style)>, Style)> {
    lines.map_values(|l: ScreenLine| l@)
}

/// A line without a style of its own.
pub open spec fn line_of(spans: Seq<(Seq<char>, Style)>) -> (Seq<(Seq<char>, Style)>, Style) {
    (spans, plain_style())
}

/// Appends a piece of text.
pub(crate) fn push_span(spans: &mut Vec<Span>, text: &str, style: Style)
    ensures
        span_views(final(spans)@) == span_views(old(spans)@).push((text@, style)),
{
    let ghost before = spans@;
    let span = Span { text: text.to_string(), style };
    spans.push(span);
    assert(span_views(spans@) =~= span_views(before).push(span@));
}

/// Appends a line without a style of its own.
pub(crate) fn push_line(lines: &mut Vec<ScreenLine>, spans: Vec<Span>)
    ensures
        line_views(final(lines)@) == line_views(old(lines)@).push(line_of(span_views(spans@))),
{
    let ghost before = lines@;
    let line = ScreenLine { spans, style: Style::plain() };
    lines.push(line);
    assert(line_views(lines@) =~= line_views(before).push(line@));
}

/// Appends a line of one piece.
pub(crate) fn push_single(lines: &mut Vec<ScreenLine>, text: &str, style: Style)
    ensures
        line_views(final(lines)@) == line_views(old(lines)@).push(line_of(seq![(text@, style)])),
{
    let mut spans: Vec<Span> = Vec::new();
    assert(span_views(spans@) =~= Seq::empty());
    push_span(&mut spans, text, style);
    assert(span_views(spans@) =~= seq![(text@, style)]);
    push_line(lines, spans);
}

// ---------------------------------------------------------------------------
// Widths

/// A run of one character.
pub open spec fn run_of(c: char, n: int) -> Seq<char> {
    Seq::new(
        if n > 0 {
            n as nat
        } else {
            0
        },
        |i: int| c,
    )
}

pub(crate) fn run_chars(c: char, n: usize) -> (r: Vec<char>)
    ensures
        r@ == run_of(c, n as int),
{
    let mut out: Vec<char> = Vec::new();
    let mut i: usize = 0;
    assert(out@ =~= run_of(c, 0));
    while i < n
        invariant
            i <= n,
            out@ == run_of(c, i as int),
        decreases n - i,
    {
        out.push(c);
        i = i + 1;
        assert(out@ =~= run_of(c, i as int));
    }
    out
}

/// A text followed by spaces up to a width.
pub open spec fn padded_end(s: Seq<char>, width: int) -> Seq<char> {
    s + run_of(' ', width - s.len())
}

/// A text behind spaces up to a width.
pub open spec fn padded_start(s: Seq<char>, width: int) -> Seq<char> {
    run_of(' ', width - s.len()) + s
}

/// A text followed by spaces up to a width.
pub fn pad_end(s: &str, width: usize) -> (r: String)
    ensures
        r@ == padded_end(s@, width as int),
{
    let mut v = chars(s);
    if v.len() < width {
        let more = run_chars(' ', width - v.len());
        append_chars(&mut v, &more);
    } else {
        assert(run_of(' ', width - s@.len()) =~= Seq::<char>::empty());
        assert(v@ + Seq::<char>::empty() =~= v@);
    }
    from_chars(&v)
}

/// A text behind spaces up to a width.
pub fn pad_start(s: &str, width: usize) -> (r: String)
    ensures
        r@ == padded_start(s@, width as int),
{
    let v = chars(s);
    if v.len() < width {
        let mut out = run_chars(' ', width - v.len());
        append_chars(&mut out, &v);
        from_chars(&out)
    } else {
        assert(run_of(' ', width - s@.len()) =~= Seq::<char>::empty());
        assert(Seq::<char>::empty() + v@ =~= v@);
        from_chars(&v)
    }
}

pub open spec fn unbroken_char(c: char) -> char {
    if c == '\r' || c == '\n' {
        ' '
    } else {
        c
    }
}

/// A text without line breaks.
pub open spec fn unbroken(s: Seq<char>) -> Seq<char> {
    s.map_values(|c: char| unbroken_char(c))
}

/// A text without line breaks, cut to a width.
pub open spec fn clipped(s: Seq<char>, width: int) -> Seq<char> {
    let flat = unbroken(s);
    if flat.len() <= width {
        flat
    } else {
        flat.take(if width > 0 {
            width - 1
        } else {
            0
        }).push('…')
    }
}

/// A text without line breaks, cut to a width.
pub fn clip_tui_text(text: &str, max_chars: usize) -> (r: String)
    ensures
        r@ == clipped(text@, max_chars as int),
{
    let v = chars(text);
    let mut flat: Vec<char> = Vec::new();
    let mut i: usize = 0;
    while i < v.len()
        invariant
            i <= v.len(),
            v@ == text@,
            flat@ == unbroken(text@).take(i as int),
        decreases v.len() - i,
    {
        let c = v[i];
        flat.push(
            if c == '\r' || c == '\n' {
                ' '
            } else {
                c
            },
        );
        i = i + 1;
        assert(flat@ =~= unbroken(text@).take(i as int));
    }
    assert(flat@ =~= unbroken(text@));
    if flat.len() <= max_chars {
        return from_chars(&flat);
    }
    let keep: usize = if max_chars > 0 {
        max_chars - 1
    } else {
        0
    };
    let mut out = crate::text::slice_chars(&flat, 0, keep);
    assert(flat@.subrange(0, keep as int) =~= flat@.take(keep as int));
    out.push('…');
    from_chars(&out)
}

/// A clipped text is no wider than the width, unless that is zero.
pub proof fn law_clipped_fits(s: Seq<char>, width: int)
    requires
        width >= 1,
    ensures
        clipped(s, width).len() <= width,
{
}

} // verus!
