//! The cash flow of a month as text for a terminal.

use crate::amount::{
    abs, fixed_text, limit, magnitude, minus, rounded, Amount,
};
use crate::date::Date;
use crate::families::{
    family_views, sub_views, CashflowTerminalFamily, CashflowTerminalSubcategory, FamilyContent,
    SubContent,
};
use crate::human::{
    bar_text, bold, bold_text, category_emoji, emoji_of, family_label, label_of_family, month_label,
    month_name, progress_bar, reais, reais_text, short_date, short_date_text,
};
use crate::money::{brl_signed, brl_signed_text};
use crate::month_report::{CashflowAccountBalance, CashflowCardSummary, CashflowMonthReport};
use crate::ranking::{find_share, share_fits, share_of};
use crate::scenario::CashflowRow;
use crate::screen::{pad_end, pad_start, padded_end, padded_start};
use crate::text::{
    chars, digits, from_chars, glue, glue3, join, joined, number, push_text, put, replace_char,
    replaced, same, texts,
};
use vstd::prelude::*;

verus! {

// ---------------------------------------------------------------------------
// Colors

/// A text between the codes that color it.
pub open spec fn painted(code: Seq<char>, value: Seq<char>) -> Seq<char> {
    "\x1b["@ + code + "m"@ + value + "\x1b[0m"@
}

fn paint(code: &str, value: &str) -> (r: String)
    ensures
        r@ == painted(code@, value@),
{
    let mut out = chars("\x1b[");
    put(&mut out, code);
    put(&mut out, "m");
    put(&mut out, value);
    put(&mut out, "\x1b[0m");
    from_chars(&out)
}

pub fn green(value: &str) -> (r: String)
    ensures
        r@ == painted("32"@, value@),
{
    paint("32", value)
}

pub fn red(value: &str) -> (r: String)
    ensures
        r@ == painted("31"@, value@),
{
    paint("31", value)
}

pub fn yellow(value: &str) -> (r: String)
    ensures
        r@ == painted("33"@, value@),
{
    paint("33", value)
}

pub fn cyan(value: &str) -> (r: String)
    ensures
        r@ == painted("36"@, value@),
{
    paint("36", value)
}

pub fn dim(value: &str) -> (r: String)
    ensures
        r@ == painted("2"@, value@),
{
    paint("2", value)
}

pub fn bold_terminal(value: &str) -> (r: String)
    ensures
        r@ == painted("1"@, value@),
{
    paint("1", value)
}

/// Money with its sign: red where it left, green where it came.
pub open spec fn signed_money(a: Amount) -> Seq<char> {
    if a.scaled() < 0 {
        painted("31"@, brl_signed_text(a))
    } else if a.scaled() > 0 {
        painted("32"@, brl_signed_text(a))
    } else {
        brl_signed_text(a)
    }
}

pub fn signed_money_color(value: Amount) -> (r: String)
    ensures
        r@ == signed_money(value),
{
    let text = brl_signed(value);
    if value.is_below_zero() {
        red(text.as_str())
    } else if value.is_above_zero() {
        green(text.as_str())
    } else {
        text
    }
}

/// Money in the color of its direction.
pub open spec fn directed_money(a: Amount, positive: bool) -> Seq<char> {
    if a.scaled() == 0 {
        reais_text(a)
    } else if positive {
        painted("32"@, reais_text(a))
    } else {
        painted("31"@, reais_text(a))
    }
}

pub fn unsigned_money_color(value: Amount, positive: bool) -> (r: String)
    ensures
        r@ == directed_money(value, positive),
{
    let text = reais(value);
    if !value.is_below_zero() && !value.is_above_zero() {
        text
    } else if positive {
        green(text.as_str())
    } else {
        red(text.as_str())
    }
}

/// How a subcategory reads.
pub open spec fn token_text(value: Seq<char>) -> Seq<char> {
    if value == "geral"@ {
        "Geral"@
    } else {
        replaced(replaced(value, ':', " "@), '-', " "@)
    }
}

pub fn display_token(value: &str) -> (r: String)
    ensures
        r@ == token_text(value@),
{
    if same(value, "geral") {
        "Geral".to_string()
    } else {
        replace_char(replace_char(value, ':', " ").as_str(), '-', " ")
    }
}

// ---------------------------------------------------------------------------
// Changes and shares

/// The change against the month before, in percent.
pub open spec fn change_of(current: Amount, previous: Amount) -> Amount {
    share_of(minus(magnitude(current), magnitude(previous)), magnitude(previous))
}

/// Whether the change can be told in percent.
pub open spec fn change_fits(current: Amount, previous: Amount) -> bool {
    previous.scaled() != 0 ==> share_fits(
        minus(magnitude(current), magnitude(previous)),
        magnitude(previous),
    )
}

/// A whole percentage with its sign.
pub open spec fn signed_percent(a: Amount) -> Seq<char> {
    let r = rounded(a, 0);
    (if r.sign() {
        Seq::empty()
    } else {
        "+"@
    }) + fixed_text(r, 0) + "%"@
}

fn write_signed_percent(a: Amount) -> (r: String)
    ensures
        r@ == signed_percent(a),
{
    a.known();
    proof {
        crate::amount::lemma_rounded(a, 0);
    }
    let whole = a.round_dp(0);
    let text = whole.fixed(0);
    if whole.is_sign_negative() {
        assert(signed_percent(a) =~= text@ + "%"@);
        glue(text.as_str(), "%")
    } else {
        glue3("+", text.as_str(), "%")
    }
}

fn find_change(current: &Amount, previous: &Amount) -> (r: Amount)
    requires
        previous.scaled() != 0,
        change_fits(*current, *previous),
    ensures
        r == change_of(*current, *previous),
{
    let now = current.abs();
    let before = previous.abs();
    now.known();
    before.known();
    proof {
        crate::amount::lemma_in_limit(now);
        crate::amount::lemma_in_limit(before);
        crate::amount::lemma_zero_scaled(before);
    }
    let delta = now.subtracted(&before);
    find_share(&delta, &before)
}

/// The change against the month before: new, none, or a percentage.
pub open spec fn change_text(current: Amount, previous: Amount) -> Seq<char> {
    if previous.scaled() == 0 {
        if current.scaled() == 0 {
            "0%"@
        } else {
            "novo"@
        }
    } else {
        signed_percent(change_of(current, previous))
    }
}

/// The change against the month before.
pub fn cashflow_tui_change_text(current: &Amount, previous: &Amount) -> (r: String)
    requires
        change_fits(*current, *previous),
    ensures
        r@ == change_text(*current, *previous),
{
    if !previous.is_below_zero() && !previous.is_above_zero() {
        if !current.is_below_zero() && !current.is_above_zero() {
            "0%".to_string()
        } else {
            "novo".to_string()
        }
    } else {
        write_signed_percent(find_change(current, previous))
    }
}

/// The change in color: red where more was moved, green where less.
pub open spec fn change_painted(current: Amount, previous: Amount) -> Seq<char> {
    let text = change_text(current, previous);
    if previous.scaled() == 0 {
        if current.scaled() == 0 {
            painted("2"@, text)
        } else {
            painted("36"@, text)
        }
    } else if change_of(current, previous).scaled() > 0 {
        painted("31"@, text)
    } else if change_of(current, previous).scaled() < 0 {
        painted("32"@, text)
    } else {
        painted("2"@, text)
    }
}

/// The change in color.
pub fn change_label(current: &Amount, previous: &Amount) -> (r: String)
    requires
        change_fits(*current, *previous),
    ensures
        r@ == change_painted(*current, *previous),
{
    let text = cashflow_tui_change_text(current, previous);
    if !previous.is_below_zero() && !previous.is_above_zero() {
        if !current.is_below_zero() && !current.is_above_zero() {
            dim(text.as_str())
        } else {
            cyan(text.as_str())
        }
    } else {
        let change = find_change(current, previous);
        if change.is_above_zero() {
            red(text.as_str())
        } else if change.is_below_zero() {
            green(text.as_str())
        } else {
            dim(text.as_str())
        }
    }
}

/// Whether a share can be told in percent.
pub open spec fn part_fits(amount: Amount, total: Amount) -> bool {
    total.scaled() != 0 ==> share_fits(magnitude(amount), magnitude(total))
}

/// The share of an amount in a total, in whole percent; none of nothing, and none where a
/// number of 64 bits cannot hold it.
pub open spec fn whole_share(amount: Amount, total: Amount) -> int {
    let r = rounded(share_of(magnitude(amount), magnitude(total)), 0);
    if total.scaled() == 0 {
        0
    } else if i64::MIN <= r.signed() <= i64::MAX {
        r.signed()
    } else {
        0
    }
}

/// The share of an amount in a total, in whole percent.
pub fn share_pct(amount: &Amount, total: &Amount) -> (r: i64)
    requires
        part_fits(*amount, *total),
    ensures
        r == whole_share(*amount, *total),
{
    if !total.is_below_zero() && !total.is_above_zero() {
        return 0;
    }
    let whole = total.abs();
    whole.known();
    proof {
        crate::amount::lemma_zero_scaled(whole);
    }
    let share = find_share(&amount.abs(), &whole);
    share.known();
    proof {
        crate::amount::lemma_rounded(share, 0);
    }
    match share.round_dp(0).to_i64() {
        Some(n) => n,
        None => 0,
    }
}

// ---------------------------------------------------------------------------
// Families

pub open spec fn forecast_mark(a: Amount) -> Seq<char> {
    if a.scaled() == 0 {
        Seq::empty()
    } else {
        " "@ + painted("33"@, "("@ + brl_signed_text(a) + ")"@)
    }
}

/// What is forecast, in brackets.
pub fn terminal_forecast_label(amount: Amount) -> (r: String)
    ensures
        r@ == forecast_mark(amount),
{
    if !amount.is_below_zero() && !amount.is_above_zero() {
        String::new()
    } else {
        glue(" ", yellow(glue3("(", brl_signed(amount).as_str(), ")").as_str()).as_str())
    }
}

/// At most `n` names, with commas between them.
pub open spec fn some_names(names: Seq<Seq<char>>, n: int) -> Seq<char> {
    joined(
        if names.len() > n {
            names.take(n)
        } else {
            names
        },
        ", "@,
    )
}

pub(crate) fn join_some(names: &Vec<String>, n: usize) -> (r: String)
    ensures
        r@ == some_names(texts(names@), n as int),
{
    let mut list = crate::review::copy_texts(names);
    let ghost all = list@;
    assert(texts(all).len() == all.len());
    if list.len() > n {
        list.truncate(n);
        assert(texts(list@) =~= texts(all).take(n as int));
    }
    join(&list, ", ")
}

/// The lines of a subcategory.
pub open spec fn sub_lines(family_total: Amount, s: SubContent) -> Seq<Seq<char>> {
    seq![
        "  "@ + padded_end(token_text(s.subcategory), 24) + " "@ + padded_start(
            signed_money(s.total),
            18,
        ) + forecast_mark(s.forecast) + "  "@ + padded_start(
            change_painted(s.total, s.previous),
            10,
        ) + "  "@ + bar_text(whole_share(s.total, family_total)),
    ] + (if s.names.len() == 0 {
        Seq::empty()
    } else {
        seq![
            "    "@ + painted("33"@, "forecast:"@) + " "@ + painted("2"@, some_names(s.names, 4)),
        ]
    })
}

/// The lines of the first `n` subcategories.
pub open spec fn all_sub_lines(family_total: Amount, subs: Seq<SubContent>, n: int) -> Seq<Seq<char>>
    decreases n,
{
    if n <= 0 {
        Seq::empty()
    } else {
        all_sub_lines(family_total, subs, n - 1) + sub_lines(family_total, subs[n - 1])
    }
}

/// The lines of a family.
pub open spec fn family_text(f: FamilyContent) -> Seq<Seq<char>> {
    seq![
        ""@,
        emoji_of(f.family) + " "@ + painted("1"@, label_of_family(f.family)) + "  "@
            + signed_money(f.total) + forecast_mark(f.forecast) + "  "@ + painted(
            "2"@,
            "vs mês ant. "@ + change_painted(f.total, f.previous),
        ),
    ] + all_sub_lines(f.total, f.subcategories, f.subcategories.len() as int)
}

pub open spec fn families_text(families: Seq<FamilyContent>, n: int) -> Seq<Seq<char>>
    decreases n,
{
    if n <= 0 {
        Seq::empty()
    } else {
        families_text(families, n - 1) + family_text(families[n - 1])
    }
}

/// A section with its title; nothing where there is no family.
pub open spec fn section_text(title: Seq<char>, families: Seq<FamilyContent>) -> Seq<Seq<char>> {
    if families.len() == 0 {
        Seq::empty()
    } else {
        seq![""@, painted("1"@, title)] + families_text(families, families.len() as int)
    }
}

/// Whether all the changes and shares of a family can be told in percent.
pub open spec fn family_fits(f: FamilyContent) -> bool {
    &&& change_fits(f.total, f.previous)
    &&& forall|i: int|
        0 <= i < f.subcategories.len() ==> change_fits(
            (#[trigger] f.subcategories[i]).total,
            f.subcategories[i].previous,
        ) && part_fits(f.subcategories[i].total, f.total)
}

pub open spec fn families_fit(families: Seq<FamilyContent>) -> bool {
    forall|i: int| 0 <= i < families.len() ==> family_fits(#[trigger] families[i])
}

fn print_terminal_subcategory(
    out: &mut Vec<String>,
    family_total: &Amount,
    s: &CashflowTerminalSubcategory,
)
    requires
        change_fits(s.total, s.previous),
        part_fits(s.total, *family_total),
    ensures
        texts(final(out)@) == texts(old(out)@) + sub_lines(*family_total, s@),
{
    let ghost start = texts(out@);
    let mut line = chars("  ");
    put(&mut line, pad_end(display_token(s.subcategory.as_str()).as_str(), 24).as_str());
    put(&mut line, " ");
    put(&mut line, pad_start(signed_money_color(s.total).as_str(), 18).as_str());
    put(&mut line, terminal_forecast_label(s.forecast).as_str());
    put(&mut line, "  ");
    put(&mut line, pad_start(change_label(&s.total, &s.previous).as_str(), 10).as_str());
    put(&mut line, "  ");
    put(&mut line, progress_bar(share_pct(&s.total, family_total)).as_str());
    push_text(out, from_chars(&line));
    assert(texts(s.forecast_names@).len() == s.forecast_names@.len());
    if s.forecast_names.len() > 0 {
        let mut names = chars("    ");
        put(&mut names, yellow("forecast:").as_str());
        put(&mut names, " ");
        put(&mut names, dim(join_some(&s.forecast_names, 4).as_str()).as_str());
        push_text(out, from_chars(&names));
    }
    assert(texts(out@) =~= start + sub_lines(*family_total, s@));
}

fn print_terminal_family(out: &mut Vec<String>, f: &CashflowTerminalFamily)
    requires
        family_fits(f@),
    ensures
        texts(final(out)@) == texts(old(out)@) + family_text(f@),
{
    let ghost start = texts(out@);
    push_text(out, "".to_string());
    let mut line = chars(category_emoji(f.family.as_str()));
    put(&mut line, " ");
    put(&mut line, bold_terminal(family_label(f.family.as_str()).as_str()).as_str());
    put(&mut line, "  ");
    put(&mut line, signed_money_color(f.total).as_str());
    put(&mut line, terminal_forecast_label(f.forecast).as_str());
    put(&mut line, "  ");
    let change = glue("vs mês ant. ", change_label(&f.total, &f.previous).as_str());
    put(&mut line, dim(change.as_str()).as_str());
    push_text(out, from_chars(&line));
    let ghost head = texts(out@);
    let ghost subs = sub_views(f.subcategories@);
    let mut i: usize = 0;
    assert(head + all_sub_lines(f.total, subs, 0) =~= head);
    while i < f.subcategories.len()
        invariant
            i <= f.subcategories.len(),
            family_fits(f@),
            subs == sub_views(f.subcategories@),
            texts(out@) == head + all_sub_lines(f.total, subs, i as int),
        decreases f.subcategories.len() - i,
    {
        assert(f@.subcategories[i as int] == f.subcategories@[i as int]@);
        print_terminal_subcategory(out, &f.total, &f.subcategories[i]);
        i = i + 1;
        assert(texts(out@) =~= head + all_sub_lines(f.total, subs, i as int));
    }
    assert(texts(out@) =~= start + family_text(f@));
}

/// A section with its title.
pub fn print_terminal_family_section(title: &str, families: &Vec<CashflowTerminalFamily>) -> (r: Vec<
    String,
>)
    requires
        families_fit(family_views(families@)),
    ensures
        texts(r@) == section_text(title@, family_views(families@)),
{
    let mut out: Vec<String> = Vec::new();
    assert(texts(out@) =~= Seq::<Seq<char>>::empty());
    let ghost views = family_views(families@);
    if families.len() == 0 {
        return out;
    }
    push_text(&mut out, "".to_string());
    push_text(&mut out, bold_terminal(title));
    let ghost head = texts(out@);
    let mut i: usize = 0;
    assert(head + families_text(views, 0) =~= head);
    while i < families.len()
        invariant
            i <= families.len(),
            views == family_views(families@),
            families_fit(views),
            texts(out@) == head + families_text(views, i as int),
        decreases families.len() - i,
    {
        assert(views[i as int] == families@[i as int]@);
        print_terminal_family(&mut out, &families[i]);
        i = i + 1;
        assert(texts(out@) =~= head + families_text(views, i as int));
    }
    assert(texts(out@) =~= section_text(title@, views));
    out
}

// ---------------------------------------------------------------------------
// A month

pub open spec fn suffix_of(details: bool, forecast: bool) -> Seq<char> {
    if details && forecast {
        " · detalhes + forecast"@
    } else if details {
        " · detalhes"@
    } else if forecast {
        " · forecast"@
    } else {
        ""@
    }
}

/// What a title says of the parts that are shown.
pub fn cashflow_header_suffix(show_details: bool, include_forecast: bool) -> (r: &'static str)
    ensures
        r@ == suffix_of(show_details, include_forecast),
{
    if show_details && include_forecast {
        " · detalhes + forecast"
    } else if show_details {
        " · detalhes"
    } else if include_forecast {
        " · forecast"
    } else {
        ""
    }
}

pub open spec fn balance_text(a: Option<Amount>) -> Seq<char> {
    match a {
        Some(x) => reais_text(x),
        None => "—"@,
    }
}

/// A balance, or a dash.
pub fn optional_balance_label(amount: Option<Amount>) -> (r: String)
    ensures
        r@ == balance_text(amount),
{
    match amount {
        Some(x) => reais(x),
        None => "—".to_string(),
    }
}

/// A label filled up to its column.
pub open spec fn cell(label: Seq<char>) -> Seq<char> {
    padded_end(label, 15) + " "@
}

fn put_cell(out: &mut Vec<char>, label: &str, value: &str)
    ensures
        final(out)@ == old(out)@ + cell(label@) + value@,
{
    let ghost start = out@;
    put(out, pad_end(label, 15).as_str());
    put(out, " ");
    put(out, value);
    assert(out@ =~= start + cell(label@) + value@);
}

pub open spec fn flow_line(
    names: (Seq<char>, Seq<char>, Seq<char>),
    income: Amount,
    expenses: Amount,
    net: Amount,
) -> Seq<char> {
    "  "@ + cell(names.0) + directed_money(income, true) + "    "@ + cell(names.1) + directed_money(
        expenses,
        false,
    ) + "    "@ + cell(names.2) + signed_money(net)
}

fn make_flow_line(a: &str, b: &str, c: &str, income: Amount, expenses: Amount, net: Amount) -> (r:
    String)
    ensures
        r@ == flow_line((a@, b@, c@), income, expenses, net),
{
    let mut out = chars("  ");
    put_cell(&mut out, a, unsigned_money_color(income, true).as_str());
    put(&mut out, "    ");
    put_cell(&mut out, b, unsigned_money_color(expenses, false).as_str());
    put(&mut out, "    ");
    put_cell(&mut out, c, signed_money_color(net).as_str());
    assert(out@ =~= flow_line((a@, b@, c@), income, expenses, net));
    from_chars(&out)
}

/// The head of the report on a month.
pub open spec fn month_head(report: CashflowMonthReport, details: bool, forecast: bool) -> Seq<
    Seq<char>,
> {
    seq![
        painted(
            "1"@,
            "💵 Cashflow · "@ + month_name(report.month_ref@) + suffix_of(details, forecast),
        ),
        ""@,
        "  "@ + cell("Saldo inicial"@) + balance_text(report.summary.opening_balance) + "    "@
            + cell("Saldo final"@) + balance_text(report.summary.closing_balance),
        flow_line(
            ("Entradas"@, "Saídas"@, "Resultado"@),
            report.actual_summary.income,
            report.actual_summary.expenses,
            report.actual_summary.net,
        ),
    ] + (match report.forecast_summary {
        Some(f) => seq![
            flow_line(
                ("Forecast +"@, "Forecast -"@, "Projetado"@),
                f.income,
                f.expenses,
                report.summary.net,
            ),
        ],
        None => Seq::empty(),
    })
}

fn print_cashflow_month_header(report: &CashflowMonthReport, details: bool, forecast: bool) -> (r: Vec<
    String,
>)
    ensures
        texts(r@) == month_head(*report, details, forecast),
{
    let mut title = chars("💵 Cashflow · ");
    put(&mut title, month_label(report.month_ref.as_str()).as_str());
    put(&mut title, cashflow_header_suffix(details, forecast));
    let mut out: Vec<String> = Vec::new();
    assert(texts(out@) =~= Seq::<Seq<char>>::empty());
    push_text(&mut out, bold_terminal(from_chars(&title).as_str()));
    push_text(&mut out, "".to_string());
    let mut line = chars("  ");
    put_cell(
        &mut line,
        "Saldo inicial",
        optional_balance_label(report.summary.opening_balance).as_str(),
    );
    put(&mut line, "    ");
    put_cell(
        &mut line,
        "Saldo final",
        optional_balance_label(report.summary.closing_balance).as_str(),
    );
    assert(line@ =~= "  "@ + cell("Saldo inicial"@) + balance_text(report.summary.opening_balance)
        + "    "@ + cell("Saldo final"@) + balance_text(report.summary.closing_balance));
    push_text(&mut out, from_chars(&line));
    push_text(
        &mut out,
        make_flow_line(
            "Entradas",
            "Saídas",
            "Resultado",
            report.actual_summary.income,
            report.actual_summary.expenses,
            report.actual_summary.net,
        ),
    );
    match &report.forecast_summary {
        Some(f) => {
            push_text(
                &mut out,
                make_flow_line(
                    "Forecast +",
                    "Forecast -",
                    "Projetado",
                    f.income,
                    f.expenses,
                    report.summary.net,
                ),
            );
        },
        None => {},
    }
    assert(texts(out@) =~= month_head(*report, details, forecast));
    out
}

pub open spec fn account_balance_line(b: CashflowAccountBalance) -> Seq<char> {
    "  "@ + b.label@ + "  "@ + (match b.balance {
        Some(x) => signed_money(x),
        None => "—"@,
    }) + "  "@ + painted("2"@, short_date_text(b.snapshot_date))
}

/// The balances of the accounts; nothing where there are none.
pub open spec fn balances_text(balances: Seq<CashflowAccountBalance>) -> Seq<Seq<char>> {
    if balances.len() == 0 {
        Seq::empty()
    } else {
        seq![""@, painted("2"@, "Contas correntes sincronizadas"@)] + balances.map_values(
            |b: CashflowAccountBalance| account_balance_line(b),
        )
    }
}

fn print_cashflow_account_balances(balances: &Vec<CashflowAccountBalance>) -> (r: Vec<String>)
    ensures
        texts(r@) == balances_text(balances@),
{
    let mut out: Vec<String> = Vec::new();
    assert(texts(out@) =~= Seq::<Seq<char>>::empty());
    if balances.len() == 0 {
        return out;
    }
    push_text(&mut out, "".to_string());
    push_text(&mut out, dim("Contas correntes sincronizadas"));
    let ghost head = texts(out@);
    let ghost want = balances@.map_values(|b: CashflowAccountBalance| account_balance_line(b));
    let mut i: usize = 0;
    assert(head + want.take(0) =~= head);
    while i < balances.len()
        invariant
            i <= balances.len(),
            want == balances@.map_values(|b: CashflowAccountBalance| account_balance_line(b)),
            texts(out@) == head + want.take(i as int),
        decreases balances.len() - i,
    {
        let b = &balances[i];
        let amount = match b.balance {
            Some(x) => signed_money_color(x),
            None => "—".to_string(),
        };
        let mut line = chars("  ");
        put(&mut line, b.label.as_str());
        put(&mut line, "  ");
        put(&mut line, amount.as_str());
        put(&mut line, "  ");
        put(&mut line, dim(short_date(&b.snapshot_date).as_str()).as_str());
        assert(line@ =~= want[i as int]);
        push_text(&mut out, from_chars(&line));
        i = i + 1;
        assert(texts(out@) =~= head + want.take(i as int));
    }
    assert(want.take(i as int) =~= want);
    assert(texts(out@) =~= balances_text(balances@));
    out
}

pub open spec fn dates_text(dates: Seq<Date>) -> Seq<Seq<char>> {
    dates.map_values(|d: Date| short_date_text(d))
}

/// When the bills of a month were paid, in words.
pub open spec fn paid_text(summary: CashflowCardSummary) -> Seq<char> {
    if summary.total.scaled() <= 0 {
        "sem fatura paga no período"@
    } else if summary.paid_on@.len() == 0 {
        "pagamento não encontrado"@
    } else {
        "pago em "@ + joined(dates_text(summary.paid_on@), ", "@)
    }
}

/// When the bills of a month were paid, in words.
pub fn cashflow_card_paid_label(summary: &CashflowCardSummary) -> (r: String)
    ensures
        r@ == paid_text(*summary),
{
    if !summary.total.is_above_zero() {
        return "sem fatura paga no período".to_string();
    }
    if summary.paid_on.len() == 0 {
        return "pagamento não encontrado".to_string();
    }
    let ghost want = dates_text(summary.paid_on@);
    let mut days: Vec<String> = Vec::new();
    let mut i: usize = 0;
    assert(texts(days@) =~= want.take(0));
    while i < summary.paid_on.len()
        invariant
            i <= summary.paid_on.len(),
            want == dates_text(summary.paid_on@),
            texts(days@) == want.take(i as int),
        decreases summary.paid_on.len() - i,
    {
        push_text(&mut days, short_date(&summary.paid_on[i]));
        i = i + 1;
        assert(texts(days@) =~= want.take(i as int));
    }
    assert(texts(days@) =~= want);
    glue("pago em ", join(&days, ", ").as_str())
}

/// What the cards come to.
pub open spec fn cards_text(s: CashflowCardSummary) -> Seq<Seq<char>> {
    seq![
        ""@,
        painted("1"@, "Cartões"@),
        "  total de cartão de crédito: "@ + painted("31"@, reais_text(s.total)) + " "@ + painted(
            "2"@,
            paid_text(s),
        ),
        "  total de compra parcelada: "@ + painted("31"@, reais_text(s.installments_total)) + " "@
            + painted(
            "2"@,
            "("@ + digits(s.installment_transactions as nat) + " compras, liberou este mês "@
                + reais_text(s.installments_released_this_month) + ")"@,
        ),
    ]
}

fn print_cashflow_card_summary(s: &CashflowCardSummary) -> (r: Vec<String>)
    ensures
        texts(r@) == cards_text(*s),
{
    let mut out: Vec<String> = Vec::new();
    assert(texts(out@) =~= Seq::<Seq<char>>::empty());
    push_text(&mut out, "".to_string());
    push_text(&mut out, bold_terminal("Cartões"));
    let mut total = chars("  total de cartão de crédito: ");
    put(&mut total, red(reais(s.total).as_str()).as_str());
    put(&mut total, " ");
    put(&mut total, dim(cashflow_card_paid_label(s).as_str()).as_str());
    push_text(&mut out, from_chars(&total));
    let mut note = chars("(");
    put(&mut note, number(s.installment_transactions).as_str());
    put(&mut note, " compras, liberou este mês ");
    put(&mut note, reais(s.installments_released_this_month).as_str());
    put(&mut note, ")");
    let mut parts = chars("  total de compra parcelada: ");
    put(&mut parts, red(reais(s.installments_total).as_str()).as_str());
    put(&mut parts, " ");
    put(&mut parts, dim(from_chars(&note).as_str()).as_str());
    push_text(&mut out, from_chars(&parts));
    assert(texts(out@) =~= cards_text(*s));
    out
}

/// The report on a month: its head, the balances, and where there are details the families
/// and the cards.
pub open spec fn month_text(
    report: CashflowMonthReport,
    income: Seq<FamilyContent>,
    expenses: Seq<FamilyContent>,
    details: bool,
    forecast: bool,
) -> Seq<Seq<char>> {
    month_head(report, details, forecast) + balances_text(report.account_balances@) + (
    if report.details is Some {
        section_text("Entradas por categoria"@, income) + section_text(
            "Saídas por categoria"@,
            expenses,
        ) + cards_text(report.card_summary)
    } else {
        Seq::empty()
    })
}

/// The report on a month. The families are those of its details.
pub fn print_cashflow_month_human(
    report: &CashflowMonthReport,
    income: &Vec<CashflowTerminalFamily>,
    expenses: &Vec<CashflowTerminalFamily>,
    show_details: bool,
    include_forecast: bool,
) -> (r: Vec<String>)
    requires
        families_fit(family_views(income@)),
        families_fit(family_views(expenses@)),
    ensures
        texts(r@) == month_text(
            *report,
            family_views(income@),
            family_views(expenses@),
            show_details,
            include_forecast,
        ),
{
    let mut out = print_cashflow_month_header(report, show_details, include_forecast);
    let mut balances = print_cashflow_account_balances(&report.account_balances);
    let ghost a = out@;
    let ghost b = balances@;
    out.append(&mut balances);
    assert(texts(out@) =~= texts(a) + texts(b));
    if report.details.is_some() {
        let mut came = print_terminal_family_section("Entradas por categoria", income);
        let mut went = print_terminal_family_section("Saídas por categoria", expenses);
        let mut cards = print_cashflow_card_summary(&report.card_summary);
        let ghost c = came@;
        let ghost d = went@;
        let ghost e = cards@;
        out.append(&mut came);
        out.append(&mut went);
        out.append(&mut cards);
        assert(texts(out@) =~= texts(a) + texts(b) + (texts(c) + texts(d) + texts(e)));
    }
    assert(texts(out@) =~= month_text(
        *report,
        family_views(income@),
        family_views(expenses@),
        show_details,
        include_forecast,
    ));
    out
}

// ---------------------------------------------------------------------------
// The short report

pub open spec fn accounts_text(n: nat) -> Seq<char> {
    if n == 1 {
        "1 conta corrente"@
    } else {
        digits(n) + " contas correntes"@
    }
}

/// How many accounts were considered, in words.
pub fn cashflow_accounts_label(accounts_considered: usize) -> (r: String)
    ensures
        r@ == accounts_text(accounts_considered as nat),
{
    if accounts_considered == 1 {
        "1 conta corrente".to_string()
    } else {
        glue(number(accounts_considered as u64).as_str(), " contas correntes")
    }
}

/// Whether the change of the balance stays within range.
pub open spec fn row_fits(row: CashflowRow) -> bool {
    row.opening_balance is Some && row.closing_balance is Some ==> abs(
        row.closing_balance->Some_0.scaled() - row.opening_balance->Some_0.scaled(),
    ) <= limit()
}

/// The cash of a month in short.
pub open spec fn cash_text(row: CashflowRow, accounts: nat, anchor: Option<Date>) -> Seq<Seq<char>> {
    seq![
        "💵 "@ + bold_text("Caixa · "@ + month_name(row.month_ref@)),
        ""@,
        "  Saldo inicial   "@ + balance_text(row.opening_balance),
        "  Entradas      + "@ + reais_text(row.income),
        "  Saídas        − "@ + reais_text(row.expenses),
    ] + (if row.expense_reduction.scaled() > 0 {
        seq!["  Cashback      + "@ + reais_text(row.expense_reduction)]
    } else {
        Seq::empty()
    }) + seq![
        "  ─────────────────────────────"@,
        (match (row.opening_balance, row.closing_balance) {
            (Some(open), Some(close)) => "  Saldo final     "@ + reais_text(close) + "   (Δ "@
                + brl_signed_text(minus(close, open)) + ")"@,
            _ => "  Saldo final     "@ + balance_text(row.closing_balance),
        }),
        ""@,
        (match anchor {
            Some(d) => "  _"@ + accounts_text(accounts) + " · âncora: snapshot "@ + short_date_text(d)
                + "_"@,
            None => "  _"@ + accounts_text(accounts)
                + " · snapshot incompleto: rode `finance sync pluggy`_"@,
        }),
    ]
}

/// The cash of a month in short.
pub fn print_cashflow_human(row: &CashflowRow, accounts_considered: usize, snapshot_anchor: &Option<
    Date,
>) -> (r: Vec<String>)
    requires
        row_fits(*row),
    ensures
        texts(r@) == cash_text(*row, accounts_considered as nat, *snapshot_anchor),
{
    let mut out: Vec<String> = Vec::new();
    assert(texts(out@) =~= Seq::<Seq<char>>::empty());
    let title = glue("Caixa · ", month_label(row.month_ref.as_str()).as_str());
    push_text(&mut out, glue("💵 ", bold(title.as_str()).as_str()));
    push_text(&mut out, "".to_string());
    push_text(
        &mut out,
        glue("  Saldo inicial   ", optional_balance_label(row.opening_balance).as_str()),
    );
    push_text(&mut out, glue("  Entradas      + ", reais(row.income).as_str()));
    push_text(&mut out, glue("  Saídas        − ", reais(row.expenses).as_str()));
    if row.expense_reduction.is_above_zero() {
        push_text(&mut out, glue("  Cashback      + ", reais(row.expense_reduction).as_str()));
    }
    push_text(&mut out, "  ─────────────────────────────".to_string());
    match (row.opening_balance, row.closing_balance) {
        (Some(open), Some(close)) => {
            let delta = close.subtracted(&open);
            let mut line = chars("  Saldo final     ");
            put(&mut line, reais(close).as_str());
            put(&mut line, "   (Δ ");
            put(&mut line, brl_signed(delta).as_str());
            put(&mut line, ")");
            push_text(&mut out, from_chars(&line));
        },
        _ => {
            push_text(
                &mut out,
                glue("  Saldo final     ", optional_balance_label(row.closing_balance).as_str()),
            );
        },
    }
    push_text(&mut out, "".to_string());
    let mut label = chars("  _");
    put(&mut label, cashflow_accounts_label(accounts_considered).as_str());
    match snapshot_anchor {
        Some(d) => {
            put(&mut label, " · âncora: snapshot ");
            put(&mut label, short_date(d).as_str());
            put(&mut label, "_");
        },
        None => {
            put(&mut label, " · snapshot incompleto: rode `finance sync pluggy`_");
        },
    }
    push_text(&mut out, from_chars(&label));
    assert(texts(out@) =~= cash_text(*row, accounts_considered as nat, *snapshot_anchor));
    out
}

// ---------------------------------------------------------------------------
// What was asked for

/// How the report on cash flow was asked for.
#[derive(Clone, Copy)]
pub struct CashflowArgs {
    pub details: bool,
    pub tui: bool,
    pub forecast: bool,
    pub structured: bool,
}

/// Whether details are shown: on screen they always are.
pub fn cashflow_effective_details(args: &CashflowArgs) -> (r: bool)
    ensures
        r == (args.details || args.tui),
{
    args.details || args.tui
}

/// Whether the report on the month is needed.
pub fn cashflow_uses_month_report(args: &CashflowArgs, effective_details: bool) -> (r: bool)
    ensures
        r == (effective_details || args.forecast),
{
    effective_details || args.forecast
}

/// Whether progress is told: the report is long, and made for people.
pub fn cashflow_should_show_progress(args: &CashflowArgs, effective_details: bool) -> (r: bool)
    ensures
        r == (!args.structured && (effective_details || args.forecast)),
{
    !args.structured && cashflow_uses_month_report(args, effective_details)
}

/// The month of the report: the one asked for, else the current one.
pub open spec fn asked_month(month: Option<String>, today: Date) -> Seq<char> {
    match month {
        Some(s) => s@,
        None => crate::date::month_text(today),
    }
}

/// The month of the report, where it names one.
pub fn cashflow_month_arg(month: &Option<String>, today: &Date) -> (r: Result<String, String>)
    ensures
        match r {
            Ok(s) => s@ == asked_month(*month, *today) && crate::date::month_start(s@) is Some,
            Err(e) => crate::date::month_start(asked_month(*month, *today)) is None && e@
                == "month inválido: "@ + asked_month(*month, *today) + " (esperado YYYY-MM)"@,
        },
{
    let m = match month {
        Some(s) => s.clone(),
        None => crate::date::month_ref_for(today),
    };
    match crate::date::parse_month_ref(m.as_str()) {
        Ok(_) => Ok(m),
        Err(e) => Err(e),
    }
}

} // verus!
