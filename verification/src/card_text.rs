//! The reports on cards, in words.

use crate::amount::{limit, negated, sum_of, Amount};
use crate::date::{date_of, parse_iso, parsed_date, Date};
use crate::human::{
    bold, bold_text, category_emoji, emoji_of, month_label, month_name, reais, reais_text,
    truncate_with_ellipsis, truncated,
};
use crate::insights::CardSummaryRow;
use crate::sums::{full_weight, total_of_all};
use crate::text::{
    chars, digits, from_chars, glue, number, push_text, put, replace_char, replaced, texts,
};
use vstd::prelude::*;

verus! {

// ---------------------------------------------------------------------------
// Lines

/// A line of a report: a heading, or text.
pub struct ReportLine {
    pub heading: bool,
    pub text: String,
}

impl View for ReportLine {
    type V = (bool, Seq<char>);

    open spec fn view(&self) -> (bool, Seq<char>) {
        (self.heading, self.text@)
    }
}

pub open spec fn report_views(lines: Seq<ReportLine>) -> Seq<(bool, Seq<char>)> {
    lines.map_values(|l: ReportLine| l@)
}

pub open spec fn heading(s: Seq<char>) -> (bool, Seq<char>) {
    (true, s)
}

pub open spec fn plain(s: Seq<char>) -> (bool, Seq<char>) {
    (false, s)
}

/// Lines of text.
pub open spec fn plains(lines: Seq<Seq<char>>) -> Seq<(bool, Seq<char>)> {
    lines.map_values(|s: Seq<char>| plain(s))
}

pub(crate) fn say(out: &mut Vec<ReportLine>, text: String)
    ensures
        report_views(final(out)@) == report_views(old(out)@).push(plain(text@)),
{
    let ghost start = out@;
    out.push(ReportLine { heading: false, text });
    assert(report_views(out@) =~= report_views(start).push(plain(text@)));
}

pub(crate) fn say_heading(out: &mut Vec<ReportLine>, text: &str)
    ensures
        report_views(final(out)@) == report_views(old(out)@).push(heading(text@)),
{
    let ghost start = out@;
    out.push(ReportLine { heading: true, text: text.to_string() });
    assert(report_views(out@) =~= report_views(start).push(heading(text@)));
}

pub(crate) fn say_all(out: &mut Vec<ReportLine>, lines: Vec<String>)
    ensures
        report_views(final(out)@) == report_views(old(out)@) + plains(texts(lines@)),
{
    let ghost start = report_views(out@);
    let ghost want = plains(texts(lines@));
    let mut i: usize = 0;
    assert(start + want.take(0) =~= start);
    while i < lines.len()
        invariant
            i <= lines.len(),
            want == plains(texts(lines@)),
            report_views(out@) == start + want.take(i as int),
        decreases lines.len() - i,
    {
        assert(texts(lines@)[i as int] == lines@[i as int]@);
        say(out, lines[i].clone());
        i = i + 1;
        assert(report_views(out@) =~= start + want.take(i as int));
    }
    assert(want.take(i as int) =~= want);
}

// ---------------------------------------------------------------------------
// Summary of cards

/// What a card was charged in a month, by the short name of its account.
pub open spec fn charged_of(row: CardSummaryRow) -> Amount {
    negated(row.total_charges)
}

pub open spec fn open_of(row: CardSummaryRow) -> Amount {
    negated(row.open_amount)
}

/// Whether the twenty-eighth of a month has passed.
pub open spec fn month_passed(month: Seq<char>, today: Date) -> bool {
    match parsed_date(month + "-28"@) {
        Some((y, m, d)) => date_of(y, m, d).before(today),
        None => false,
    }
}

fn has_passed(month: &str, today: &Date) -> (r: bool)
    ensures
        r == month_passed(month@, *today),
{
    match parse_iso(glue(month, "-28").as_str()) {
        Some(d) => {
            proof {
                broadcast use crate::date::lemma_date_of;

                crate::date::lemma_same_date(d, date_of(d.y(), d.m(), d.d()));
            }
            d.is_before(today)
        },
        None => false,
    }
}

/// How a card stands: paid, partly open, or open, and then late once the month passed.
pub open spec fn standing(charged: Amount, open: Amount, passed: bool) -> (Seq<char>, Seq<char>) {
    if open.scaled() <= 0 {
        ("🟢"@, "pago"@)
    } else if open.scaled() < charged.scaled() {
        ("🟡"@, "aberto "@ + reais_text(open))
    } else {
        (
            if passed {
                "🔴"@
            } else {
                "🟡"@
            },
            "em aberto "@ + reais_text(open),
        )
    }
}

/// How a card stands.
pub fn card_standing(charged: &Amount, open: &Amount, passed: bool) -> (r: (&'static str, String))
    ensures
        (r.0@, r.1@) == standing(*charged, *open, passed),
{
    if !open.is_above_zero() {
        ("🟢", "pago".to_string())
    } else if open.is_less(charged) {
        ("🟡", glue("aberto ", reais(*open).as_str()))
    } else if passed {
        ("🔴", glue("em aberto ", reais(*open).as_str()))
    } else {
        ("🟡", glue("em aberto ", reais(*open).as_str()))
    }
}

pub open spec fn card_line(row: CardSummaryRow, name: Seq<char>, today: Date) -> Seq<char> {
    let s = standing(charged_of(row), open_of(row), month_passed(row.month_ref@, today));
    s.0 + " "@ + bold_text(truncated(name, 24)) + " · "@ + reais_text(charged_of(row)) + " · "@
        + s.1
}

pub open spec fn card_lines(rows: Seq<CardSummaryRow>, names: Seq<Seq<char>>, today: Date) -> Seq<
    Seq<char>,
> {
    Seq::new(rows.len(), |i: int| card_line(rows[i], names[i], today))
}

pub open spec fn charges(rows: Seq<CardSummaryRow>) -> Seq<Amount> {
    rows.map_values(|r: CardSummaryRow| charged_of(r))
}

/// The summary of the cards. `names` are the short names of the accounts.
pub open spec fn card_summary_report(
    rows: Seq<CardSummaryRow>,
    names: Seq<Seq<char>>,
    month: Option<String>,
    today: Date,
) -> Seq<Seq<char>> {
    let head = seq![
        "💳 "@ + bold_text(
            "Cartões · "@ + (match month {
                Some(m) => month_name(m@),
                None => "—"@,
            }),
        ),
        ""@,
    ];
    if rows.len() == 0 {
        head + seq!["Sem movimentos de cartão no período."@]
    } else {
        head + card_lines(rows, names, today) + seq![
            ""@,
            "Total cobrado: "@ + bold_text(reais_text(sum_of(charges(rows)))),
        ]
    }
}

fn make_card_line(row: &CardSummaryRow, name: &str, today: &Date) -> (r: String)
    ensures
        r@ == card_line(*row, name@, *today),
{
    let charged = row.total_charges.neg();
    let open = row.open_amount.neg();
    let passed = has_passed(row.month_ref.as_str(), today);
    let (mark, label) = card_standing(&charged, &open, passed);
    let mut out = chars(mark);
    put(&mut out, " ");
    put(&mut out, bold(truncate_with_ellipsis(name, 24).as_str()).as_str());
    put(&mut out, " · ");
    put(&mut out, reais(charged).as_str());
    put(&mut out, " · ");
    put(&mut out, label.as_str());
    assert(out@ =~= card_line(*row, name@, *today));
    from_chars(&out)
}

/// The summary of the cards. `names` are the short names of the accounts.
pub fn report_card_summary(
    rows: &Vec<CardSummaryRow>,
    names: &Vec<String>,
    month: &Option<String>,
    today: &Date,
) -> (r: Vec<String>)
    requires
        rows@.len() == names@.len(),
        full_weight(charges(rows@)) <= limit(),
    ensures
        texts(r@) == card_summary_report(rows@, texts(names@), *month, *today),
{
    let label = match month {
        Some(m) => month_label(m.as_str()),
        None => "—".to_string(),
    };
    let mut out: Vec<String> = Vec::new();
    assert(texts(out@) =~= Seq::<Seq<char>>::empty());
    push_text(
        &mut out,
        glue("💳 ", bold(glue("Cartões · ", label.as_str()).as_str()).as_str()),
    );
    push_text(&mut out, "".to_string());
    if rows.len() == 0 {
        push_text(&mut out, "Sem movimentos de cartão no período.".to_string());
        assert(texts(out@) =~= card_summary_report(rows@, texts(names@), *month, *today));
        return out;
    }
    let ghost head = texts(out@);
    let ghost want = card_lines(rows@, texts(names@), *today);
    let mut amounts: Vec<Amount> = Vec::new();
    let mut i: usize = 0;
    assert(head + want.take(0) =~= head);
    while i < rows.len()
        invariant
            i <= rows.len(),
            rows@.len() == names@.len(),
            want == card_lines(rows@, texts(names@), *today),
            amounts@ == charges(rows@).take(i as int),
            texts(out@) == head + want.take(i as int),
        decreases rows.len() - i,
    {
        assert(texts(names@)[i as int] == names@[i as int]@);
        push_text(&mut out, make_card_line(&rows[i], names[i].as_str(), today));
        amounts.push(rows[i].total_charges.neg());
        i = i + 1;
        assert(texts(out@) =~= head + want.take(i as int));
        assert(amounts@ =~= charges(rows@).take(i as int));
    }
    assert(want.take(i as int) =~= want);
    assert(amounts@ =~= charges(rows@));
    let total = total_of_all(&amounts);
    push_text(&mut out, "".to_string());
    push_text(&mut out, glue("Total cobrado: ", bold(reais(total).as_str()).as_str()));
    assert(texts(out@) =~= card_summary_report(rows@, texts(names@), *month, *today));
    out
}

// ---------------------------------------------------------------------------
// Insights

/// A row of the insights with the short name to show it by.
pub struct NamedRow {
    pub name: String,
    pub detail: String,
    pub amount: Amount,
    pub count: usize,
}

/// What the insights tell: the accounts, the categories, and the merchants by name.
pub struct NamedInsights {
    pub month_ref: String,
    pub accounts: Vec<NamedAccount>,
    pub categories: Vec<NamedRow>,
    pub subscriptions: Vec<NamedRow>,
    pub open_installments: Vec<NamedRow>,
    pub closed_installments: Vec<NamedRow>,
    pub recurring: Vec<NamedRow>,
}

pub struct NamedAccount {
    pub name: String,
    pub closed_amount: Amount,
    pub open_amount: Amount,
}

pub open spec fn first_of<T>(s: Seq<T>, n: int) -> Seq<T> {
    if s.len() > n {
        s.take(n)
    } else {
        s
    }
}

pub open spec fn account_line(a: NamedAccount) -> Seq<char> {
    let open = negated(a.open_amount);
    "• "@ + bold_text(truncated(a.name@, 24)) + " — "@ + reais_text(negated(a.closed_amount))
        + " · "@ + (if open.scaled() <= 0 {
        "🟢 pago"@
    } else {
        "🟡 aberto "@ + reais_text(open)
    })
}

pub open spec fn category_line(c: NamedRow) -> Seq<char> {
    "• "@ + emoji_of(c.name@) + " "@ + replaced(replaced(c.name@, ':', " › "@), '-', " "@) + " — "@
        + reais_text(negated(c.amount)) + " ("@ + digits(c.count as nat) + " txn)"@
}

pub open spec fn subscription_line(r: NamedRow) -> Seq<char> {
    "• "@ + truncated(r.name@, 28) + " — "@ + reais_text(negated(r.amount)) + "/mês"@
}

pub open spec fn installment_line(r: NamedRow) -> Seq<char> {
    "• "@ + truncated(r.name@, 24) + " ("@ + r.detail@ + ") — "@ + reais_text(negated(r.amount))
}

pub open spec fn recurring_line(r: NamedRow) -> Seq<char> {
    "• "@ + truncated(r.name@, 28) + " — "@ + reais_text(negated(r.amount)) + " ("@ + digits(
        r.count as nat,
    ) + " meses)"@
}

/// The shown rows, or a sentence where there are none.
pub open spec fn rows_or(lines: Seq<Seq<char>>, none: Seq<char>) -> Seq<Seq<char>> {
    if lines.len() == 0 {
        seq![none]
    } else {
        lines
    }
}

pub open spec fn left_to_pay(rows: Seq<NamedRow>) -> Seq<Amount> {
    rows.map_values(|r: NamedRow| negated(r.amount))
}

pub open spec fn plural(n: nat) -> Seq<char> {
    if n == 1 {
        ""@
    } else {
        "s"@
    }
}

pub open spec fn installments_text(rows: Seq<NamedRow>) -> Seq<Seq<char>> {
    if rows.len() == 0 {
        seq!["Sem parcelas em aberto."@]
    } else {
        seq![
            digits(rows.len()) + " parcela"@ + plural(rows.len()) + " ativa"@ + plural(rows.len())
                + ", "@ + reais_text(sum_of(left_to_pay(rows))) + " restantes"@,
        ] + first_of(rows, 5).map_values(|r: NamedRow| row_line(RowStyle::Installment, r))
    }
}

/// A section: an empty line, a heading, and its lines.
pub open spec fn section(title: Seq<char>, lines: Seq<Seq<char>>) -> Seq<(bool, Seq<char>)> {
    seq![plain(""@), heading(title)] + plains(lines)
}

pub open spec fn accounts_text(accounts: Seq<NamedAccount>) -> Seq<(bool, Seq<char>)> {
    seq![heading("Fechamento por cartão"@)] + plains(
        accounts.map_values(|a: NamedAccount| account_line(a)),
    )
}

pub open spec fn closed_text(rows: Seq<NamedRow>) -> Seq<(bool, Seq<char>)> {
    if rows.len() == 0 {
        Seq::empty()
    } else {
        seq![plain(""@), plain(bold_text("Fechadas nesta fatura:"@))] + plains(
            first_of(rows, 5).map_values(|r: NamedRow| row_line(RowStyle::Installment, r)),
        )
    }
}

/// The rows of a section, at most `most`, or a sentence where there are none.
pub open spec fn shown_rows(rows: Seq<NamedRow>, style: RowStyle, most: int, none: Seq<char>) -> Seq<
    Seq<char>,
> {
    rows_or(first_of(rows, most).map_values(|r: NamedRow| row_line(style, r)), none)
}

/// The insights in words.
pub open spec fn insights_text(x: NamedInsights) -> Seq<(bool, Seq<char>)> {
    let head = seq![
        plain("🧾 "@ + bold_text("Fatura fechada · "@ + month_name(x.month_ref@))),
        plain(""@),
    ];
    if x.accounts@.len() == 0 {
        head.push(plain("Sem cartões com movimentos no mês."@))
    } else {
        head + accounts_text(x.accounts@) + section(
            "Top categorias"@,
            shown_rows(x.categories@, RowStyle::Category, 3, "Sem categorias detectadas."@),
        ) + section(
            "Assinaturas"@,
            shown_rows(
                x.subscriptions@,
                RowStyle::Subscription,
                8,
                "Nenhuma assinatura detectada."@,
            ),
        ) + section("Parcelamentos"@, installments_text(x.open_installments@)) + closed_text(
            x.closed_installments@,
        ) + section(
            "Recorrentes"@,
            shown_rows(x.recurring@, RowStyle::Recurring, 6, "Nenhum recorrente detectado."@),
        )
    }
}

fn make_account_line(a: &NamedAccount) -> (r: String)
    ensures
        r@ == account_line(*a),
{
    let open = a.open_amount.neg();
    let mut out = chars("• ");
    put(&mut out, bold(truncate_with_ellipsis(a.name.as_str(), 24).as_str()).as_str());
    put(&mut out, " — ");
    put(&mut out, reais(a.closed_amount.neg()).as_str());
    put(&mut out, " · ");
    if open.is_above_zero() {
        put(&mut out, glue("🟡 aberto ", reais(open).as_str()).as_str());
    } else {
        put(&mut out, "🟢 pago");
    }
    assert(out@ =~= account_line(*a));
    from_chars(&out)
}

/// Which line a row is written as.
#[derive(Clone, Copy)]
pub enum RowStyle {
    Category,
    Subscription,
    Installment,
    Recurring,
}

pub open spec fn row_line(style: RowStyle, r: NamedRow) -> Seq<char> {
    match style {
        RowStyle::Category => category_line(r),
        RowStyle::Subscription => subscription_line(r),
        RowStyle::Installment => installment_line(r),
        RowStyle::Recurring => recurring_line(r),
    }
}

fn make_row_line(style: RowStyle, r: &NamedRow) -> (s: String)
    ensures
        s@ == row_line(style, *r),
{
    let mut out = chars("• ");
    let amount = reais(r.amount.neg());
    match style {
        RowStyle::Category => {
            put(&mut out, category_emoji(r.name.as_str()));
            put(&mut out, " ");
            let label = replace_char(
                replace_char(r.name.as_str(), ':', " › ").as_str(),
                '-',
                " ",
            );
            put(&mut out, label.as_str());
            put(&mut out, " — ");
            put(&mut out, amount.as_str());
            put(&mut out, " (");
            put(&mut out, number(r.count as u64).as_str());
            put(&mut out, " txn)");
        },
        RowStyle::Subscription => {
            put(&mut out, truncate_with_ellipsis(r.name.as_str(), 28).as_str());
            put(&mut out, " — ");
            put(&mut out, amount.as_str());
            put(&mut out, "/mês");
        },
        RowStyle::Installment => {
            put(&mut out, truncate_with_ellipsis(r.name.as_str(), 24).as_str());
            put(&mut out, " (");
            put(&mut out, r.detail.as_str());
            put(&mut out, ") — ");
            put(&mut out, amount.as_str());
        },
        RowStyle::Recurring => {
            put(&mut out, truncate_with_ellipsis(r.name.as_str(), 28).as_str());
            put(&mut out, " — ");
            put(&mut out, amount.as_str());
            put(&mut out, " (");
            put(&mut out, number(r.count as u64).as_str());
            put(&mut out, " meses)");
        },
    }
    assert(out@ =~= row_line(style, *r));
    from_chars(&out)
}

fn make_rows(rows: &Vec<NamedRow>, style: RowStyle, most: usize) -> (r: Vec<String>)
    ensures
        texts(r@) == first_of(rows@, most as int).map_values(|x: NamedRow| row_line(style, x)),
{
    let ghost want = first_of(rows@, most as int).map_values(|x: NamedRow| row_line(style, x));
    let mut out: Vec<String> = Vec::new();
    let mut i: usize = 0;
    assert(texts(out@) =~= want.take(0));
    while i < rows.len() && i < most
        invariant
            i <= rows.len(),
            i <= most,
            want == first_of(rows@, most as int).map_values(|x: NamedRow| row_line(style, x)),
            texts(out@) == want.take(i as int),
        decreases rows.len() - i,
    {
        push_text(&mut out, make_row_line(style, &rows[i]));
        i = i + 1;
        assert(texts(out@) =~= want.take(i as int));
    }
    assert(want.take(i as int) =~= want);
    out
}

fn say_rows(
    out: &mut Vec<ReportLine>,
    title: &str,
    rows: &Vec<NamedRow>,
    style: RowStyle,
    most: usize,
    none: &str,
)
    ensures
        report_views(final(out)@) == report_views(old(out)@) + section(
            title@,
            shown_rows(rows@, style, most as int, none@),
        ),
{
    let ghost start = report_views(out@);
    say(out, "".to_string());
    say_heading(out, title);
    let lines = make_rows(rows, style, most);
    assert(texts(lines@).len() == lines@.len());
    if lines.len() == 0 {
        say(out, none.to_string());
    } else {
        say_all(out, lines);
    }
    assert(report_views(out@) =~= start + section(
        title@,
        shown_rows(rows@, style, most as int, none@),
    ));
}

fn say_installments(out: &mut Vec<ReportLine>, rows: &Vec<NamedRow>)
    requires
        full_weight(left_to_pay(rows@)) <= limit(),
    ensures
        report_views(final(out)@) == report_views(old(out)@) + section(
            "Parcelamentos"@,
            installments_text(rows@),
        ),
{
    let ghost start = report_views(out@);
    say(out, "".to_string());
    say_heading(out, "Parcelamentos");
    if rows.len() == 0 {
        say(out, "Sem parcelas em aberto.".to_string());
        assert(report_views(out@) =~= start + section(
            "Parcelamentos"@,
            installments_text(rows@),
        ));
        return;
    }
    let mut amounts: Vec<Amount> = Vec::new();
    let mut i: usize = 0;
    while i < rows.len()
        invariant
            i <= rows.len(),
            amounts@ == left_to_pay(rows@).take(i as int),
        decreases rows.len() - i,
    {
        amounts.push(rows[i].amount.neg());
        i = i + 1;
        assert(amounts@ =~= left_to_pay(rows@).take(i as int));
    }
    assert(amounts@ =~= left_to_pay(rows@));
    let total = total_of_all(&amounts);
    let ending = if rows.len() == 1 {
        ""
    } else {
        "s"
    };
    let mut line = chars(number(rows.len() as u64).as_str());
    put(&mut line, " parcela");
    put(&mut line, ending);
    put(&mut line, " ativa");
    put(&mut line, ending);
    put(&mut line, ", ");
    put(&mut line, reais(total).as_str());
    put(&mut line, " restantes");
    say(out, from_chars(&line));
    let lines = make_rows(rows, RowStyle::Installment, 5);
    say_all(out, lines);
    assert(report_views(out@) =~= start + section("Parcelamentos"@, installments_text(rows@)));
}

fn say_accounts(out: &mut Vec<ReportLine>, accounts: &Vec<NamedAccount>)
    ensures
        report_views(final(out)@) == report_views(old(out)@) + accounts_text(accounts@),
{
    let ghost start = report_views(out@);
    say_heading(out, "Fechamento por cartão");
    let ghost before = report_views(out@);
    let ghost want = plains(accounts@.map_values(|a: NamedAccount| account_line(a)));
    let mut i: usize = 0;
    assert(before + want.take(0) =~= before);
    while i < accounts.len()
        invariant
            i <= accounts.len(),
            want == plains(accounts@.map_values(|a: NamedAccount| account_line(a))),
            report_views(out@) == before + want.take(i as int),
        decreases accounts.len() - i,
    {
        say(out, make_account_line(&accounts[i]));
        i = i + 1;
        assert(report_views(out@) =~= before + want.take(i as int));
    }
    assert(want.take(i as int) =~= want);
    assert(report_views(out@) =~= start + accounts_text(accounts@));
}

fn say_closed(out: &mut Vec<ReportLine>, rows: &Vec<NamedRow>)
    ensures
        report_views(final(out)@) == report_views(old(out)@) + closed_text(rows@),
{
    let ghost start = report_views(out@);
    if rows.len() > 0 {
        say(out, "".to_string());
        say(out, bold("Fechadas nesta fatura:"));
        let lines = make_rows(rows, RowStyle::Installment, 5);
        say_all(out, lines);
    }
    assert(report_views(out@) =~= start + closed_text(rows@));
}

/// The insights in words.
pub fn tell_insights(x: &NamedInsights) -> (r: Vec<ReportLine>)
    requires
        full_weight(left_to_pay(x.open_installments@)) <= limit(),
    ensures
        report_views(r@) == insights_text(*x),
{
    let mut out: Vec<ReportLine> = Vec::new();
    assert(report_views(out@) =~= Seq::<(bool, Seq<char>)>::empty());
    let title = glue("Fatura fechada · ", month_label(x.month_ref.as_str()).as_str());
    say(&mut out, glue("🧾 ", bold(title.as_str()).as_str()));
    say(&mut out, "".to_string());
    assert(report_views(out@) =~= seq![
        plain("🧾 "@ + bold_text("Fatura fechada · "@ + month_name(x.month_ref@))),
        plain(""@),
    ]);
    if x.accounts.len() == 0 {
        say(&mut out, "Sem cartões com movimentos no mês.".to_string());
        return out;
    }
    say_accounts(&mut out, &x.accounts);
    say_rows(
        &mut out,
        "Top categorias",
        &x.categories,
        RowStyle::Category,
        3,
        "Sem categorias detectadas.",
    );
    say_rows(
        &mut out,
        "Assinaturas",
        &x.subscriptions,
        RowStyle::Subscription,
        8,
        "Nenhuma assinatura detectada.",
    );
    say_installments(&mut out, &x.open_installments);
    say_closed(&mut out, &x.closed_installments);
    say_rows(
        &mut out,
        "Recorrentes",
        &x.recurring,
        RowStyle::Recurring,
        6,
        "Nenhum recorrente detectado.",
    );
    out
}

} // verus!
