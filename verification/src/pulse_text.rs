//! The pulse as a message.

use crate::amount::{abs, limit, magnitude, minus, Amount};
use crate::date::{
    date_of, days_in_month, month_length, signed_number, signed_text, two_digits, valid_date, Date,
};
use crate::description::normalize_inline_text;
use crate::human::{
    bold, bold_text, category_emoji, emoji_of, pretty_category_label, pretty_label, reais,
    reais_text, short_date, short_date_text, truncate_with_ellipsis, truncated, whole_number,
    whole_number_text,
};
use crate::insights::CardSummaryRow;
use crate::metadata::{get, member, parse_i32, parse_u32, parsed_i32, parsed_u32, Json};
use crate::money::{brl_signed, brl_signed_text};
use crate::pulse::{
    BudgetStatusRow, CategoryOverspend, ClosingPlan, ClosingStatus, ForecastRecord, PulseData,
};
use crate::records::AccountRecord;
use crate::text::{
    break_lines, chars, contains_char, digits, from_chars, glue, glue3, joined, number,
    padded_digits, push_text, put, same, split_at_char, split_once, texts, trim_end,
    trim_end_chars, with_breaks, words,
};
use vstd::prelude::*;

verus! {

/// Portuguese short names of the weekdays, counted from Monday.
pub open spec fn weekday_short(n: int) -> Seq<char> {
    if n == 0 {
        "seg"@
    } else if n == 1 {
        "ter"@
    } else if n == 2 {
        "qua"@
    } else if n == 3 {
        "qui"@
    } else if n == 4 {
        "sex"@
    } else if n == 5 {
        "sáb"@
    } else {
        "dom"@
    }
}

/// A day such as `qua 18/mai`.
pub open spec fn header_date(d: Date) -> Seq<char> {
    weekday_short((d.number() - 1) % 7) + " "@ + short_date_text(d)
}

/// A day such as `qua 18/mai`.
pub fn br_date_header(date: &Date) -> (r: String)
    ensures
        r@ == header_date(*date),
{
    let n = date.weekday();
    let name = if n == 0 {
        "seg"
    } else if n == 1 {
        "ter"
    } else if n == 2 {
        "qua"
    } else if n == 3 {
        "qui"
    } else if n == 4 {
        "sex"
    } else if n == 5 {
        "sáb"
    } else {
        "dom"
    };
    glue3(name, " ", short_date(date).as_str())
}

/// The first account with the identifier.
pub open spec fn account_of(accounts: Seq<AccountRecord>, id: Seq<char>) -> Option<AccountRecord>
    decreases accounts.len(),
{
    if accounts.len() == 0 {
        None
    } else if accounts[0].account_id@ == id {
        Some(accounts[0])
    } else {
        account_of(accounts.drop_first(), id)
    }
}

fn find_account<'a>(accounts: &'a Vec<AccountRecord>, id: &str) -> (r: Option<&'a AccountRecord>)
    ensures
        match r {
            Some(a) => account_of(accounts@, id@) == Some(*a),
            None => account_of(accounts@, id@) is None,
        },
{
    let mut i: usize = 0;
    assert(accounts@.skip(0) =~= accounts@);
    while i < accounts.len()
        invariant
            i <= accounts.len(),
            account_of(accounts@, id@) == account_of(accounts@.skip(i as int), id@),
        decreases accounts.len() - i,
    {
        assert(accounts@.skip(i as int).drop_first() =~= accounts@.skip(i + 1));
        if same(accounts[i].account_id.as_str(), id) {
            return Some(&accounts[i]);
        }
        i = i + 1;
    }
    None
}

/// The day of the month on which a card's bills are due, where its metadata names
/// one as a text.
pub open spec fn due_day_text(account: AccountRecord) -> Option<u32> {
    match member(account.metadata_json, "billing_due_day"@) {
        Some(Json::Text(t)) => match parsed_u32(t@) {
            Some(d) if 1 <= d <= 31 => Some(d),
            _ => None,
        },
        _ => None,
    }
}

/// The year and month that a cycle names: two numbers with one hyphen between them.
pub open spec fn cycle_month(cycle: Seq<char>) -> Option<(int, int)> {
    match split_at_char(cycle, '-') {
        Some((y, m)) => if m.contains('-') {
            None
        } else {
            match (parsed_i32(y), parsed_u32(m)) {
                (Some(y), Some(m)) => if valid_date(y as int, m as int, 1) {
                    Some((y as int, m as int))
                } else {
                    None
                },
                _ => None,
            }
        },
        None => None,
    }
}

/// When a cycle's bill is due: on its day, or on the last of a shorter month.
pub open spec fn due_date_of(
    accounts: Seq<AccountRecord>,
    id: Seq<char>,
    cycle: Seq<char>,
) -> Option<Date> {
    match account_of(accounts, id) {
        Some(a) => match (due_day_text(a), cycle_month(cycle)) {
            (Some(day), Some((y, m))) => Some(
                date_of(
                    y,
                    m,
                    if day <= month_length(y, m) {
                        day as int
                    } else {
                        month_length(y, m)
                    },
                ),
            ),
            _ => None,
        },
        None => None,
    }
}

pub open spec fn due_label(due: Date, today: Date) -> Seq<char> {
    (if due.before(today) {
        "venceu"@
    } else {
        "vence"@
    }) + " "@ + short_date_text(due)
}

/// When a card's bill is due, or was.
pub fn card_due_label(
    accounts: &Vec<AccountRecord>,
    account_id: &str,
    cycle_ref: &str,
    today: &Date,
) -> (r: Option<String>)
    ensures
        match (r, due_date_of(accounts@, account_id@, cycle_ref@)) {
            (Some(t), Some(due)) => t@ == due_label(due, *today),
            (None, None) => true,
            _ => false,
        },
{
    let account = match find_account(accounts, account_id) {
        Some(a) => a,
        None => {
            return None;
        },
    };
    let day: u32 = match get(&account.metadata_json, "billing_due_day") {
        Some(Json::Text(t)) => match parse_u32(t.as_str()) {
            Some(d) => d,
            None => {
                return None;
            },
        },
        _ => {
            return None;
        },
    };
    if day < 1 || day > 31 {
        return None;
    }
    let (year, month): (i32, u32) = match split_once(cycle_ref, '-') {
        Some((y, m)) => {
            if contains_char(m.as_str(), '-') {
                return None;
            }
            match (parse_i32(y.as_str()), parse_u32(m.as_str())) {
                (Some(y), Some(m)) => (y, m),
                _ => {
                    return None;
                },
            }
        },
        None => {
            return None;
        },
    };
    let first = match Date::from_ymd_opt(year, month, 1) {
        Some(d) => d,
        None => {
            return None;
        },
    };
    proof {
        broadcast use crate::date::lemma_date_of;

    }
    let last = days_in_month(&first);
    let due = match Date::from_ymd_opt(
        year,
        month,
        if day <= last {
            day
        } else {
            last
        },
    ) {
        Some(d) => d,
        None => {
            return None;
        },
    };
    let verb = if due.is_before(today) {
        "venceu"
    } else {
        "vence"
    };
    Some(glue3(verb, " ", short_date(&due).as_str()))
}

/// How a card is called: by its label, or by its identifier where it has none.
pub open spec fn account_label(accounts: Seq<AccountRecord>, id: Seq<char>) -> Seq<char> {
    match account_of(accounts, id) {
        Some(a) => if a.label@.len() == 0 {
            a.account_id@
        } else {
            a.label@
        },
        None => id,
    }
}

/// How a card is called.
pub fn card_account_label(accounts: &Vec<AccountRecord>, account_id: &str) -> (r: String)
    ensures
        r@ == account_label(accounts@, account_id@),
{
    match find_account(accounts, account_id) {
        Some(a) => if a.label.as_str().is_empty() {
            a.account_id.clone()
        } else {
            a.label.clone()
        },
        None => account_id.to_string(),
    }
}

// ---------------------------------------------------------------------------
// The blocks of the message

pub open spec fn title_line(data: PulseData, days: int) -> Seq<char> {
    "💸 "@ + bold_text(
        if days <= 1 {
            "Pulso · "@ + header_date(data.today)
        } else {
            "Pulso · últimos "@ + signed_text(days) + "d · "@ + header_date(data.today)
        },
    )
}

pub open spec fn month_lines(data: PulseData, plan: ClosingPlan) -> Seq<Seq<char>> {
    let net = minus(data.mtd.income, data.mtd.expenses);
    seq![
        bold_text(
            "Mês até dia "@ + two_digits(data.today.d()) + " · "@ + digits(plan.days_left as nat)
                + " dias restantes"@,
        ) + " "@ + (if net.sign() {
            "🔻"@
        } else {
            "✅"@
        }),
        "  entradas "@ + reais_text(data.mtd.income) + " · saídas "@ + reais_text(
            data.mtd.expenses,
        ) + " · saldo "@ + brl_signed_text(net),
    ]
}

pub open spec fn status_lines(data: PulseData, plan: ClosingPlan) -> Seq<Seq<char>> {
    let net = brl_signed_text(plan.projected_eom_net);
    match plan.status {
        ClosingStatus::OnTrack => seq![
            "🎯 "@ + bold_text("Fecha positivo no ritmo atual"@) + " (proj. "@ + net + ")"@,
        ],
        ClosingStatus::Tight => match plan.max_weekly_variable_for_zero {
            Some(weekly) => seq![
                "⚠️ "@ + bold_text("Fecha negativo"@) + " no ritmo T3M (proj. "@ + net + ")"@,
                "   Para fechar zerado: até "@ + bold_text(reais_text(weekly)) + " por semana ("@
                    + digits(plan.weeks_left as nat) + " sem) em variáveis"@,
            ],
            None => Seq::empty(),
        },
        ClosingStatus::Stretched => seq![
            "🚨 "@ + bold_text("Mês fecha negativo"@) + " mesmo cortando variáveis (proj. "@ + net
                + ")"@,
            "   Compromissos fixos restantes ("@ + reais_text(data.upcoming_total)
                + ") excedem a receita esperada do mês"@,
        ],
    }
}

pub open spec fn brake_line(c: CategoryOverspend) -> Seq<char> {
    "  "@ + emoji_of(c.category_id@) + " "@ + pretty_label(c.category_id@) + " · gasto MtD "@
        + reais_text(c.mtd) + " (proj. +"@ + signed_text(c.over_pct as int) + "% vs média)"@
}

pub open spec fn brake_lines(list: Seq<CategoryOverspend>) -> Seq<Seq<char>> {
    if list.len() == 0 {
        Seq::empty()
    } else {
        seq![Seq::<char>::empty(), bold_text("Frear neste mês"@)] + list.map_values(
            |c: CategoryOverspend| brake_line(c),
        )
    }
}

pub open spec fn upcoming_line(f: ForecastRecord) -> Seq<char> {
    "  • "@ + (match f.due_date {
        Some(d) => short_date_text(d),
        None => "—"@,
    }) + " · "@ + truncated(joined(words(f.description@), seq![' ']), 28) + " · "@ + reais_text(
        magnitude(f.amount),
    )
}

pub open spec fn upcoming_lines(list: Seq<ForecastRecord>, total: Amount) -> Seq<Seq<char>> {
    if list.len() == 0 {
        Seq::empty()
    } else {
        let shown = if list.len() <= 6 {
            list
        } else {
            list.take(6)
        };
        seq![
            Seq::<char>::empty(),
            bold_text("A vencer"@) + " ("@ + reais_text(total) + " no total até fim do mês)"@,
        ] + shown.map_values(|f: ForecastRecord| upcoming_line(f)) + (if list.len() > 6 {
            seq!["  _… mais "@ + digits((list.len() - 6) as nat) + " compromissos_"@]
        } else {
            Seq::empty()
        })
    }
}

pub open spec fn card_line(c: CardSummaryRow, accounts: Seq<AccountRecord>, today: Date) -> Seq<
    char,
> {
    "  💳 "@ + account_label(accounts, c.account_id@) + " · "@ + reais_text(c.open_amount) + (
    match due_date_of(accounts, c.account_id@, c.month_ref@) {
        Some(due) => " ("@ + due_label(due, today) + ")"@,
        None => ""@,
    })
}

/// The lines of the cards with something open, among the first `n`.
pub open spec fn open_card_lines(data: PulseData, n: int) -> Seq<Seq<char>>
    decreases n,
{
    if n <= 0 {
        Seq::empty()
    } else if data.cards@[n - 1].open_amount.scaled() > 0 {
        open_card_lines(data, n - 1).push(
            card_line(data.cards@[n - 1], data.accounts@, data.today),
        )
    } else {
        open_card_lines(data, n - 1)
    }
}

pub open spec fn card_lines(data: PulseData) -> Seq<Seq<char>> {
    let open = open_card_lines(data, data.cards@.len() as int);
    if open.len() == 0 {
        Seq::empty()
    } else {
        seq![Seq::<char>::empty(), bold_text("Cartões em aberto"@)] + open
    }
}

pub open spec fn alert_text(b: BudgetStatusRow) -> Seq<char> {
    (if b.alert {
        "🚨"@
    } else {
        "⚠️"@
    }) + " "@ + whole_number_text(b.usage_pct) + "% do orçamento de "@ + pretty_label(
        b.category_id@,
    )
}

/// What there is to do.
pub open spec fn actions(data: PulseData) -> Seq<Seq<char>> {
    (if data.uncategorized_count > 0 {
        seq![
            digits(data.uncategorized_count as nat) + " lançamento"@ + (
            if data.uncategorized_count == 1 {
                ""@
            } else {
                "s"@
            }) + " sem categoria"@,
        ]
    } else {
        Seq::empty()
    }) + data.budget_alerts@.map_values(|b: BudgetStatusRow| alert_text(b))
}

pub open spec fn action_lines(data: PulseData) -> Seq<Seq<char>> {
    if actions(data).len() == 0 {
        Seq::empty()
    } else {
        seq![Seq::<char>::empty(), bold_text("Ação"@)] + actions(data).map_values(
            |a: Seq<char>| "  • "@ + a,
        )
    }
}

/// The lines of the message.
pub open spec fn pulse_lines(data: PulseData, plan: ClosingPlan, days: int) -> Seq<Seq<char>> {
    seq![title_line(data, days), Seq::<char>::empty()] + month_lines(data, plan) + seq![
        Seq::<char>::empty(),
    ] + status_lines(data, plan) + brake_lines(plan.categories_to_brake@) + upcoming_lines(
        data.upcoming@,
        data.upcoming_total,
    ) + card_lines(data) + action_lines(data)
}

// ---------------------------------------------------------------------------
// Writing the blocks

fn put_blank(out: &mut Vec<String>)
    ensures
        texts(final(out)@) == texts(old(out)@).push(Seq::<char>::empty()),
{
    let blank = String::new();
    assert(blank@ =~= Seq::<char>::empty());
    push_text(out, blank);
}

fn put_title(out: &mut Vec<String>, data: &PulseData, days: i64)
    ensures
        texts(final(out)@) == texts(old(out)@).push(title_line(*data, days as int)),
{
    let date = br_date_header(&data.today);
    let title = if days <= 1 {
        glue("Pulso · ", date.as_str())
    } else {
        let mut t = chars("Pulso · últimos ");
        put(&mut t, signed_number(days).as_str());
        put(&mut t, "d · ");
        put(&mut t, date.as_str());
        from_chars(&t)
    };
    push_text(out, glue("💸 ", bold(title.as_str()).as_str()));
}

fn put_month(out: &mut Vec<String>, data: &PulseData, plan: &ClosingPlan)
    requires
        abs(data.mtd.income.scaled() - data.mtd.expenses.scaled()) <= limit(),
    ensures
        texts(final(out)@) == texts(old(out)@) + month_lines(*data, *plan),
{
    let ghost start = texts(out@);
    let net = data.mtd.income.subtracted(&data.mtd.expenses);
    let mut head = chars("Mês até dia ");
    crate::text::append_chars(&mut head, &padded_digits(data.today.day() as u128, 2));
    put(&mut head, " · ");
    put(&mut head, number(plan.days_left as u64).as_str());
    put(&mut head, " dias restantes");
    let mark = if net.is_sign_negative() {
        "🔻"
    } else {
        "✅"
    };
    push_text(out, glue3(bold(from_chars(&head).as_str()).as_str(), " ", mark));
    let mut line = chars("  entradas ");
    put(&mut line, reais(data.mtd.income).as_str());
    put(&mut line, " · saídas ");
    put(&mut line, reais(data.mtd.expenses).as_str());
    put(&mut line, " · saldo ");
    put(&mut line, brl_signed(net).as_str());
    push_text(out, from_chars(&line));
    assert(texts(out@) =~= start + month_lines(*data, *plan));
}

fn put_status(out: &mut Vec<String>, data: &PulseData, plan: &ClosingPlan)
    ensures
        texts(final(out)@) == texts(old(out)@) + status_lines(*data, *plan),
{
    let ghost start = texts(out@);
    let net = brl_signed(plan.projected_eom_net);
    match plan.status {
        ClosingStatus::OnTrack => {
            let mut line = chars("🎯 ");
            put(&mut line, bold("Fecha positivo no ritmo atual").as_str());
            put(&mut line, " (proj. ");
            put(&mut line, net.as_str());
            put(&mut line, ")");
            push_text(out, from_chars(&line));
        },
        ClosingStatus::Tight => {
            match plan.max_weekly_variable_for_zero {
                Some(weekly) => {
                    let mut line = chars("⚠️ ");
                    put(&mut line, bold("Fecha negativo").as_str());
                    put(&mut line, " no ritmo T3M (proj. ");
                    put(&mut line, net.as_str());
                    put(&mut line, ")");
                    push_text(out, from_chars(&line));
                    let mut line = chars("   Para fechar zerado: até ");
                    put(&mut line, bold(reais(weekly).as_str()).as_str());
                    put(&mut line, " por semana (");
                    put(&mut line, number(plan.weeks_left as u64).as_str());
                    put(&mut line, " sem) em variáveis");
                    push_text(out, from_chars(&line));
                },
                None => {},
            }
        },
        ClosingStatus::Stretched => {
            let mut line = chars("🚨 ");
            put(&mut line, bold("Mês fecha negativo").as_str());
            put(&mut line, " mesmo cortando variáveis (proj. ");
            put(&mut line, net.as_str());
            put(&mut line, ")");
            push_text(out, from_chars(&line));
            let mut line = chars("   Compromissos fixos restantes (");
            put(&mut line, reais(data.upcoming_total).as_str());
            put(&mut line, ") excedem a receita esperada do mês");
            push_text(out, from_chars(&line));
        },
    }
    assert(texts(out@) =~= start + status_lines(*data, *plan));
}

fn brake_text(c: &CategoryOverspend) -> (r: String)
    ensures
        r@ == brake_line(*c),
{
    let mut line = chars("  ");
    put(&mut line, category_emoji(c.category_id.as_str()));
    put(&mut line, " ");
    put(&mut line, pretty_category_label(c.category_id.as_str()).as_str());
    put(&mut line, " · gasto MtD ");
    put(&mut line, reais(c.mtd).as_str());
    put(&mut line, " (proj. +");
    put(&mut line, signed_number(c.over_pct).as_str());
    put(&mut line, "% vs média)");
    from_chars(&line)
}

fn put_brakes(out: &mut Vec<String>, list: &Vec<CategoryOverspend>)
    ensures
        texts(final(out)@) == texts(old(out)@) + brake_lines(list@),
{
    if list.len() == 0 {
        assert(texts(out@) =~= texts(old(out)@) + brake_lines(list@));
        return;
    }
    let ghost start = texts(out@);
    let ghost all = list@.map_values(|c: CategoryOverspend| brake_line(c));
    put_blank(out);
    push_text(out, bold("Frear neste mês"));
    let ghost head = seq![Seq::<char>::empty(), bold_text("Frear neste mês"@)];
    let mut i: usize = 0;
    assert(texts(out@) =~= start + head + all.take(0));
    while i < list.len()
        invariant
            i <= list.len(),
            all == list@.map_values(|c: CategoryOverspend| brake_line(c)),
            texts(out@) == start + head + all.take(i as int),
        decreases list.len() - i,
    {
        push_text(out, brake_text(&list[i]));
        i = i + 1;
        assert(texts(out@) =~= start + head + all.take(i as int));
    }
    assert(texts(out@) =~= start + brake_lines(list@));
}

fn upcoming_text(f: &ForecastRecord) -> (r: String)
    ensures
        r@ == upcoming_line(*f),
{
    let mut line = chars("  • ");
    match &f.due_date {
        Some(d) => put(&mut line, short_date(d).as_str()),
        None => put(&mut line, "—"),
    }
    put(&mut line, " · ");
    let desc = normalize_inline_text(f.description.as_str());
    put(&mut line, truncate_with_ellipsis(desc.as_str(), 28).as_str());
    put(&mut line, " · ");
    put(&mut line, reais(f.amount.abs()).as_str());
    from_chars(&line)
}

fn put_upcoming(out: &mut Vec<String>, list: &Vec<ForecastRecord>, total: Amount)
    ensures
        texts(final(out)@) == texts(old(out)@) + upcoming_lines(list@, total),
{
    if list.len() == 0 {
        assert(texts(out@) =~= texts(old(out)@) + upcoming_lines(list@, total));
        return;
    }
    let ghost start = texts(out@);
    put_blank(out);
    let mut line = chars(bold("A vencer").as_str());
    put(&mut line, " (");
    put(&mut line, reais(total).as_str());
    put(&mut line, " no total até fim do mês)");
    push_text(out, from_chars(&line));
    let ghost head = seq![
        Seq::<char>::empty(),
        bold_text("A vencer"@) + " ("@ + reais_text(total) + " no total até fim do mês)"@,
    ];
    let count: usize = if list.len() <= 6 {
        list.len()
    } else {
        6
    };
    let ghost shown = list@.take(count as int);
    let ghost all = shown.map_values(|f: ForecastRecord| upcoming_line(f));
    let mut i: usize = 0;
    assert(texts(out@) =~= start + head + all.take(0));
    while i < count
        invariant
            i <= count <= list.len(),
            shown == list@.take(count as int),
            all == shown.map_values(|f: ForecastRecord| upcoming_line(f)),
            texts(out@) == start + head + all.take(i as int),
        decreases count - i,
    {
        push_text(out, upcoming_text(&list[i]));
        i = i + 1;
        assert(texts(out@) =~= start + head + all.take(i as int));
    }
    assert(all.take(i as int) =~= all);
    if list.len() > 6 {
        push_text(
            out,
            glue3("  _… mais ", number((list.len() - 6) as u64).as_str(), " compromissos_"),
        );
    } else {
        assert(shown =~= list@);
    }
    assert(texts(out@) =~= start + upcoming_lines(list@, total));
}

fn card_text(c: &CardSummaryRow, accounts: &Vec<AccountRecord>, today: &Date) -> (r: String)
    ensures
        r@ == card_line(*c, accounts@, *today),
{
    let mut line = chars("  💳 ");
    put(&mut line, card_account_label(accounts, c.account_id.as_str()).as_str());
    put(&mut line, " · ");
    put(&mut line, reais(c.open_amount).as_str());
    let due = card_due_label(accounts, c.account_id.as_str(), c.month_ref.as_str(), today);
    let tail = match due {
        Some(d) => glue3(" (", d.as_str(), ")"),
        None => "".to_string(),
    };
    put(&mut line, tail.as_str());
    from_chars(&line)
}

fn put_cards(out: &mut Vec<String>, data: &PulseData)
    ensures
        texts(final(out)@) == texts(old(out)@) + card_lines(*data),
{
    let ghost start = texts(out@);
    let mut open: Vec<String> = Vec::new();
    let mut i: usize = 0;
    assert(texts(open@) =~= open_card_lines(*data, 0));
    while i < data.cards.len()
        invariant
            i <= data.cards.len(),
            texts(open@) == open_card_lines(*data, i as int),
        decreases data.cards.len() - i,
    {
        if data.cards[i].open_amount.is_above_zero() {
            push_text(&mut open, card_text(&data.cards[i], &data.accounts, &data.today));
        }
        i = i + 1;
    }
    assert(texts(open@).len() == open@.len());
    if open.len() == 0 {
        assert(texts(out@) =~= start + card_lines(*data));
        return;
    }
    put_blank(out);
    push_text(out, bold("Cartões em aberto"));
    let ghost now = texts(out@);
    let ghost more = texts(open@);
    out.append(&mut open);
    assert(texts(out@) =~= now + more);
    assert(texts(out@) =~= start + card_lines(*data));
}

fn list_actions(data: &PulseData) -> (r: Vec<String>)
    ensures
        texts(r@) == actions(*data),
{
    let mut out: Vec<String> = Vec::new();
    assert(texts(out@) =~= Seq::<Seq<char>>::empty());
    if data.uncategorized_count > 0 {
        let mut line = chars(number(data.uncategorized_count as u64).as_str());
        put(&mut line, " lançamento");
        put(
            &mut line,
            if data.uncategorized_count == 1 {
                ""
            } else {
                "s"
            },
        );
        put(&mut line, " sem categoria");
        push_text(&mut out, from_chars(&line));
    }
    let ghost head = texts(out@);
    let ghost all = data.budget_alerts@.map_values(|b: BudgetStatusRow| alert_text(b));
    let mut i: usize = 0;
    assert(texts(out@) =~= head + all.take(0));
    while i < data.budget_alerts.len()
        invariant
            i <= data.budget_alerts.len(),
            all == data.budget_alerts@.map_values(|b: BudgetStatusRow| alert_text(b)),
            texts(out@) == head + all.take(i as int),
        decreases data.budget_alerts.len() - i,
    {
        let b = &data.budget_alerts[i];
        let mut line = chars(
            if b.alert {
                "🚨"
            } else {
                "⚠️"
            },
        );
        put(&mut line, " ");
        put(&mut line, whole_number(b.usage_pct).as_str());
        put(&mut line, "% do orçamento de ");
        put(&mut line, pretty_category_label(b.category_id.as_str()).as_str());
        push_text(&mut out, from_chars(&line));
        i = i + 1;
        assert(texts(out@) =~= head + all.take(i as int));
    }
    assert(texts(out@) =~= actions(*data));
    out
}

fn put_actions(out: &mut Vec<String>, data: &PulseData)
    ensures
        texts(final(out)@) == texts(old(out)@) + action_lines(*data),
{
    let ghost start = texts(out@);
    let list = list_actions(data);
    assert(texts(list@).len() == list@.len());
    if list.len() == 0 {
        assert(texts(out@) =~= start + action_lines(*data));
        return;
    }
    put_blank(out);
    push_text(out, bold("Ação"));
    let ghost head = seq![Seq::<char>::empty(), bold_text("Ação"@)];
    let ghost all = actions(*data).map_values(|a: Seq<char>| "  • "@ + a);
    let mut i: usize = 0;
    assert(texts(out@) =~= start + head + all.take(0));
    while i < list.len()
        invariant
            i <= list.len(),
            texts(list@) == actions(*data),
            all == actions(*data).map_values(|a: Seq<char>| "  • "@ + a),
            texts(out@) == start + head + all.take(i as int),
        decreases list.len() - i,
    {
        assert(texts(list@)[i as int] == list@[i as int]@);
        push_text(out, glue("  • ", list[i].as_str()));
        i = i + 1;
        assert(texts(out@) =~= start + head + all.take(i as int));
    }
    assert(texts(out@) =~= start + action_lines(*data));
}

/// The pulse as a message, without white space at its end.
pub fn render_pulse(data: &PulseData, plan: &ClosingPlan, days: i64) -> (r: String)
    requires
        abs(data.mtd.income.scaled() - data.mtd.expenses.scaled()) <= limit(),
    ensures
        r@ == trim_end(with_breaks(pulse_lines(*data, *plan, days as int))),
{
    let mut out: Vec<String> = Vec::new();
    put_title(&mut out, data, days);
    put_blank(&mut out);
    assert(texts(out@) =~= seq![title_line(*data, days as int), Seq::<char>::empty()]);
    put_month(&mut out, data, plan);
    let ghost before = texts(out@);
    put_blank(&mut out);
    assert(texts(out@) =~= before + seq![Seq::<char>::empty()]);
    put_status(&mut out, data, plan);
    put_brakes(&mut out, &plan.categories_to_brake);
    put_upcoming(&mut out, &data.upcoming, data.upcoming_total);
    put_cards(&mut out, data);
    put_actions(&mut out, data);
    from_chars(&trim_end_chars(&break_lines(&out)))
}

} // verus!
