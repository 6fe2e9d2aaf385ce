//! The unified report on card bills, in words: how each bill stands, and the purchases by
//! family and subcategory.

use crate::amount::{limit, magnitude, negated, sum_of, Amount};
use crate::card_text::{heading, plain, plains, report_views, say, say_all, say_heading, ReportLine};
use crate::cards::{BillState, CardsAccountReport, CardsBillStatus, CardsMode};
use crate::date::{signed_number, signed_text, Date};
use crate::human::{
    bold, bold_text, category_emoji, category_family, emoji_of, family_label, family_of,
    label_of_family, month_label, month_name, short_date, short_date_text,
};
use crate::money::{brl_signed, brl_signed_text};
use crate::order::{as_ints, find_positions, lemma_positions, positions, sorted_keys, where_at};
use crate::ranking::{rank, rank_at, ranked, ranked_at, total_by_key, totals_by, Placed};
use crate::records::text_or_empty;
use crate::sums::{
    ascending, full_weight, lemma_ascending_weight, lemma_where_ascending, picked, total_at,
};
use crate::text::{
    chars, contains_char, digits, from_chars, glue, glue3, number, push_text, put, replace_char,
    replaced, same, split_at_char, split_once, texts,
};
use vstd::prelude::*;

verus! {

// ---------------------------------------------------------------------------
// How each bill stands

/// How a bill stands, in words.
pub open spec fn bill_standing(s: CardsBillStatus, today: Date) -> (Seq<char>, Seq<char>) {
    match s.state {
        BillState::Paid => (
            "🟢"@,
            "pago "@ + (match s.paid_on {
                Some(d) => short_date_text(d),
                None => "—"@,
            }),
        ),
        BillState::Open => ("🟡"@, "em aberto · vence "@ + short_date_text(s.due_date)),
        BillState::Overdue => ("🔴"@, "ATRASADO · vencia "@ + short_date_text(s.due_date)),
        BillState::Partial => {
            let days = s.close_date.number() - today.number();
            (
                "🟡"@,
                "em curso · "@ + (if days > 0 {
                    "fecha em ~"@ + signed_text(days) + "d"@
                } else {
                    "fechando agora"@
                }),
            )
        },
    }
}

/// How a bill stands, in words.
pub fn tell_bill(s: &CardsBillStatus, today: &Date) -> (r: (&'static str, String))
    ensures
        (r.0@, r.1@) == bill_standing(*s, *today),
{
    match s.state {
        BillState::Paid => {
            let day = match &s.paid_on {
                Some(d) => short_date(d),
                None => "—".to_string(),
            };
            ("🟢", glue("pago ", day.as_str()))
        },
        BillState::Open => ("🟡", glue("em aberto · vence ", short_date(&s.due_date).as_str())),
        BillState::Overdue => (
            "🔴",
            glue("ATRASADO · vencia ", short_date(&s.due_date).as_str()),
        ),
        BillState::Partial => {
            let days: i64 = s.close_date.days_since(today);
            let when = if days > 0 {
                glue3("fecha em ~", signed_number(days).as_str(), "d")
            } else {
                "fechando agora".to_string()
            };
            ("🟡", glue("em curso · ", when.as_str()))
        },
    }
}

pub open spec fn bill_line(a: CardsAccountReport, today: Date) -> Seq<char> {
    let s = bill_standing(a.status, today);
    s.0 + " "@ + bold_text(a.account_id@) + " · "@ + brl_signed_text(negated(a.status.total))
        + " ("@ + digits(a.transaction_count as nat) + " lanç) · "@ + s.1
}

fn make_bill_line(a: &CardsAccountReport, today: &Date) -> (r: String)
    ensures
        r@ == bill_line(*a, *today),
{
    let (mark, status) = tell_bill(&a.status, today);
    let mut out = chars(mark);
    put(&mut out, " ");
    put(&mut out, bold(a.account_id.as_str()).as_str());
    put(&mut out, " · ");
    put(&mut out, brl_signed(a.status.total.neg()).as_str());
    put(&mut out, " (");
    put(&mut out, number(a.transaction_count as u64).as_str());
    put(&mut out, " lanç) · ");
    put(&mut out, status.as_str());
    assert(out@ =~= bill_line(*a, *today));
    from_chars(&out)
}

/// The title of the report.
pub open spec fn bills_title(month: Seq<char>, mode: CardsMode, installments_only: bool) -> Seq<char> {
    "💳 "@ + bold_text(
        "Cartões · "@ + month_name(month) + (match mode {
            CardsMode::Closed => " (fechado)"@,
            CardsMode::Next => " (em curso)"@,
            CardsMode::Specific => ""@,
        }) + (if installments_only {
            " · só parceladas"@
        } else {
            ""@
        }),
    )
}

fn make_bills_title(month: &str, mode: CardsMode, installments_only: bool) -> (r: String)
    ensures
        r@ == bills_title(month@, mode, installments_only),
{
    let mut out = chars("Cartões · ");
    put(&mut out, month_label(month).as_str());
    put(
        &mut out,
        match mode {
            CardsMode::Closed => " (fechado)",
            CardsMode::Next => " (em curso)",
            CardsMode::Specific => "",
        },
    );
    put(
        &mut out,
        if installments_only {
            " · só parceladas"
        } else {
            ""
        },
    );
    glue("💳 ", bold(from_chars(&out).as_str()).as_str())
}

// ---------------------------------------------------------------------------
// The purchases

/// A purchase, by its short name.
pub struct CardEntry {
    pub name: String,
    pub category_id: Option<String>,
    pub amount: Amount,
    pub date: Date,
}

/// The family that a purchase is listed under.
pub open spec fn entry_family(e: CardEntry) -> Seq<char> {
    match family_of(text_or_empty(e.category_id)) {
        Some(f) => f,
        None => "sem-categoria"@,
    }
}

/// The subcategory of a purchase: what stands behind the first colon.
pub open spec fn entry_sub(e: CardEntry) -> Seq<char> {
    match split_at_char(text_or_empty(e.category_id), ':') {
        Some((_, s)) => s,
        None => "—"@,
    }
}

pub open spec fn entry_families(entries: Seq<CardEntry>) -> Seq<Seq<char>> {
    entries.map_values(|e: CardEntry| entry_family(e))
}

pub open spec fn entry_amounts(entries: Seq<CardEntry>) -> Seq<Amount> {
    entries.map_values(|e: CardEntry| e.amount)
}

pub open spec fn entry_sizes(entries: Seq<CardEntry>) -> Seq<Amount> {
    entries.map_values(|e: CardEntry| magnitude(e.amount))
}

pub open spec fn entry_subs(entries: Seq<CardEntry>, at: Seq<int>) -> Seq<Seq<char>> {
    at.map_values(|i: int| entry_sub(entries[i]))
}

pub open spec fn sizes(amounts: Seq<Amount>) -> Seq<Amount> {
    amounts.map_values(|a: Amount| magnitude(a))
}

/// At most so many purchases are listed together.
pub const TX_LIMIT: usize = 5;

pub open spec fn entry_line(indent: Seq<char>, e: CardEntry) -> Seq<char> {
    indent + "• "@ + e.name@ + " · "@ + brl_signed_text(e.amount) + " ("@ + short_date_text(e.date)
        + ")"@
}

pub open spec fn more_line(indent: Seq<char>, n: nat) -> Seq<char> {
    indent + "_… mais "@ + digits(n) + " "@ + (if n == 1 {
        "lançamento"@
    } else {
        "lançamentos"@
    }) + "_"@
}

/// The purchases at the given positions, the largest first, with how many are left out.
pub open spec fn bucket_lines(
    entries: Seq<CardEntry>,
    at: Seq<int>,
    indent: Seq<char>,
    all: bool,
) -> Seq<Seq<char>> {
    let order = ranked_at(entry_sizes(entries), at);
    if !all && at.len() > TX_LIMIT {
        order.take(TX_LIMIT as int).map_values(
            |p: Placed| entry_line(indent, entries[p.at as int]),
        ).push(more_line(indent, (at.len() - TX_LIMIT) as nat))
    } else {
        order.map_values(|p: Placed| entry_line(indent, entries[p.at as int]))
    }
}

pub open spec fn sub_title(name: Seq<char>) -> Seq<char> {
    if name == "—"@ {
        "sem subcategoria"@
    } else {
        replaced(name, '-', " "@)
    }
}

/// The positions among `at` at which a subcategory stands.
pub open spec fn sub_positions(entries: Seq<CardEntry>, at: Seq<int>, name: Seq<char>) -> Seq<int> {
    positions(entry_subs(entries, at), name).map_values(|k: int| at[k])
}

/// The lines of a subcategory.
pub open spec fn sub_block(
    entries: Seq<CardEntry>,
    at: Seq<int>,
    name: Seq<char>,
    net: Amount,
    all: bool,
) -> Seq<Seq<char>> {
    let inner = sub_positions(entries, at, name);
    seq![
        "  ↳ "@ + bold_text(sub_title(name)) + " · "@ + brl_signed_text(net) + " ("@ + digits(
            inner.len(),
        ) + " lanç)"@,
    ] + bucket_lines(entries, inner, "      "@, all)
}

/// What each subcategory among `at` comes to.
pub open spec fn sub_totals(entries: Seq<CardEntry>, at: Seq<int>) -> Seq<Amount> {
    totals_by(entry_subs(entries, at), picked(entry_amounts(entries), at))
}

/// The lines of the first `n` subcategories in the order given.
pub open spec fn sub_blocks(
    entries: Seq<CardEntry>,
    at: Seq<int>,
    order: Seq<Placed>,
    all: bool,
    n: int,
) -> Seq<Seq<char>>
    decreases n,
{
    if n <= 0 {
        Seq::empty()
    } else {
        let k = order[n - 1].at as int;
        sub_blocks(entries, at, order, all, n - 1) + sub_block(
            entries,
            at,
            sorted_keys(entry_subs(entries, at))[k],
            sub_totals(entries, at)[k],
            all,
        )
    }
}

/// The lines of a family. Its purchases are listed by subcategory, unless none has one.
pub open spec fn family_block(entries: Seq<CardEntry>, family: Seq<char>, net: Amount, all: bool) -> Seq<
    Seq<char>,
> {
    let at = positions(entry_families(entries), family);
    let order = ranked(sizes(sub_totals(entries, at)));
    seq![
        emoji_of(text_or_empty(entries[at[0]].category_id)) + " "@ + bold_text(
            label_of_family(family),
        ) + " · "@ + brl_signed_text(net) + " ("@ + digits(at.len()) + " lanç)"@,
    ] + (if sorted_keys(entry_subs(entries, at)) == seq!["—"@] {
        bucket_lines(entries, at, "  "@, all)
    } else {
        sub_blocks(entries, at, order, all, order.len() as int)
    }) + seq![""@]
}

/// The lines of the first `n` families in the order given.
pub open spec fn family_blocks(entries: Seq<CardEntry>, order: Seq<Placed>, all: bool, n: int) -> Seq<
    Seq<char>,
>
    decreases n,
{
    if n <= 0 {
        Seq::empty()
    } else {
        let k = order[n - 1].at as int;
        let families = entry_families(entries);
        family_blocks(entries, order, all, n - 1) + family_block(
            entries,
            sorted_keys(families)[k],
            totals_by(families, entry_amounts(entries))[k],
            all,
        )
    }
}

/// Whether a purchase carries a category that no rule of the user gave: one without a
/// colon.
pub open spec fn feed_classified(e: CardEntry) -> bool {
    match e.category_id {
        Some(c) => c@.len() > 0 && !c@.contains(':'),
        None => false,
    }
}

pub open spec fn feed_positions(entries: Seq<CardEntry>) -> Seq<int> {
    where_at(entries.len() as int, |i: int| feed_classified(entries[i]))
}

/// The hint on the purchases that the feed classified.
pub open spec fn feed_hint(entries: Seq<CardEntry>) -> Seq<Seq<char>> {
    let at = feed_positions(entries);
    if at.len() == 0 {
        Seq::empty()
    } else {
        seq![
            "💡 "@ + digits(at.len()) + " lanç auto-classificados pela Pluggy ("@ + brl_signed_text(
                sum_of(picked(entry_amounts(entries), at)),
            ) + ") — criar regra pra consolidar"@,
            ""@,
        ]
    }
}

/// What the report on bills is made from.
pub struct BillsReport {
    pub month: String,
    pub mode: CardsMode,
    pub installments_only: bool,
    pub accounts: Vec<CardsAccountReport>,
    pub grand_total: Amount,
    pub entries: Vec<CardEntry>,
}

/// The report on bills in words.
pub open spec fn bills_text(x: BillsReport, today: Date, all: bool) -> Seq<(bool, Seq<char>)> {
    let head = seq![plain(bills_title(x.month@, x.mode, x.installments_only)), plain(""@)];
    let order = ranked(sizes(totals_by(entry_families(x.entries@), entry_amounts(x.entries@))));
    if x.entries@.len() == 0 {
        head.push(plain("_(sem lançamentos de cartão no período)_"@))
    } else {
        head + seq![heading("Visão geral"@)] + plains(
            x.accounts@.map_values(|a: CardsAccountReport| bill_line(a, today)),
        ) + seq![
            plain(bold_text("Total"@) + ": "@ + brl_signed_text(negated(x.grand_total))),
            plain(""@),
            heading("Gastos por categoria"@),
        ] + plains(family_blocks(x.entries@, order, all, order.len() as int)) + plains(
            feed_hint(x.entries@),
        )
    }
}

fn find_entry_family(e: &CardEntry) -> (r: String)
    ensures
        r@ == entry_family(*e),
{
    match &e.category_id {
        Some(c) => match category_family(c.as_str()) {
            Some(f) => f,
            None => "sem-categoria".to_string(),
        },
        None => {
            proof {
                assert(crate::text::trimmed(Seq::<char>::empty()).len() == 0);
            }
            "sem-categoria".to_string()
        },
    }
}

fn find_entry_sub(e: &CardEntry) -> (r: String)
    ensures
        r@ == entry_sub(*e),
{
    let id = crate::records::or_empty(&e.category_id);
    match split_once(id.as_str(), ':') {
        Some((_, s)) => s,
        None => "—".to_string(),
    }
}

fn make_entry_line(indent: &str, e: &CardEntry) -> (r: String)
    ensures
        r@ == entry_line(indent@, *e),
{
    let mut out = chars(indent);
    put(&mut out, "• ");
    put(&mut out, e.name.as_str());
    put(&mut out, " · ");
    put(&mut out, brl_signed(e.amount).as_str());
    put(&mut out, " (");
    put(&mut out, short_date(&e.date).as_str());
    put(&mut out, ")");
    assert(out@ =~= entry_line(indent@, *e));
    from_chars(&out)
}

fn make_more_line(indent: &str, n: usize) -> (r: String)
    ensures
        r@ == more_line(indent@, n as nat),
{
    let mut out = chars(indent);
    put(&mut out, "_… mais ");
    put(&mut out, number(n as u64).as_str());
    put(&mut out, " ");
    put(
        &mut out,
        if n == 1 {
            "lançamento"
        } else {
            "lançamentos"
        },
    );
    put(&mut out, "_");
    assert(out@ =~= more_line(indent@, n as nat));
    from_chars(&out)
}

/// The columns of the purchases.
pub struct EntryTable {
    pub families: Vec<String>,
    pub amounts: Vec<Amount>,
    pub sizes: Vec<Amount>,
}

impl EntryTable {
    pub open spec fn of(self, entries: Seq<CardEntry>) -> bool {
        &&& texts(self.families@) == entry_families(entries)
        &&& self.families@.len() == entries.len()
        &&& self.amounts@ == entry_amounts(entries)
        &&& self.sizes@ == entry_sizes(entries)
    }
}

fn tabulate_entries(entries: &Vec<CardEntry>) -> (r: EntryTable)
    ensures
        r.of(entries@),
{
    let mut t = EntryTable { families: Vec::new(), amounts: Vec::new(), sizes: Vec::new() };
    let mut i: usize = 0;
    assert(texts(t.families@) =~= entry_families(entries@).take(0));
    while i < entries.len()
        invariant
            i <= entries.len(),
            texts(t.families@) == entry_families(entries@).take(i as int),
            t.families@.len() == i,
            t.amounts@ == entry_amounts(entries@).take(i as int),
            t.sizes@ == entry_sizes(entries@).take(i as int),
        decreases entries.len() - i,
    {
        push_text(&mut t.families, find_entry_family(&entries[i]));
        t.amounts.push(entries[i].amount);
        t.sizes.push(entries[i].amount.abs());
        i = i + 1;
        assert(texts(t.families@).len() == t.families@.len());
        assert(texts(t.families@) =~= entry_families(entries@).take(i as int));
        assert(t.amounts@ =~= entry_amounts(entries@).take(i as int));
        assert(t.sizes@ =~= entry_sizes(entries@).take(i as int));
    }
    assert(entry_families(entries@).take(i as int) =~= entry_families(entries@));
    assert(t.amounts@ =~= entry_amounts(entries@));
    assert(t.sizes@ =~= entry_sizes(entries@));
    t
}

fn push_bucket(
    out: &mut Vec<String>,
    entries: &Vec<CardEntry>,
    table: &EntryTable,
    at: &Vec<usize>,
    indent: &str,
    all: bool,
)
    requires
        table.of(entries@),
        forall|k: int| 0 <= k < at@.len() ==> (#[trigger] at@[k]) < entries@.len(),
    ensures
        texts(final(out)@) == texts(old(out)@) + bucket_lines(
            entries@,
            as_ints(at@),
            indent@,
            all,
        ),
{
    let ghost start = texts(out@);
    let order = rank_at(&table.sizes, at);
    let most: usize = if !all && at.len() > TX_LIMIT {
        TX_LIMIT
    } else {
        order.len()
    };
    let ghost full = order@.map_values(|p: Placed| entry_line(indent@, entries@[p.at as int]));
    let mut i: usize = 0;
    assert(start + full.take(0) =~= start);
    while i < most
        invariant
            i <= most <= order.len(),
            table.of(entries@),
            full == order@.map_values(|p: Placed| entry_line(indent@, entries@[p.at as int])),
            forall|k: int| 0 <= k < order@.len() ==> (#[trigger] order@[k]).at < table.sizes@.len(),
            texts(out@) == start + full.take(i as int),
        decreases most - i,
    {
        assert(order@[i as int].at < entries@.len());
        push_text(out, make_entry_line(indent, &entries[order[i].at]));
        i = i + 1;
        assert(texts(out@) =~= start + full.take(i as int));
    }
    assert(as_ints(at@).len() == at@.len());
    if !all && at.len() > TX_LIMIT {
        push_text(out, make_more_line(indent, at.len() - TX_LIMIT));
        assert(full.take(TX_LIMIT as int) =~= order@.take(TX_LIMIT as int).map_values(
            |p: Placed| entry_line(indent@, entries@[p.at as int]),
        ));
    } else {
        assert(full.take(i as int) =~= full);
    }
    assert(texts(out@) =~= start + bucket_lines(entries@, as_ints(at@), indent@, all));
}

fn pick_at(at: &Vec<usize>, inner: &Vec<usize>) -> (r: Vec<usize>)
    requires
        forall|k: int| 0 <= k < inner@.len() ==> (#[trigger] inner@[k]) < at@.len(),
    ensures
        as_ints(r@) == as_ints(inner@).map_values(|k: int| as_ints(at@)[k]),
        r@.len() == inner@.len(),
        forall|k: int| 0 <= k < r@.len() ==> (#[trigger] r@[k]) == at@[inner@[k] as int],
{
    let mut out: Vec<usize> = Vec::new();
    let mut k: usize = 0;
    while k < inner.len()
        invariant
            k <= inner.len(),
            forall|j: int| 0 <= j < inner@.len() ==> (#[trigger] inner@[j]) < at@.len(),
            out@.len() == k,
            forall|j: int| 0 <= j < k ==> (#[trigger] out@[j]) == at@[inner@[j] as int],
        decreases inner.len() - k,
    {
        out.push(at[inner[k]]);
        k = k + 1;
    }
    assert(as_ints(out@) =~= as_ints(inner@).map_values(|k: int| as_ints(at@)[k]));
    out
}

fn push_sub_block(
    out: &mut Vec<String>,
    entries: &Vec<CardEntry>,
    table: &EntryTable,
    at: &Vec<usize>,
    subs: &Vec<String>,
    name: &str,
    net: Amount,
    all: bool,
)
    requires
        table.of(entries@),
        forall|k: int| 0 <= k < at@.len() ==> (#[trigger] at@[k]) < entries@.len(),
        texts(subs@) == entry_subs(entries@, as_ints(at@)),
    ensures
        texts(final(out)@) == texts(old(out)@) + sub_block(
            entries@,
            as_ints(at@),
            name@,
            net,
            all,
        ),
{
    let ghost start = texts(out@);
    let ghost ints = as_ints(at@);
    let place = find_positions(subs, name);
    proof {
        lemma_positions(texts(subs@), name@);
        assert(as_ints(place@).len() == place@.len());
        assert forall|k: int| 0 <= k < place@.len() implies (#[trigger] place@[k]) < at@.len() by {
            assert(as_ints(place@)[k] == place@[k]);
        }
    }
    let inner = pick_at(at, &place);
    assert(as_ints(inner@) =~= sub_positions(entries@, ints, name@));
    assert(as_ints(inner@).len() == inner@.len());
    assert forall|k: int| 0 <= k < inner@.len() implies (#[trigger] inner@[k]) < entries@.len() by {
        assert(place@[k] < at@.len());
        assert(at@[place@[k] as int] < entries@.len());
    }
    let title = if same(name, "—") {
        "sem subcategoria".to_string()
    } else {
        replace_char(name, '-', " ")
    };
    let mut head = chars("  ↳ ");
    put(&mut head, bold(title.as_str()).as_str());
    put(&mut head, " · ");
    put(&mut head, brl_signed(net).as_str());
    put(&mut head, " (");
    put(&mut head, number(inner.len() as u64).as_str());
    put(&mut head, " lanç)");
    push_text(out, from_chars(&head));
    push_bucket(out, entries, table, &inner, "      ", all);
    assert(texts(out@) =~= start + sub_block(entries@, ints, name@, net, all));
}

fn take_sizes(amounts: &Vec<Amount>) -> (r: Vec<Amount>)
    ensures
        r@ == sizes(amounts@),
{
    let mut out: Vec<Amount> = Vec::new();
    let mut i: usize = 0;
    while i < amounts.len()
        invariant
            i <= amounts.len(),
            out@ == sizes(amounts@).take(i as int),
        decreases amounts.len() - i,
    {
        out.push(amounts[i].abs());
        i = i + 1;
        assert(out@ =~= sizes(amounts@).take(i as int));
    }
    assert(out@ =~= sizes(amounts@));
    out
}

fn push_sub_blocks(
    out: &mut Vec<String>,
    entries: &Vec<CardEntry>,
    table: &EntryTable,
    at: &Vec<usize>,
    subs: &Vec<String>,
    all: bool,
)
    requires
        table.of(entries@),
        ascending(as_ints(at@), entries@.len() as int),
        texts(subs@) == entry_subs(entries@, as_ints(at@)),
        full_weight(entry_amounts(entries@)) <= limit(),
    ensures
        ({
            let order = ranked(sizes(sub_totals(entries@, as_ints(at@))));
            texts(final(out)@) == texts(old(out)@) + sub_blocks(
                entries@,
                as_ints(at@),
                order,
                all,
                order.len() as int,
            )
        }),
{
    let ghost start = texts(out@);
    let ghost ints = as_ints(at@);
    proof {
        assert forall|k: int| 0 <= k < at@.len() implies (#[trigger] at@[k]) < entries@.len() by {
            assert(ints[k] == at@[k]);
        }
        lemma_ascending_weight(entry_amounts(entries@), ints);
        assert(texts(subs@).len() == subs@.len());
        assert(ints.len() == at@.len());
    }
    let mut part: Vec<Amount> = Vec::new();
    let mut i: usize = 0;
    while i < at.len()
        invariant
            i <= at.len(),
            ints == as_ints(at@),
            table.of(entries@),
            forall|k: int| 0 <= k < at@.len() ==> (#[trigger] at@[k]) < entries@.len(),
            part@ == picked(entry_amounts(entries@), ints).take(i as int),
        decreases at.len() - i,
    {
        assert(ints[i as int] == at@[i as int]);
        part.push(table.amounts[at[i]]);
        i = i + 1;
        assert(part@ =~= picked(entry_amounts(entries@), ints).take(i as int));
    }
    assert(part@ =~= picked(entry_amounts(entries@), ints));
    let (names, totals) = total_by_key(subs, &part);
    assert(totals@ == sub_totals(entries@, ints));
    let order = rank(&take_sizes(&totals));
    let mut k: usize = 0;
    assert(start + sub_blocks(entries@, ints, order@, all, 0) =~= start);
    while k < order.len()
        invariant
            k <= order.len(),
            ints == as_ints(at@),
            table.of(entries@),
            forall|j: int| 0 <= j < at@.len() ==> (#[trigger] at@[j]) < entries@.len(),
            texts(subs@) == entry_subs(entries@, ints),
            texts(names@) == sorted_keys(entry_subs(entries@, ints)),
            names@.len() == totals@.len(),
            totals@ == sub_totals(entries@, ints),
            forall|j: int| 0 <= j < order@.len() ==> (#[trigger] order@[j]).at < totals@.len(),
            texts(out@) == start + sub_blocks(entries@, ints, order@, all, k as int),
        decreases order.len() - k,
    {
        let p = order[k];
        assert(order@[k as int].at < totals@.len());
        assert(texts(names@)[p.at as int] == names@[p.at as int]@);
        push_sub_block(out, entries, table, at, subs, names[p.at].as_str(), totals[p.at], all);
        k = k + 1;
        assert(texts(out@) =~= start + sub_blocks(entries@, ints, order@, all, k as int));
    }
}

fn is_flat(subs: &Vec<String>) -> (r: bool)
    ensures
        r == (sorted_keys(texts(subs@)) == seq!["—"@]),
{
    let names = crate::order::distinct(subs);
    let flat = names.len() == 1 && same(names[0].as_str(), "—");
    proof {
        assert(texts(names@).len() == names@.len());
        if flat {
            assert(texts(names@)[0] == names@[0]@);
            assert(texts(names@) =~= seq!["—"@]);
        } else if texts(names@) == seq!["—"@] {
            assert(texts(names@)[0] == names@[0]@);
        }
    }
    flat
}

fn push_family_block(
    out: &mut Vec<String>,
    entries: &Vec<CardEntry>,
    table: &EntryTable,
    family: &str,
    net: Amount,
    all: bool,
)
    requires
        table.of(entries@),
        entry_families(entries@).contains(family@),
        full_weight(entry_amounts(entries@)) <= limit(),
    ensures
        texts(final(out)@) == texts(old(out)@) + family_block(entries@, family@, net, all),
{
    let ghost start = texts(out@);
    let at = find_positions(&table.families, family);
    let ghost ints = as_ints(at@);
    proof {
        lemma_positions(entry_families(entries@), family@);
        assert(ints.len() == at@.len());
        let p = choose|p: int|
            0 <= p < entry_families(entries@).len() && entry_families(entries@)[p] == family@;
        assert(ints.contains(p));
        assert(ints[0] == at@[0]);
        assert forall|k: int| 0 <= k < at@.len() implies (#[trigger] at@[k]) < entries@.len() by {
            assert(ints[k] == at@[k]);
        }
    }
    let mut head = chars(
        category_emoji(crate::records::or_empty(&entries[at[0]].category_id).as_str()),
    );
    put(&mut head, " ");
    put(&mut head, bold(family_label(family).as_str()).as_str());
    put(&mut head, " · ");
    put(&mut head, brl_signed(net).as_str());
    put(&mut head, " (");
    put(&mut head, number(at.len() as u64).as_str());
    put(&mut head, " lanç)");
    push_text(out, from_chars(&head));
    let mut subs: Vec<String> = Vec::new();
    let mut i: usize = 0;
    assert(texts(subs@) =~= entry_subs(entries@, ints).take(0));
    while i < at.len()
        invariant
            i <= at.len(),
            ints == as_ints(at@),
            forall|k: int| 0 <= k < at@.len() ==> (#[trigger] at@[k]) < entries@.len(),
            texts(subs@) == entry_subs(entries@, ints).take(i as int),
        decreases at.len() - i,
    {
        assert(ints[i as int] == at@[i as int]);
        assert(at@[i as int] < entries@.len());
        push_text(&mut subs, find_entry_sub(&entries[at[i]]));
        i = i + 1;
        assert(texts(subs@) =~= entry_subs(entries@, ints).take(i as int));
    }
    assert(texts(subs@) =~= entry_subs(entries@, ints));
    if is_flat(&subs) {
        push_bucket(out, entries, table, &at, "  ", all);
    } else {
        push_sub_blocks(out, entries, table, &at, &subs, all);
    }
    push_text(out, "".to_string());
    assert(texts(out@) =~= start + family_block(entries@, family@, net, all));
}

fn make_family_blocks(entries: &Vec<CardEntry>, table: &EntryTable, all: bool) -> (r: Vec<String>)
    requires
        table.of(entries@),
        full_weight(entry_amounts(entries@)) <= limit(),
    ensures
        ({
            let order = ranked(
                sizes(totals_by(entry_families(entries@), entry_amounts(entries@))),
            );
            texts(r@) == family_blocks(entries@, order, all, order.len() as int)
        }),
{
    let ghost families = entry_families(entries@);
    let (names, totals) = total_by_key(&table.families, &table.amounts);
    let order = rank(&take_sizes(&totals));
    let mut out: Vec<String> = Vec::new();
    let mut k: usize = 0;
    proof {
        crate::order::law_sorted_keys(families);
        assert(texts(out@) =~= family_blocks(entries@, order@, all, 0));
    }
    while k < order.len()
        invariant
            k <= order.len(),
            table.of(entries@),
            full_weight(entry_amounts(entries@)) <= limit(),
            families == entry_families(entries@),
            texts(names@) == sorted_keys(families),
            forall|key: Seq<char>|
                #[trigger] sorted_keys(families).contains(key) ==> families.contains(key),
            names@.len() == totals@.len(),
            totals@ == totals_by(families, entry_amounts(entries@)),
            forall|j: int| 0 <= j < order@.len() ==> (#[trigger] order@[j]).at < totals@.len(),
            texts(out@) == family_blocks(entries@, order@, all, k as int),
        decreases order.len() - k,
    {
        let p = order[k];
        assert(order@[k as int].at < totals@.len());
        assert(texts(names@)[p.at as int] == names@[p.at as int]@);
        assert(sorted_keys(families).contains(names@[p.at as int]@));
        push_family_block(&mut out, entries, table, names[p.at].as_str(), totals[p.at], all);
        k = k + 1;
    }
    out
}

fn make_feed_hint(entries: &Vec<CardEntry>, table: &EntryTable) -> (r: Vec<String>)
    requires
        table.of(entries@),
        full_weight(entry_amounts(entries@)) <= limit(),
    ensures
        texts(r@) == feed_hint(entries@),
{
    let ghost f = |i: int| feed_classified(entries@[i]);
    let mut at: Vec<usize> = Vec::new();
    let mut i: usize = 0;
    assert(as_ints(at@) =~= where_at(0, f));
    while i < entries.len()
        invariant
            i <= entries.len(),
            f == (|i: int| feed_classified(entries@[i])),
            as_ints(at@) == where_at(i as int, f),
        decreases entries.len() - i,
    {
        let ghost before = as_ints(at@);
        let by_feed = match &entries[i].category_id {
            Some(c) => !c.as_str().is_empty() && !contains_char(c.as_str(), ':'),
            None => false,
        };
        assert(by_feed == f(i as int));
        if by_feed {
            at.push(i);
            assert(as_ints(at@) =~= before.push(i as int));
        }
        i = i + 1;
    }
    let mut out: Vec<String> = Vec::new();
    assert(texts(out@) =~= Seq::<Seq<char>>::empty());
    assert(as_ints(at@).len() == at@.len());
    if at.len() > 0 {
        proof {
            lemma_where_ascending(entries@.len() as int, f);
        }
        let net = total_at(&table.amounts, &at);
        let mut line = chars("💡 ");
        put(&mut line, number(at.len() as u64).as_str());
        put(&mut line, " lanç auto-classificados pela Pluggy (");
        put(&mut line, brl_signed(net).as_str());
        put(&mut line, ") — criar regra pra consolidar");
        push_text(&mut out, from_chars(&line));
        push_text(&mut out, "".to_string());
    }
    assert(texts(out@) =~= feed_hint(entries@));
    out
}

/// The report on bills in words.
pub fn tell_bills(x: &BillsReport, today: &Date, all: bool) -> (r: Vec<ReportLine>)
    requires
        full_weight(entry_amounts(x.entries@)) <= limit(),
    ensures
        report_views(r@) == bills_text(*x, *today, all),
{
    let mut out: Vec<ReportLine> = Vec::new();
    assert(report_views(out@) =~= Seq::<(bool, Seq<char>)>::empty());
    say(&mut out, make_bills_title(x.month.as_str(), x.mode, x.installments_only));
    say(&mut out, "".to_string());
    if x.entries.len() == 0 {
        say(&mut out, "_(sem lançamentos de cartão no período)_".to_string());
        assert(report_views(out@) =~= bills_text(*x, *today, all));
        return out;
    }
    say_heading(&mut out, "Visão geral");
    let ghost before = report_views(out@);
    let ghost want = plains(x.accounts@.map_values(|a: CardsAccountReport| bill_line(a, *today)));
    let mut i: usize = 0;
    assert(before + want.take(0) =~= before);
    while i < x.accounts.len()
        invariant
            i <= x.accounts.len(),
            want == plains(x.accounts@.map_values(|a: CardsAccountReport| bill_line(a, *today))),
            report_views(out@) == before + want.take(i as int),
        decreases x.accounts.len() - i,
    {
        say(&mut out, make_bill_line(&x.accounts[i], today));
        i = i + 1;
        assert(report_views(out@) =~= before + want.take(i as int));
    }
    assert(want.take(i as int) =~= want);
    say(&mut out, glue3(bold("Total").as_str(), ": ", brl_signed(x.grand_total.neg()).as_str()));
    say(&mut out, "".to_string());
    say_heading(&mut out, "Gastos por categoria");
    let table = tabulate_entries(&x.entries);
    say_all(&mut out, make_family_blocks(&x.entries, &table, all));
    say_all(&mut out, make_feed_hint(&x.entries, &table));
    assert(report_views(out@) =~= bills_text(*x, *today, all));
    out
}

} // verus!
