//! The reports that list rows: what has no category, what may be split, item prices,
//! splits, rules and budgets.

use crate::amount::{limit, magnitude, sum_of, Amount};
use crate::balances::full_date_text;
use crate::date::{iso, iso_text, parse_iso, parsed_date, short_date_pt, signed_number, signed_text, Date};
use crate::description::normalize_inline_text;
use crate::human::{bold, bold_text, month_label, month_name, progress_bar, reais, reais_text};
use crate::money::{brl, brl_abs, brl_abs_text, brl_text, decimal_text, plain_text};
use crate::order::{
    as_ints, distinct, find_positions, lemma_positions, positions, sort, sorted, sorted_keys, Ranked,
};
use crate::records::{text_or_empty, TransactionRecord};
use crate::summary::UncategorizedRow;
use crate::sums::{full_weight, picked, total_at, total_of_all};
use crate::text::{
    chars, digits, from_chars, glue, glue3, join, joined, number, push_text, put, replace_char,
    replaced, same, same_ignoring_case, lower_ascii, split_whitespace, texts, upper, upper_char,
    words,
};
use crate::transactions::{barred, get_or, listing_head, make_listing_head, text_or};
use vstd::prelude::*;

verus! {

// ---------------------------------------------------------------------------
// Without a category

/// The first three words of a description, in capitals: rows that agree in them meet.
pub open spec fn prefix_key(description: Seq<char>) -> Seq<char> {
    let w = words(description);
    joined(
        if w.len() > 3 {
            w.take(3)
        } else {
            w
        },
        seq![' '],
    ).map_values(|c: char| upper(c))
}

fn make_prefix_key(description: &str) -> (r: String)
    ensures
        r@ == prefix_key(description@),
{
    let mut parts = split_whitespace(description);
    let ghost all = parts@;
    if parts.len() > 3 {
        parts.truncate(3);
        assert(texts(parts@) =~= texts(all).take(3));
    }
    assert(texts(all).len() == all.len());
    let text = join(&parts, " ");
    proof {
        reveal_strlit(" ");
        assert(" "@ =~= seq![' ']);
    }
    let v = chars(text.as_str());
    let mut out: Vec<char> = Vec::new();
    let ghost want = prefix_key(description@);
    let mut i: usize = 0;
    while i < v.len()
        invariant
            i <= v.len(),
            want == v@.map_values(|c: char| upper(c)),
            out@ == want.take(i as int),
        decreases v.len() - i,
    {
        out.push(upper_char(v[i]));
        i = i + 1;
        assert(out@ =~= want.take(i as int));
    }
    assert(out@ =~= want);
    from_chars(&out)
}

pub open spec fn prefix_keys(rows: Seq<UncategorizedRow>) -> Seq<Seq<char>> {
    rows.map_values(|r: UncategorizedRow| prefix_key(r.description@))
}

pub open spec fn uncategorized_amounts(rows: Seq<UncategorizedRow>) -> Seq<Amount> {
    rows.map_values(|r: UncategorizedRow| r.amount)
}

/// The latest date among the first `k` of the given rows.
pub open spec fn latest_at(rows: Seq<UncategorizedRow>, at: Seq<int>, k: int) -> Date
    decreases k,
{
    if k <= 1 {
        rows[at[0]].transaction_date
    } else {
        let before = latest_at(rows, at, k - 1);
        let date = rows[at[k - 1]].transaction_date;
        if before.before(date) {
            date
        } else {
            before
        }
    }
}

/// Rows that meet: the first of them, their sum, their number and the latest date.
#[derive(Clone, Copy)]
pub struct PrefixGroup {
    pub first: usize,
    pub amount: Amount,
    pub count: usize,
    pub latest: Date,
}

impl Ranked for PrefixGroup {
    open spec fn le(a: Self, b: Self) -> bool {
        magnitude(b.amount).scaled() <= magnitude(a.amount).scaled()
    }

    proof fn le_total(a: Self, b: Self) {
    }

    proof fn le_transitive(a: Self, b: Self, c: Self) {
    }

    fn may_precede(&self, other: &Self) -> (r: bool) {
        !self.amount.abs().is_less(&other.amount.abs())
    }
}

pub open spec fn prefix_group(rows: Seq<UncategorizedRow>, key: Seq<char>) -> PrefixGroup {
    let at = positions(prefix_keys(rows), key);
    PrefixGroup {
        first: at[0] as usize,
        amount: sum_of(picked(uncategorized_amounts(rows), at)),
        count: at.len() as usize,
        latest: latest_at(rows, at, at.len() as int),
    }
}

/// The groups in the order of their keys.
pub open spec fn prefix_groups(rows: Seq<UncategorizedRow>) -> Seq<PrefixGroup> {
    sorted_keys(prefix_keys(rows)).map_values(|k: Seq<char>| prefix_group(rows, k))
}

pub open spec fn prefix_line(rows: Seq<UncategorizedRow>, g: PrefixGroup) -> Seq<char> {
    joined(words(rows[g.first as int].description@), seq![' ']) + " ("@ + digits(g.count as nat)
        + "×) · "@ + brl_abs_text(g.amount) + " · mais recente "@ + full_date_text(g.latest)
}

/// The report on what has no category, the largest groups first.
pub open spec fn uncategorized_report(rows: Seq<UncategorizedRow>, top: nat) -> Seq<Seq<char>> {
    seq!["❓ *Sem categoria · top "@ + digits(top) + "*"@, ""@] + sorted(
        prefix_groups(rows),
    ).map_values(|g: PrefixGroup| prefix_line(rows, g)) + seq![
        ""@,
        "Total: "@ + digits(rows.len()) + " transações · "@ + brl_abs_text(
            magnitude(sum_of(uncategorized_amounts(rows))),
        ),
    ]
}

fn find_latest(rows: &Vec<UncategorizedRow>, at: &Vec<usize>) -> (r: Date)
    requires
        at@.len() > 0,
        forall|k: int| 0 <= k < at@.len() ==> (#[trigger] at@[k]) < rows@.len(),
    ensures
        r == latest_at(rows@, as_ints(at@), at@.len() as int),
{
    let ghost ints = as_ints(at@);
    assert(at@[0] < rows@.len());
    assert(ints[0] == at@[0]);
    let mut latest = rows[at[0]].transaction_date;
    let mut k: usize = 1;
    while k < at.len()
        invariant
            1 <= k <= at.len(),
            ints == as_ints(at@),
            forall|j: int| 0 <= j < at@.len() ==> (#[trigger] at@[j]) < rows@.len(),
            latest == latest_at(rows@, ints, k as int),
        decreases at.len() - k,
    {
        assert(ints[k as int] == at@[k as int]);
        assert(at@[k as int] < rows@.len());
        let date = rows[at[k]].transaction_date;
        if latest.is_before(&date) {
            latest = date;
        }
        k = k + 1;
    }
    latest
}

fn collect_prefixes(rows: &Vec<UncategorizedRow>) -> (r: (Vec<String>, Vec<Amount>))
    ensures
        texts(r.0@) == prefix_keys(rows@),
        r.1@ == uncategorized_amounts(rows@),
{
    let mut keys: Vec<String> = Vec::new();
    let mut amounts: Vec<Amount> = Vec::new();
    let mut i: usize = 0;
    assert(texts(keys@) =~= prefix_keys(rows@).take(0));
    while i < rows.len()
        invariant
            i <= rows.len(),
            texts(keys@) == prefix_keys(rows@).take(i as int),
            amounts@ == uncategorized_amounts(rows@).take(i as int),
        decreases rows.len() - i,
    {
        push_text(&mut keys, make_prefix_key(rows[i].description.as_str()));
        amounts.push(rows[i].amount);
        i = i + 1;
        assert(texts(keys@) =~= prefix_keys(rows@).take(i as int));
        assert(amounts@ =~= uncategorized_amounts(rows@).take(i as int));
    }
    assert(prefix_keys(rows@).take(i as int) =~= prefix_keys(rows@));
    assert(uncategorized_amounts(rows@).take(i as int) =~= uncategorized_amounts(rows@));
    (keys, amounts)
}

fn collect_groups(rows: &Vec<UncategorizedRow>, keys: &Vec<String>, amounts: &Vec<Amount>) -> (r: Vec<
    PrefixGroup,
>)
    requires
        texts(keys@) == prefix_keys(rows@),
        amounts@ == uncategorized_amounts(rows@),
        full_weight(amounts@) <= limit(),
    ensures
        r@ == prefix_groups(rows@),
        forall|k: int| 0 <= k < r@.len() ==> (#[trigger] r@[k]).first < rows@.len(),
{
    let names = distinct(keys);
    let ghost list = texts(names@);
    let mut out: Vec<PrefixGroup> = Vec::new();
    let mut k: usize = 0;
    proof {
        crate::order::law_sorted_keys(prefix_keys(rows@));
        assert(list.len() == names@.len());
    }
    while k < names.len()
        invariant
            k <= names.len(),
            texts(keys@) == prefix_keys(rows@),
            amounts@ == uncategorized_amounts(rows@),
            full_weight(amounts@) <= limit(),
            list == texts(names@),
            list.len() == names@.len(),
            list == sorted_keys(prefix_keys(rows@)),
            forall|key: Seq<char>| #[trigger] list.contains(key) ==> prefix_keys(rows@).contains(key),
            out@ == prefix_groups(rows@).take(k as int),
            forall|j: int| 0 <= j < out@.len() ==> (#[trigger] out@[j]).first < rows@.len(),
        decreases names.len() - k,
    {
        assert(list[k as int] == names@[k as int]@);
        assert(list.contains(list[k as int]));
        let at = find_positions(keys, names[k].as_str());
        let ghost key = names@[k as int]@;
        let ghost ints = as_ints(at@);
        proof {
            lemma_positions(prefix_keys(rows@), key);
            assert(ints.len() == at@.len());
            let p = choose|p: int| 0 <= p < prefix_keys(rows@).len() && prefix_keys(rows@)[p] == key;
            assert(ints.contains(p));
            assert forall|j: int| 0 <= j < at@.len() implies (#[trigger] at@[j]) < rows@.len() by {
                assert(ints[j] == at@[j]);
            }
            assert(ints[0] == at@[0]);
        }
        let amount = total_at(amounts, &at);
        let latest = find_latest(rows, &at);
        let group = PrefixGroup { first: at[0], amount, count: at.len(), latest };
        assert(group == prefix_group(rows@, key));
        out.push(group);
        k = k + 1;
        assert(out@ =~= prefix_groups(rows@).take(k as int));
    }
    assert(out@ =~= prefix_groups(rows@));
    out
}

fn make_prefix_line(rows: &Vec<UncategorizedRow>, g: &PrefixGroup) -> (r: String)
    requires
        g.first < rows@.len(),
    ensures
        r@ == prefix_line(rows@, *g),
{
    let mut out = chars(normalize_inline_text(rows[g.first].description.as_str()).as_str());
    put(&mut out, " (");
    put(&mut out, number(g.count as u64).as_str());
    put(&mut out, "×) · ");
    put(&mut out, brl_abs(g.amount).as_str());
    put(&mut out, " · mais recente ");
    put(&mut out, short_date_pt(&g.latest).as_str());
    assert(out@ =~= prefix_line(rows@, *g));
    from_chars(&out)
}

/// The report on what has no category, the largest groups first.
pub fn report_uncategorized(rows: &Vec<UncategorizedRow>, top: usize) -> (r: Vec<String>)
    requires
        full_weight(uncategorized_amounts(rows@)) <= limit(),
    ensures
        texts(r@) == uncategorized_report(rows@, top as nat),
{
    let (keys, amounts) = collect_prefixes(rows);
    let groups = collect_groups(rows, &keys, &amounts);
    let ghost before = groups@;
    let groups = sort(groups);
    proof {
        crate::order::lemma_same_elements(before, groups@);
        assert forall|k: int| 0 <= k < groups@.len() implies (#[trigger] groups@[k]).first
            < rows@.len() by {
            assert(groups@.contains(groups@[k]));
            let j = choose|j: int| 0 <= j < before.len() && before[j] == groups@[k];
            assert(before[j].first < rows@.len());
        }
    }
    let mut out: Vec<String> = Vec::new();
    assert(texts(out@) =~= Seq::<Seq<char>>::empty());
    push_text(&mut out, glue3("❓ *Sem categoria · top ", number(top as u64).as_str(), "*"));
    push_text(&mut out, "".to_string());
    let ghost head = texts(out@);
    let ghost want = groups@.map_values(|g: PrefixGroup| prefix_line(rows@, g));
    let mut i: usize = 0;
    assert(head + want.take(0) =~= head);
    while i < groups.len()
        invariant
            i <= groups.len(),
            want == groups@.map_values(|g: PrefixGroup| prefix_line(rows@, g)),
            forall|k: int| 0 <= k < groups@.len() ==> (#[trigger] groups@[k]).first < rows@.len(),
            texts(out@) == head + want.take(i as int),
        decreases groups.len() - i,
    {
        push_text(&mut out, make_prefix_line(rows, &groups[i]));
        i = i + 1;
        assert(texts(out@) =~= head + want.take(i as int));
    }
    assert(want.take(i as int) =~= want);
    let total = total_of_all(&amounts);
    push_text(&mut out, "".to_string());
    let mut line = chars("Total: ");
    put(&mut line, number(rows.len() as u64).as_str());
    put(&mut line, " transações · ");
    put(&mut line, brl_abs(total.abs()).as_str());
    push_text(&mut out, from_chars(&line));
    assert(texts(out@) =~= uncategorized_report(rows@, top as nat));
    out
}

// ---------------------------------------------------------------------------
// Splits

/// Where the data is kept.
#[derive(Clone, Copy)]
pub enum BackendKind {
    Local,
    Bigquery,
}

/// Splits are kept by one backend only.
pub fn ensure_bigquery_split_backend(backend: BackendKind) -> (r: Result<(), String>)
    ensures
        r is Ok <==> backend is Bigquery,
        r matches Err(e) ==> e@
            == "transaction split/detailing is supported only on the BigQuery backend"@,
{
    match backend {
        BackendKind::Bigquery => Ok(()),
        BackendKind::Local => Err(
            "transaction split/detailing is supported only on the BigQuery backend".to_string(),
        ),
    }
}

/// A transaction that a policy would split.
pub struct SplitCandidateRow {
    pub transaction_date: Date,
    pub amount: Amount,
    pub transaction_id: String,
    pub description: String,
    pub policy_id: String,
    pub match_type: String,
}

pub open spec fn candidate_line(row: SplitCandidateRow) -> Seq<char> {
    barred(
        seq![
            iso_text(row.transaction_date),
            brl_text(row.amount),
            row.transaction_id@,
            joined(words(row.description@), seq![' ']),
            "policy "@ + row.policy_id@ + " ("@ + row.match_type@ + ")"@,
        ],
    )
}

fn make_candidate_line(row: &SplitCandidateRow) -> (r: String)
    ensures
        r@ == candidate_line(*row),
{
    let mut parts: Vec<String> = Vec::new();
    assert(texts(parts@) =~= Seq::<Seq<char>>::empty());
    push_text(&mut parts, iso(&row.transaction_date));
    push_text(&mut parts, brl(row.amount));
    push_text(&mut parts, row.transaction_id.clone());
    push_text(&mut parts, normalize_inline_text(row.description.as_str()));
    let mut policy = chars("policy ");
    put(&mut policy, row.policy_id.as_str());
    put(&mut policy, " (");
    put(&mut policy, row.match_type.as_str());
    put(&mut policy, ")");
    push_text(&mut parts, from_chars(&policy));
    assert(texts(parts@) =~= seq![
        iso_text(row.transaction_date),
        brl_text(row.amount),
        row.transaction_id@,
        joined(words(row.description@), seq![' ']),
        "policy "@ + row.policy_id@ + " ("@ + row.match_type@ + ")"@,
    ]);
    join(&parts, " | ")
}

/// The transactions that may be split, since a day.
pub fn report_split_candidates(rows: &Vec<SplitCandidateRow>, since: &Date) -> (r: Vec<String>)
    ensures
        texts(r@) == listing_head("Split candidates desde "@ + iso_text(*since), rows@.len())
            + rows@.map_values(|r: SplitCandidateRow| candidate_line(r)),
{
    let title = glue("Split candidates desde ", iso(since).as_str());
    let mut out = make_listing_head(title.as_str(), rows.len());
    let ghost head = texts(out@);
    let ghost want = rows@.map_values(|r: SplitCandidateRow| candidate_line(r));
    let mut i: usize = 0;
    assert(head + want.take(0) =~= head);
    while i < rows.len()
        invariant
            i <= rows.len(),
            want == rows@.map_values(|r: SplitCandidateRow| candidate_line(r)),
            texts(out@) == head + want.take(i as int),
        decreases rows.len() - i,
    {
        push_text(&mut out, make_candidate_line(&rows[i]));
        i = i + 1;
        assert(texts(out@) =~= head + want.take(i as int));
    }
    assert(want.take(i as int) =~= want);
    out
}

/// An item on a receipt.
pub struct ItemPriceRow {
    pub transaction_date: Date,
    pub description: String,
    pub quantity: Option<Amount>,
    pub unit: Option<String>,
    pub unit_price: Option<Amount>,
    pub total_price: Option<Amount>,
    pub store_name: Option<String>,
}

pub open spec fn plain_or_dash(a: Option<Amount>) -> Seq<char> {
    match a {
        Some(x) => plain_text(x),
        None => "-"@,
    }
}

fn write_or_dash(a: &Option<Amount>) -> (r: String)
    ensures
        r@ == plain_or_dash(*a),
{
    match a {
        Some(x) => decimal_text(*x),
        None => "-".to_string(),
    }
}

pub open spec fn price_line(row: ItemPriceRow) -> Seq<char> {
    barred(
        seq![
            iso_text(row.transaction_date),
            joined(words(row.description@), seq![' ']),
            "qty "@ + plain_or_dash(row.quantity) + " "@ + text_or_empty(row.unit),
            "unit "@ + plain_or_dash(row.unit_price),
            "total "@ + plain_or_dash(row.total_price),
            text_or(row.store_name, "sem-loja"@),
        ],
    )
}

fn make_price_line(row: &ItemPriceRow) -> (r: String)
    ensures
        r@ == price_line(*row),
{
    let mut parts: Vec<String> = Vec::new();
    assert(texts(parts@) =~= Seq::<Seq<char>>::empty());
    push_text(&mut parts, iso(&row.transaction_date));
    push_text(&mut parts, normalize_inline_text(row.description.as_str()));
    let mut quantity = chars("qty ");
    put(&mut quantity, write_or_dash(&row.quantity).as_str());
    put(&mut quantity, " ");
    put(&mut quantity, crate::records::or_empty(&row.unit).as_str());
    push_text(&mut parts, from_chars(&quantity));
    push_text(&mut parts, glue("unit ", write_or_dash(&row.unit_price).as_str()));
    push_text(&mut parts, glue("total ", write_or_dash(&row.total_price).as_str()));
    push_text(&mut parts, get_or(&row.store_name, "sem-loja").to_string());
    assert(texts(parts@) =~= seq![
        iso_text(row.transaction_date),
        joined(words(row.description@), seq![' ']),
        "qty "@ + plain_or_dash(row.quantity) + " "@ + text_or_empty(row.unit),
        "unit "@ + plain_or_dash(row.unit_price),
        "total "@ + plain_or_dash(row.total_price),
        text_or(row.store_name, "sem-loja"@),
    ]);
    join(&parts, " | ")
}

/// The day since when prices are looked up, where one is given.
pub fn parse_since(since: &Option<String>) -> (r: Result<Option<Date>, String>)
    ensures
        match r {
            Ok(None) => since is None,
            Ok(Some(d)) => since is Some && parsed_date(since->0@) == Some((d.y(), d.m(), d.d())),
            Err(e) => since is Some && parsed_date(since->0@) is None && e@
                == "since inválido; use YYYY-MM-DD"@,
        },
{
    match since {
        None => Ok(None),
        Some(s) => match parse_iso(s.as_str()) {
            Some(d) => Ok(Some(d)),
            None => Err("since inválido; use YYYY-MM-DD".to_string()),
        },
    }
}

/// The prices of items that match a query.
pub fn report_item_prices(rows: &Vec<ItemPriceRow>, query: &str) -> (r: Vec<String>)
    ensures
        texts(r@) == listing_head("Item prices "@ + query@, rows@.len()) + rows@.map_values(
            |r: ItemPriceRow| price_line(r),
        ),
{
    let title = glue("Item prices ", query);
    let mut out = make_listing_head(title.as_str(), rows.len());
    let ghost head = texts(out@);
    let ghost want = rows@.map_values(|r: ItemPriceRow| price_line(r));
    let mut i: usize = 0;
    assert(head + want.take(0) =~= head);
    while i < rows.len()
        invariant
            i <= rows.len(),
            want == rows@.map_values(|r: ItemPriceRow| price_line(r)),
            texts(out@) == head + want.take(i as int),
        decreases rows.len() - i,
    {
        push_text(&mut out, make_price_line(&rows[i]));
        i = i + 1;
        assert(texts(out@) =~= head + want.take(i as int));
    }
    assert(want.take(i as int) =~= want);
    out
}

/// A part of a split transaction.
pub struct SplitLine {
    pub line_index: u64,
    pub amount: Amount,
    pub category_id: Option<String>,
    pub description: String,
}

pub open spec fn split_line(line: SplitLine) -> Seq<char> {
    barred(
        seq![
            digits(line.line_index as nat),
            brl_text(line.amount),
            text_or(line.category_id, "sem-categoria"@),
            line.description@,
        ],
    )
}

fn make_split_line(line: &SplitLine) -> (r: String)
    ensures
        r@ == split_line(*line),
{
    let mut parts: Vec<String> = Vec::new();
    assert(texts(parts@) =~= Seq::<Seq<char>>::empty());
    push_text(&mut parts, number(line.line_index));
    push_text(&mut parts, brl(line.amount));
    push_text(&mut parts, get_or(&line.category_id, "sem-categoria").to_string());
    push_text(&mut parts, line.description.clone());
    assert(texts(parts@) =~= seq![
        digits(line.line_index as nat),
        brl_text(line.amount),
        text_or(line.category_id, "sem-categoria"@),
        line.description@,
    ]);
    join(&parts, " | ")
}

pub open spec fn split_lines(lines: Seq<SplitLine>) -> Seq<Seq<char>> {
    lines.map_values(|l: SplitLine| split_line(l))
}

fn push_split_lines(out: &mut Vec<String>, lines: &Vec<SplitLine>)
    ensures
        texts(final(out)@) == texts(old(out)@) + split_lines(lines@),
{
    let ghost head = texts(out@);
    let ghost want = split_lines(lines@);
    let mut i: usize = 0;
    assert(head + want.take(0) =~= head);
    while i < lines.len()
        invariant
            i <= lines.len(),
            want == split_lines(lines@),
            texts(out@) == head + want.take(i as int),
        decreases lines.len() - i,
    {
        push_text(out, make_split_line(&lines[i]));
        i = i + 1;
        assert(texts(out@) =~= head + want.take(i as int));
    }
    assert(want.take(i as int) =~= want);
}

/// What a split would make of a transaction.
pub struct SplitPreview {
    pub parent_transaction_id: String,
    pub lines: Vec<SplitLine>,
    pub items: usize,
    pub split_total: Amount,
    pub difference: Amount,
    pub payload_hash: String,
}

pub open spec fn parent_line(parent: TransactionRecord) -> Seq<char> {
    "- pai: "@ + brl_text(parent.amount) + " | "@ + parent.shown()
}

fn make_parent_line(parent: &TransactionRecord) -> (r: String)
    ensures
        r@ == parent_line(*parent),
{
    let mut out = chars("- pai: ");
    put(&mut out, brl(parent.amount).as_str());
    put(&mut out, " | ");
    put(&mut out, parent.display_description());
    from_chars(&out)
}

pub open spec fn preview_lines(parent: TransactionRecord, preview: SplitPreview) -> Seq<Seq<char>> {
    seq![
        "Split preview "@ + preview.parent_transaction_id@,
        parent_line(parent),
        "- linhas: "@ + digits(preview.lines@.len()),
        "- itens de recibo: "@ + digits(preview.items as nat),
        "- total split: "@ + brl_text(preview.split_total),
        "- diferença: "@ + brl_text(preview.difference),
        "- payload_hash: "@ + preview.payload_hash@,
        ""@,
    ] + split_lines(preview.lines@)
}

/// What a split would make of a transaction, in words.
pub fn tell_split_preview(parent: &TransactionRecord, preview: &SplitPreview) -> (r: Vec<String>)
    ensures
        texts(r@) == preview_lines(*parent, *preview),
{
    let mut out: Vec<String> = Vec::new();
    assert(texts(out@) =~= Seq::<Seq<char>>::empty());
    push_text(&mut out, glue("Split preview ", preview.parent_transaction_id.as_str()));
    push_text(&mut out, make_parent_line(parent));
    push_text(&mut out, glue("- linhas: ", number(preview.lines.len() as u64).as_str()));
    push_text(&mut out, glue("- itens de recibo: ", number(preview.items as u64).as_str()));
    push_text(&mut out, glue("- total split: ", brl(preview.split_total).as_str()));
    push_text(&mut out, glue("- diferença: ", brl(preview.difference).as_str()));
    push_text(&mut out, glue("- payload_hash: ", preview.payload_hash.as_str()));
    push_text(&mut out, "".to_string());
    push_split_lines(&mut out, &preview.lines);
    assert(texts(out@) =~= preview_lines(*parent, *preview));
    out
}

/// A split that is in force.
pub struct SplitHead {
    pub split_id: String,
    pub status: String,
    pub payload_hash: String,
}

/// An item of a split's receipt.
pub struct ReceiptItem {
    pub item_index: u64,
    pub description: String,
    pub quantity: Option<Amount>,
    pub unit_price: Option<Amount>,
    pub total_price: Option<Amount>,
}

pub open spec fn item_line(item: ReceiptItem) -> Seq<char> {
    barred(
        seq![
            digits(item.item_index as nat),
            item.description@,
            plain_or_dash(item.quantity),
            "unit "@ + plain_or_dash(item.unit_price),
            "total "@ + plain_or_dash(item.total_price),
        ],
    )
}

fn make_item_line(item: &ReceiptItem) -> (r: String)
    ensures
        r@ == item_line(*item),
{
    let mut parts: Vec<String> = Vec::new();
    assert(texts(parts@) =~= Seq::<Seq<char>>::empty());
    push_text(&mut parts, number(item.item_index));
    push_text(&mut parts, item.description.clone());
    push_text(&mut parts, write_or_dash(&item.quantity));
    push_text(&mut parts, glue("unit ", write_or_dash(&item.unit_price).as_str()));
    push_text(&mut parts, glue("total ", write_or_dash(&item.total_price).as_str()));
    assert(texts(parts@) =~= seq![
        digits(item.item_index as nat),
        item.description@,
        plain_or_dash(item.quantity),
        "unit "@ + plain_or_dash(item.unit_price),
        "total "@ + plain_or_dash(item.total_price),
    ]);
    join(&parts, " | ")
}

/// At most so many items of a receipt are shown.
pub const MAX_SHOWN_ITEMS: usize = 20;

pub open spec fn item_lines(items: Seq<ReceiptItem>) -> Seq<Seq<char>> {
    (if items.len() > MAX_SHOWN_ITEMS {
        items.take(MAX_SHOWN_ITEMS as int)
    } else {
        items
    }).map_values(|i: ReceiptItem| item_line(i))
}

/// A transaction with its split.
pub struct SplitDetail {
    pub parent: TransactionRecord,
    pub split: Option<SplitHead>,
    pub lines: Vec<SplitLine>,
    pub items: Vec<ReceiptItem>,
}

/// A transaction with its split, in words.
pub open spec fn detail_lines(detail: SplitDetail) -> Seq<Seq<char>> {
    let head = seq!["Split "@ + detail.parent.transaction_id@, parent_line(detail.parent)];
    match detail.split {
        None => head + seq!["- sem split ativo"@],
        Some(split) => head + seq![
            "- split_id: "@ + split.split_id@,
            "- status: "@ + split.status@,
            "- payload_hash: "@ + split.payload_hash@,
            "- linhas: "@ + digits(detail.lines@.len()),
        ] + split_lines(detail.lines@) + seq![
            "- itens de recibo: "@ + digits(detail.items@.len()),
        ] + item_lines(detail.items@),
    }
}

/// A transaction with its split, in words.
pub fn tell_split(detail: &SplitDetail) -> (r: Vec<String>)
    ensures
        texts(r@) == detail_lines(*detail),
{
    let mut out: Vec<String> = Vec::new();
    assert(texts(out@) =~= Seq::<Seq<char>>::empty());
    push_text(&mut out, glue("Split ", detail.parent.transaction_id.as_str()));
    push_text(&mut out, make_parent_line(&detail.parent));
    match &detail.split {
        None => {
            push_text(&mut out, "- sem split ativo".to_string());
            assert(texts(out@) =~= detail_lines(*detail));
            return out;
        },
        Some(split) => {
            push_text(&mut out, glue("- split_id: ", split.split_id.as_str()));
            push_text(&mut out, glue("- status: ", split.status.as_str()));
            push_text(&mut out, glue("- payload_hash: ", split.payload_hash.as_str()));
        },
    }
    push_text(&mut out, glue("- linhas: ", number(detail.lines.len() as u64).as_str()));
    push_split_lines(&mut out, &detail.lines);
    push_text(&mut out, glue("- itens de recibo: ", number(detail.items.len() as u64).as_str()));
    let ghost head = texts(out@);
    let ghost want = item_lines(detail.items@);
    let mut i: usize = 0;
    assert(head + want.take(0) =~= head);
    while i < detail.items.len() && i < MAX_SHOWN_ITEMS
        invariant
            i <= detail.items.len(),
            i <= MAX_SHOWN_ITEMS,
            want == item_lines(detail.items@),
            texts(out@) == head + want.take(i as int),
        decreases detail.items.len() - i,
    {
        push_text(&mut out, make_item_line(&detail.items[i]));
        i = i + 1;
        assert(texts(out@) =~= head + want.take(i as int));
    }
    assert(want.take(i as int) =~= want);
    assert(texts(out@) =~= detail_lines(*detail));
    out
}

/// What is told once a split is in force.
pub fn tell_split_applied(split_id: &str, lines: usize, items: usize) -> (r: String)
    ensures
        r@ == "Split aplicado: "@ + split_id@ + " ("@ + digits(lines as nat) + " linhas, "@
            + digits(items as nat) + " itens)"@,
{
    let mut out = chars("Split aplicado: ");
    put(&mut out, split_id);
    put(&mut out, " (");
    put(&mut out, number(lines as u64).as_str());
    put(&mut out, " linhas, ");
    put(&mut out, number(items as u64).as_str());
    put(&mut out, " itens)");
    from_chars(&out)
}

// ---------------------------------------------------------------------------
// Rules

/// A rule that classifies transactions.
pub struct RuleRecord {
    pub rule_id: String,
    pub body: String,
    pub status: String,
    pub actor_id: String,
    pub idempotency_key: String,
    pub created_at: String,
    pub updated_at: String,
    pub updated_on: Date,
}

/// Which rules to list.
#[derive(Clone, Copy)]
pub enum RuleStatusFilter {
    Active,
    Disabled,
    All,
}

impl RuleStatusFilter {
    pub open spec fn name(self) -> Seq<char> {
        match self {
            RuleStatusFilter::Active => "active"@,
            RuleStatusFilter::Disabled => "disabled"@,
            RuleStatusFilter::All => "all"@,
        }
    }

    pub fn as_str(self) -> (r: &'static str)
        ensures
            r@ == self.name(),
    {
        match self {
            RuleStatusFilter::Active => "active",
            RuleStatusFilter::Disabled => "disabled",
            RuleStatusFilter::All => "all",
        }
    }
}

/// Whether a rule is to be listed: all are, or those with that status in any case.
pub open spec fn rule_wanted(rule: RuleRecord, status: RuleStatusFilter) -> bool {
    status is All || lower_ascii(rule.status@) == lower_ascii(status.name())
}

/// Whether a rule is to be listed.
pub fn rule_matches_status(rule: &RuleRecord, status: RuleStatusFilter) -> (r: bool)
    ensures
        r == rule_wanted(*rule, status),
{
    match status {
        RuleStatusFilter::All => true,
        RuleStatusFilter::Active => same_ignoring_case(rule.status.as_str(), "active"),
        RuleStatusFilter::Disabled => same_ignoring_case(rule.status.as_str(), "disabled"),
    }
}

pub open spec fn rule_line(rule: RuleRecord) -> Seq<char> {
    barred(seq![rule.rule_id@, rule.status@, iso_text(rule.updated_on), rule.body@])
}

fn make_rule_line(rule: &RuleRecord) -> (r: String)
    ensures
        r@ == rule_line(*rule),
{
    let mut parts: Vec<String> = Vec::new();
    assert(texts(parts@) =~= Seq::<Seq<char>>::empty());
    push_text(&mut parts, rule.rule_id.clone());
    push_text(&mut parts, rule.status.clone());
    push_text(&mut parts, iso(&rule.updated_on));
    push_text(&mut parts, rule.body.clone());
    assert(texts(parts@) =~= seq![
        rule.rule_id@,
        rule.status@,
        iso_text(rule.updated_on),
        rule.body@,
    ]);
    join(&parts, " | ")
}

/// The lines of the rules to list.
pub open spec fn rule_lines(rules: Seq<RuleRecord>, status: RuleStatusFilter) -> Seq<Seq<char>>
    decreases rules.len(),
{
    if rules.len() == 0 {
        Seq::empty()
    } else if rule_wanted(rules.last(), status) {
        rule_lines(rules.drop_last(), status).push(rule_line(rules.last()))
    } else {
        rule_lines(rules.drop_last(), status)
    }
}

/// The rules of a status.
pub fn list_rules(rules: &Vec<RuleRecord>, status: RuleStatusFilter) -> (r: Vec<String>)
    ensures
        texts(r@) == listing_head(
            "Rules status="@ + status.name(),
            rule_lines(rules@, status).len(),
        ) + rule_lines(rules@, status),
{
    let mut lines: Vec<String> = Vec::new();
    let mut i: usize = 0;
    assert(rules@.take(0) =~= Seq::<RuleRecord>::empty());
    assert(texts(lines@) =~= Seq::<Seq<char>>::empty());
    while i < rules.len()
        invariant
            i <= rules.len(),
            texts(lines@) == rule_lines(rules@.take(i as int), status),
        decreases rules.len() - i,
    {
        assert(rules@.take(i + 1).drop_last() =~= rules@.take(i as int));
        if rule_matches_status(&rules[i], status) {
            push_text(&mut lines, make_rule_line(&rules[i]));
        }
        i = i + 1;
    }
    assert(rules@.take(i as int) =~= rules@);
    assert(texts(lines@).len() == lines@.len());
    let title = glue("Rules status=", status.as_str());
    let mut out = make_listing_head(title.as_str(), lines.len());
    let ghost head = out@;
    let ghost added = lines@;
    out.append(&mut lines);
    assert(texts(out@) =~= texts(head) + texts(added));
    out
}

/// The first rule with that name.
pub open spec fn rule_named(rules: Seq<RuleRecord>, id: Seq<char>) -> Option<RuleRecord>
    decreases rules.len(),
{
    if rules.len() == 0 {
        None
    } else if rules[0].rule_id@ == id {
        Some(rules[0])
    } else {
        rule_named(rules.skip(1), id)
    }
}

pub open spec fn rule_detail(rule: RuleRecord) -> Seq<Seq<char>> {
    seq![
        "Rule "@ + rule.rule_id@,
        "- status: "@ + rule.status@,
        "- actor_id: "@ + rule.actor_id@,
        "- created_at: "@ + rule.created_at@,
        "- updated_at: "@ + rule.updated_at@,
        "- idempotency_key: "@ + rule.idempotency_key@,
        ""@,
        rule.body@,
    ]
}

fn tell_rule(rule: &RuleRecord) -> (r: Vec<String>)
    ensures
        texts(r@) == rule_detail(*rule),
{
    let mut out: Vec<String> = Vec::new();
    assert(texts(out@) =~= Seq::<Seq<char>>::empty());
    push_text(&mut out, glue("Rule ", rule.rule_id.as_str()));
    push_text(&mut out, glue("- status: ", rule.status.as_str()));
    push_text(&mut out, glue("- actor_id: ", rule.actor_id.as_str()));
    push_text(&mut out, glue("- created_at: ", rule.created_at.as_str()));
    push_text(&mut out, glue("- updated_at: ", rule.updated_at.as_str()));
    push_text(&mut out, glue("- idempotency_key: ", rule.idempotency_key.as_str()));
    push_text(&mut out, "".to_string());
    push_text(&mut out, rule.body.clone());
    assert(texts(out@) =~= rule_detail(*rule));
    out
}

/// A rule in full, found by its name.
pub fn inspect_rule(rules: &Vec<RuleRecord>, rule_id: &str) -> (r: Result<Vec<String>, String>)
    ensures
        match rule_named(rules@, rule_id@) {
            Some(rule) => r matches Ok(lines) && texts(lines@) == rule_detail(rule),
            None => r matches Err(e) && e@ == "Rule "@ + rule_id@ + " não encontrada"@,
        },
{
    let mut i: usize = 0;
    assert(rules@.skip(0) =~= rules@);
    while i < rules.len()
        invariant
            i <= rules.len(),
            rule_named(rules@.skip(i as int), rule_id@) == rule_named(rules@, rule_id@),
        decreases rules.len() - i,
    {
        assert(rules@.skip(i as int)[0] == rules@[i as int]);
        assert(rules@.skip(i as int).skip(1) =~= rules@.skip(i + 1));
        if same(rules[i].rule_id.as_str(), rule_id) {
            return Ok(tell_rule(&rules[i]));
        }
        i = i + 1;
    }
    Err(glue3("Rule ", rule_id, " não encontrada"))
}

// ---------------------------------------------------------------------------
// Budgets

/// A budget for a category.
pub struct CategoryBudgetRecord {
    pub category_id: String,
    pub subcategory_id: Option<String>,
    pub month_ref: Option<String>,
    pub amount: Amount,
    pub alert_threshold_pct: i64,
}

/// The key of a budget: the category, the subcategory, and the month or `_default`.
pub fn budget_key(category_id: &str, subcategory_id: &Option<String>, month: &Option<String>) -> (r:
    String)
    ensures
        r@ == "budget:"@ + category_id@ + ":"@ + text_or(*subcategory_id, ""@) + ":"@ + text_or(
            *month,
            "_default"@,
        ),
{
    let mut out = chars("budget:");
    put(&mut out, category_id);
    put(&mut out, ":");
    put(&mut out, get_or(subcategory_id, ""));
    put(&mut out, ":");
    put(&mut out, get_or(month, "_default"));
    from_chars(&out)
}

/// What is told once a budget is stored.
pub fn tell_budget_saved(budget_id: &str, category_id: &str, month: &Option<String>) -> (r: String)
    ensures
        r@ == "Budget salvo: "@ + budget_id@ + " (category: "@ + category_id@ + ", month: "@
            + text_or(*month, "_default"@) + ")"@,
{
    let mut out = chars("Budget salvo: ");
    put(&mut out, budget_id);
    put(&mut out, " (category: ");
    put(&mut out, category_id);
    put(&mut out, ", month: ");
    put(&mut out, get_or(month, "_default"));
    put(&mut out, ")");
    from_chars(&out)
}

pub open spec fn budget_line(row: CategoryBudgetRecord) -> Seq<char> {
    barred(
        seq![
            row.category_id@,
            "sub: "@ + text_or(row.subcategory_id, "-"@),
            "month: "@ + text_or(row.month_ref, "_default"@),
            "budget: "@ + brl_text(row.amount),
            "threshold: "@ + signed_text(row.alert_threshold_pct as int) + "%"@,
        ],
    )
}

fn make_budget_line(row: &CategoryBudgetRecord) -> (r: String)
    ensures
        r@ == budget_line(*row),
{
    let mut parts: Vec<String> = Vec::new();
    assert(texts(parts@) =~= Seq::<Seq<char>>::empty());
    push_text(&mut parts, row.category_id.clone());
    push_text(&mut parts, glue("sub: ", get_or(&row.subcategory_id, "-")));
    push_text(&mut parts, glue("month: ", get_or(&row.month_ref, "_default")));
    push_text(&mut parts, glue("budget: ", brl(row.amount).as_str()));
    push_text(
        &mut parts,
        glue3("threshold: ", signed_number(row.alert_threshold_pct).as_str(), "%"),
    );
    assert(texts(parts@) =~= seq![
        row.category_id@,
        "sub: "@ + text_or(row.subcategory_id, "-"@),
        "month: "@ + text_or(row.month_ref, "_default"@),
        "budget: "@ + brl_text(row.amount),
        "threshold: "@ + signed_text(row.alert_threshold_pct as int) + "%"@,
    ]);
    join(&parts, " | ")
}

pub open spec fn budgets_title(month: Option<String>) -> Seq<char> {
    "Budgets"@ + (match month {
        Some(m) => " "@ + m@,
        None => Seq::empty(),
    })
}

/// The budgets of a month, or all.
pub fn list_budgets(rows: &Vec<CategoryBudgetRecord>, month: &Option<String>) -> (r: Vec<String>)
    ensures
        texts(r@) == listing_head(budgets_title(*month), rows@.len()) + rows@.map_values(
            |r: CategoryBudgetRecord| budget_line(r),
        ),
{
    let title = match month {
        Some(m) => {
            assert(budgets_title(*month) =~= "Budgets"@ + " "@ + m@);
            glue3("Budgets", " ", m.as_str())
        },
        None => {
            assert(budgets_title(*month) =~= "Budgets"@);
            "Budgets".to_string()
        },
    };
    let mut out = make_listing_head(title.as_str(), rows.len());
    let ghost head = texts(out@);
    let ghost want = rows@.map_values(|r: CategoryBudgetRecord| budget_line(r));
    let mut i: usize = 0;
    assert(head + want.take(0) =~= head);
    while i < rows.len()
        invariant
            i <= rows.len(),
            want == rows@.map_values(|r: CategoryBudgetRecord| budget_line(r)),
            texts(out@) == head + want.take(i as int),
        decreases rows.len() - i,
    {
        push_text(&mut out, make_budget_line(&rows[i]));
        i = i + 1;
        assert(texts(out@) =~= head + want.take(i as int));
    }
    assert(want.take(i as int) =~= want);
    out
}

/// How a budget stands. The usage is the whole part of the percentage.
pub struct BudgetUse {
    pub category_id: String,
    pub budget_amount: Amount,
    pub actual_amount: Amount,
    pub alert: bool,
    pub usage: i64,
}

/// The urgency of a budget: overspent, near its threshold, or in order.
pub open spec fn budget_tier(row: BudgetUse) -> int {
    if row.actual_amount.scaled() > row.budget_amount.scaled() {
        0
    } else if row.alert {
        1
    } else {
        2
    }
}

fn find_tier(row: &BudgetUse) -> (r: u8)
    ensures
        r == budget_tier(*row),
{
    if row.budget_amount.is_less(&row.actual_amount) {
        0
    } else if row.alert {
        1
    } else {
        2
    }
}

/// A budget by its place among the rows, with what it is ordered by.
#[derive(Clone, Copy)]
pub struct BudgetPlace {
    pub at: usize,
    pub tier: u8,
    pub usage: i64,
}

impl Ranked for BudgetPlace {
    open spec fn le(a: Self, b: Self) -> bool {
        a.tier < b.tier || (a.tier == b.tier && b.usage <= a.usage)
    }

    proof fn le_total(a: Self, b: Self) {
    }

    proof fn le_transitive(a: Self, b: Self, c: Self) {
    }

    fn may_precede(&self, other: &Self) -> (r: bool) {
        self.tier < other.tier || (self.tier == other.tier && other.usage <= self.usage)
    }
}

pub open spec fn budget_places(rows: Seq<BudgetUse>) -> Seq<BudgetPlace> {
    Seq::new(
        rows.len(),
        |i: int|
            BudgetPlace {
                at: i as usize,
                tier: budget_tier(rows[i]) as u8,
                usage: rows[i].usage,
            },
    )
}

pub open spec fn budget_mark(row: BudgetUse) -> Seq<char> {
    if budget_tier(row) == 0 {
        "🔻"@
    } else if budget_tier(row) == 1 {
        "🟡"@
    } else {
        "✅"@
    }
}

/// The two lines of a budget.
pub open spec fn budget_entry(row: BudgetUse) -> Seq<Seq<char>> {
    seq![
        budget_mark(row) + " "@ + bold_text(
            replaced(replaced(row.category_id@, ':', " › "@), '-', " "@),
        ) + " — "@ + reais_text(row.actual_amount) + " / "@ + reais_text(row.budget_amount) + " ("@
            + signed_text(row.usage as int) + "%)"@,
        "   "@ + crate::human::bar_text(row.usage as int),
    ]
}

/// The lines of the first `n` places.
pub open spec fn budget_entries(rows: Seq<BudgetUse>, places: Seq<BudgetPlace>, n: int) -> Seq<
    Seq<char>,
>
    decreases n,
{
    if n <= 0 {
        Seq::empty()
    } else {
        budget_entries(rows, places, n - 1) + budget_entry(rows[places[n - 1].at as int])
    }
}

pub open spec fn budgeted(rows: Seq<BudgetUse>, places: Seq<BudgetPlace>) -> Seq<Amount> {
    places.map_values(|p: BudgetPlace| rows[p.at as int].budget_amount)
}

pub open spec fn spent(rows: Seq<BudgetUse>, places: Seq<BudgetPlace>) -> Seq<Amount> {
    places.map_values(|p: BudgetPlace| rows[p.at as int].actual_amount)
}

/// The report on budgets: the overspent first, then those near their threshold, and among
/// each the most used first.
pub open spec fn budget_report(rows: Seq<BudgetUse>, month: Seq<char>) -> Seq<Seq<char>> {
    let head = seq!["🎯 "@ + bold_text("Orçamentos · "@ + month_name(month)), ""@];
    let places = sorted(budget_places(rows));
    if rows.len() == 0 {
        head + seq!["Nenhum orçamento configurado para o período."@]
    } else {
        head + budget_entries(rows, places, places.len() as int) + seq![
            ""@,
            "Total: "@ + bold_text(reais_text(sum_of(spent(rows, places)))) + " de "@ + reais_text(
                sum_of(budgeted(rows, places)),
            ) + " orçados"@,
        ]
    }
}

fn push_budget_entry(out: &mut Vec<String>, row: &BudgetUse)
    ensures
        texts(final(out)@) == texts(old(out)@) + budget_entry(*row),
{
    let ghost start = texts(out@);
    let tier = find_tier(row);
    let mark = if tier == 0 {
        "🔻"
    } else if tier == 1 {
        "🟡"
    } else {
        "✅"
    };
    let label = replace_char(
        replace_char(row.category_id.as_str(), ':', " › ").as_str(),
        '-',
        " ",
    );
    let mut line = chars(mark);
    put(&mut line, " ");
    put(&mut line, bold(label.as_str()).as_str());
    put(&mut line, " — ");
    put(&mut line, reais(row.actual_amount).as_str());
    put(&mut line, " / ");
    put(&mut line, reais(row.budget_amount).as_str());
    put(&mut line, " (");
    put(&mut line, signed_number(row.usage).as_str());
    put(&mut line, "%)");
    push_text(out, from_chars(&line));
    push_text(out, glue("   ", progress_bar(row.usage).as_str()));
    assert(texts(out@) =~= start + budget_entry(*row));
}

/// Whether the sums of the budgets stay within range.
pub open spec fn budgets_fit(rows: Seq<BudgetUse>) -> bool {
    let places = sorted(budget_places(rows));
    full_weight(spent(rows, places)) <= limit() && full_weight(budgeted(rows, places)) <= limit()
}

/// The report on budgets.
pub fn report_budget_status(rows: &Vec<BudgetUse>, month: &str) -> (r: Vec<String>)
    requires
        budgets_fit(rows@),
    ensures
        texts(r@) == budget_report(rows@, month@),
{
    let mut out: Vec<String> = Vec::new();
    assert(texts(out@) =~= Seq::<Seq<char>>::empty());
    let title = glue("Orçamentos · ", month_label(month).as_str());
    push_text(&mut out, glue("🎯 ", bold(title.as_str()).as_str()));
    push_text(&mut out, "".to_string());
    if rows.len() == 0 {
        push_text(&mut out, "Nenhum orçamento configurado para o período.".to_string());
        assert(texts(out@) =~= budget_report(rows@, month@));
        return out;
    }
    let mut places: Vec<BudgetPlace> = Vec::new();
    let mut i: usize = 0;
    while i < rows.len()
        invariant
            i <= rows.len(),
            places@ == budget_places(rows@).take(i as int),
        decreases rows.len() - i,
    {
        places.push(BudgetPlace { at: i, tier: find_tier(&rows[i]), usage: rows[i].usage });
        i = i + 1;
        assert(places@ =~= budget_places(rows@).take(i as int));
    }
    assert(places@ =~= budget_places(rows@));
    let ghost before = places@;
    let places = sort(places);
    proof {
        crate::order::lemma_same_elements(before, places@);
        assert forall|k: int| 0 <= k < places@.len() implies (#[trigger] places@[k]).at
            < rows@.len() by {
            assert(places@.contains(places@[k]));
            let j = choose|j: int| 0 <= j < before.len() && before[j] == places@[k];
            assert(before[j].at == j);
        }
    }
    let mut actual: Vec<Amount> = Vec::new();
    let mut budget: Vec<Amount> = Vec::new();
    let ghost head = texts(out@);
    let mut k: usize = 0;
    assert(head + budget_entries(rows@, places@, 0) =~= head);
    while k < places.len()
        invariant
            k <= places.len(),
            forall|j: int| 0 <= j < places@.len() ==> (#[trigger] places@[j]).at < rows@.len(),
            texts(out@) == head + budget_entries(rows@, places@, k as int),
            actual@ == spent(rows@, places@).take(k as int),
            budget@ == budgeted(rows@, places@).take(k as int),
        decreases places.len() - k,
    {
        let row = &rows[places[k].at];
        push_budget_entry(&mut out, row);
        actual.push(row.actual_amount);
        budget.push(row.budget_amount);
        assert(head + budget_entries(rows@, places@, k as int) + budget_entry(*row) =~= head + (
        budget_entries(rows@, places@, k as int) + budget_entry(*row)));
        k = k + 1;
        assert(actual@ =~= spent(rows@, places@).take(k as int));
        assert(budget@ =~= budgeted(rows@, places@).take(k as int));
    }
    assert(actual@ =~= spent(rows@, places@));
    assert(budget@ =~= budgeted(rows@, places@));
    let total_actual = total_of_all(&actual);
    let total_budget = total_of_all(&budget);
    push_text(&mut out, "".to_string());
    let mut line = chars("Total: ");
    put(&mut line, bold(reais(total_actual).as_str()).as_str());
    put(&mut line, " de ");
    put(&mut line, reais(total_budget).as_str());
    put(&mut line, " orçados");
    push_text(&mut out, from_chars(&line));
    assert(texts(out@) =~= budget_report(rows@, month@));
    out
}

} // verus!
