//! The commands on single transactions: what they store, and what they tell.

use crate::amount::{amount_from_text, parsed_decimal, Amount};
use crate::date::{iso, iso_text, parse_iso, parsed_date, Date};
use crate::draft::{HumanReviewPatch, PatchContent, ReviewTuiField};
use crate::maintenance::{quote_option, quoted, quoted_option, quoted_text};
use crate::metadata::{Json, JsonField};
use crate::money::{brl, brl_text, decimal_text, plain_text};
use crate::records::{opt_clone, opt_text, TransactionRecord};
use crate::review::{category_parts, ReviewFilters};
use crate::review_save::{PromptValue, ReviewHumanSummary};
use crate::text::{
    chars, digits, from_chars, glue, glue3, join, joined, number, push_text, put, replace_char,
    replaced, texts, trim_start, trim_start_chars,
};
use vstd::prelude::*;

verus! {

// ---------------------------------------------------------------------------
// Listings

/// The fields of a line, with bars between them.
pub open spec fn barred(parts: Seq<Seq<char>>) -> Seq<char> {
    joined(parts, " | "@)
}

/// The head of a listing: its title, the number of lines, and an empty line.
pub open spec fn listing_head(title: Seq<char>, n: nat) -> Seq<Seq<char>> {
    seq![title, "- linhas: "@ + digits(n), ""@]
}

/// The head of a listing.
pub fn make_listing_head(title: &str, n: usize) -> (r: Vec<String>)
    ensures
        texts(r@) == listing_head(title@, n as nat),
{
    let mut out: Vec<String> = Vec::new();
    assert(texts(out@) =~= Seq::<Seq<char>>::empty());
    push_text(&mut out, title.to_string());
    push_text(&mut out, glue("- linhas: ", number(n as u64).as_str()));
    push_text(&mut out, "".to_string());
    assert(texts(out@) =~= listing_head(title@, n as nat));
    out
}

/// The text, or another where there is none.
pub open spec fn text_or(o: Option<String>, other: Seq<char>) -> Seq<char> {
    match o {
        Some(s) => s@,
        None => other,
    }
}

pub(crate) fn get_or<'a>(o: &'a Option<String>, other: &'a str) -> (r: &'a str)
    ensures
        r@ == text_or(*o, other@),
{
    match o {
        Some(s) => s.as_str(),
        None => other,
    }
}

/// A transaction on one line.
pub open spec fn transaction_line(row: TransactionRecord) -> Seq<char> {
    barred(
        seq![
            row.transaction_id@,
            iso_text(row.transaction_date),
            plain_text(row.amount),
            row.shown(),
            text_or(row.account_id, "sem-conta"@),
            quoted_option(row.context),
        ],
    )
}

/// A transaction on one line.
pub fn print_transaction_row(row: &TransactionRecord) -> (r: String)
    ensures
        r@ == transaction_line(*row),
{
    let mut parts: Vec<String> = Vec::new();
    assert(texts(parts@) =~= Seq::<Seq<char>>::empty());
    push_text(&mut parts, row.transaction_id.clone());
    push_text(&mut parts, iso(&row.transaction_date));
    push_text(&mut parts, decimal_text(row.amount));
    push_text(&mut parts, row.display_description().to_string());
    push_text(&mut parts, get_or(&row.account_id, "sem-conta").to_string());
    push_text(&mut parts, quote_option(&row.context));
    assert(texts(parts@) =~= seq![
        row.transaction_id@,
        iso_text(row.transaction_date),
        plain_text(row.amount),
        row.shown(),
        text_or(row.account_id, "sem-conta"@),
        quoted_option(row.context),
    ]);
    join(&parts, " | ")
}

pub open spec fn transaction_lines(rows: Seq<TransactionRecord>) -> Seq<Seq<char>> {
    rows.map_values(|r: TransactionRecord| transaction_line(r))
}

/// A listing of transactions under a title.
pub fn list_transactions(title: &str, rows: &Vec<TransactionRecord>) -> (r: Vec<String>)
    ensures
        texts(r@) == listing_head(title@, rows@.len()) + transaction_lines(rows@),
{
    let mut out = make_listing_head(title, rows.len());
    let ghost head = texts(out@);
    let ghost want = transaction_lines(rows@);
    let mut i: usize = 0;
    assert(head + want.take(0) =~= head);
    while i < rows.len()
        invariant
            i <= rows.len(),
            want == transaction_lines(rows@),
            texts(out@) == head + want.take(i as int),
        decreases rows.len() - i,
    {
        push_text(&mut out, print_transaction_row(&rows[i]));
        i = i + 1;
        assert(texts(out@) =~= head + want.take(i as int));
    }
    assert(want.take(i as int) =~= want);
    out
}

/// The title of a search.
pub fn find_title(query: &str) -> (r: String)
    ensures
        r@ == "Transactions matching "@ + quoted_text(query@),
{
    glue("Transactions matching ", quoted(query).as_str())
}

/// What is missing in the transactions to list.
#[derive(Clone, Copy)]
pub enum PendingHumanKind {
    Description,
    Merchant,
    Purpose,
}

/// The title of the transactions that lack something.
pub fn pending_title(kind: PendingHumanKind) -> (r: &'static str)
    ensures
        r@ == (match kind {
            PendingHumanKind::Description => "Pending human Description transactions"@,
            PendingHumanKind::Merchant => "Pending human Merchant transactions"@,
            PendingHumanKind::Purpose => "Pending human Purpose transactions"@,
        }),
{
    match kind {
        PendingHumanKind::Description => "Pending human Description transactions",
        PendingHumanKind::Merchant => "Pending human Merchant transactions",
        PendingHumanKind::Purpose => "Pending human Purpose transactions",
    }
}

/// A transaction with its context.
pub struct ContextRow {
    pub transaction_id: String,
    pub transaction_date: Date,
    pub amount: Amount,
    pub description: String,
    pub account_label: Option<String>,
    pub account_id: Option<String>,
    pub category_id: Option<String>,
    pub context: String,
}

/// The account of a row: its label, else its identifier.
pub open spec fn row_account(row: ContextRow) -> Seq<char> {
    text_or(row.account_label, text_or(row.account_id, "sem-conta"@))
}

pub open spec fn context_line(row: ContextRow) -> Seq<char> {
    barred(
        seq![
            row.transaction_id@,
            iso_text(row.transaction_date),
            brl_text(row.amount),
            row.description@,
            row_account(row),
            text_or(row.category_id, "sem-categoria"@),
            row.context@,
        ],
    )
}

fn make_context_line(row: &ContextRow) -> (r: String)
    ensures
        r@ == context_line(*row),
{
    let mut parts: Vec<String> = Vec::new();
    assert(texts(parts@) =~= Seq::<Seq<char>>::empty());
    push_text(&mut parts, row.transaction_id.clone());
    push_text(&mut parts, iso(&row.transaction_date));
    push_text(&mut parts, brl(row.amount));
    push_text(&mut parts, row.description.clone());
    push_text(
        &mut parts,
        get_or(&row.account_label, get_or(&row.account_id, "sem-conta")).to_string(),
    );
    push_text(&mut parts, get_or(&row.category_id, "sem-categoria").to_string());
    push_text(&mut parts, row.context.clone());
    assert(texts(parts@) =~= seq![
        row.transaction_id@,
        iso_text(row.transaction_date),
        brl_text(row.amount),
        row.description@,
        row_account(*row),
        text_or(row.category_id, "sem-categoria"@),
        row.context@,
    ]);
    join(&parts, " | ")
}

pub open spec fn context_lines(rows: Seq<ContextRow>) -> Seq<Seq<char>> {
    rows.map_values(|r: ContextRow| context_line(r))
}

/// The listing of the transactions that have a context.
pub fn list_contexts(rows: &Vec<ContextRow>) -> (r: Vec<String>)
    ensures
        texts(r@) == listing_head("Transactions with context"@, rows@.len()) + context_lines(rows@),
{
    let mut out = make_listing_head("Transactions with context", rows.len());
    let ghost head = texts(out@);
    let ghost want = context_lines(rows@);
    let mut i: usize = 0;
    assert(head + want.take(0) =~= head);
    while i < rows.len()
        invariant
            i <= rows.len(),
            want == context_lines(rows@),
            texts(out@) == head + want.take(i as int),
        decreases rows.len() - i,
    {
        push_text(&mut out, make_context_line(&rows[i]));
        i = i + 1;
        assert(texts(out@) =~= head + want.take(i as int));
    }
    assert(want.take(i as int) =~= want);
    out
}

// ---------------------------------------------------------------------------
// The review queue

pub open spec fn told_field(name: Seq<char>, value: Option<String>) -> Seq<Seq<char>> {
    match value {
        Some(v) => seq![name + v@],
        None => Seq::empty(),
    }
}

/// The lines of a transaction in the queue, and an empty line.
pub open spec fn queue_entry(row: TransactionRecord, index: int) -> Seq<Seq<char>> {
    seq![
        digits((index + 1) as nat) + ". "@ + barred(
            seq![
                iso_text(row.transaction_date),
                brl_text(row.amount),
                text_or(row.category_id, "sem-categoria"@),
                row.shown(),
            ],
        ),
        "   id: "@ + row.transaction_id@,
        "   raw: "@ + row.raw_description@,
    ] + told_field("   merchant: "@, row.merchant_name) + told_field(
        "   description: "@,
        row.description,
    ) + told_field("   purpose: "@, row.purpose) + seq![""@]
}

/// The lines of the first `n` transactions of the queue.
pub open spec fn queue_entries(rows: Seq<TransactionRecord>, n: int) -> Seq<Seq<char>>
    decreases n,
{
    if n <= 0 {
        Seq::empty()
    } else {
        queue_entries(rows, n - 1) + queue_entry(rows[n - 1], n - 1)
    }
}

fn tell_field(out: &mut Vec<String>, name: &str, value: &Option<String>)
    ensures
        texts(final(out)@) == texts(old(out)@) + told_field(name@, *value),
{
    let ghost start = texts(out@);
    match value {
        Some(v) => {
            push_text(out, glue(name, v.as_str()));
        },
        None => {},
    }
    assert(texts(out@) =~= start + told_field(name@, *value));
}

fn tell_entry(out: &mut Vec<String>, row: &TransactionRecord, index: usize)
    requires
        index < usize::MAX,
    ensures
        texts(final(out)@) == texts(old(out)@) + queue_entry(*row, index as int),
{
    let ghost start = texts(out@);
    let mut parts: Vec<String> = Vec::new();
    assert(texts(parts@) =~= Seq::<Seq<char>>::empty());
    push_text(&mut parts, iso(&row.transaction_date));
    push_text(&mut parts, brl(row.amount));
    push_text(&mut parts, get_or(&row.category_id, "sem-categoria").to_string());
    push_text(&mut parts, row.display_description().to_string());
    assert(texts(parts@) =~= seq![
        iso_text(row.transaction_date),
        brl_text(row.amount),
        text_or(row.category_id, "sem-categoria"@),
        row.shown(),
    ]);
    let place = number((index + 1) as u64);
    push_text(out, glue3(place.as_str(), ". ", join(&parts, " | ").as_str()));
    push_text(out, glue("   id: ", row.transaction_id.as_str()));
    push_text(out, glue("   raw: ", row.raw_description.as_str()));
    tell_field(out, "   merchant: ", &row.merchant_name);
    tell_field(out, "   description: ", &row.description);
    tell_field(out, "   purpose: ", &row.purpose);
    push_text(out, "".to_string());
    assert(texts(out@) =~= start + queue_entry(*row, index as int));
}

/// The queue of the transactions to review.
pub fn print_review_queue(rows: &Vec<TransactionRecord>) -> (r: Vec<String>)
    ensures
        texts(r@) == listing_head("Pendências de anatomia humana"@, rows@.len()) + queue_entries(
            rows@,
            rows@.len() as int,
        ),
{
    let mut out = make_listing_head("Pendências de anatomia humana", rows.len());
    let ghost head = texts(out@);
    let mut i: usize = 0;
    assert(head + queue_entries(rows@, 0) =~= head);
    while i < rows.len()
        invariant
            i <= rows.len(),
            texts(out@) == head + queue_entries(rows@, i as int),
        decreases rows.len() - i,
    {
        tell_entry(&mut out, &rows[i], i);
        assert(head + queue_entries(rows@, i as int) + queue_entry(rows@[i as int], i as int)
            =~= head + (queue_entries(rows@, i as int) + queue_entry(rows@[i as int], i as int)));
        i = i + 1;
    }
    out
}

/// A transaction of the queue, for other programs.
pub struct ReviewHumanQueueItem {
    pub transaction_id: String,
    pub account_id: Option<String>,
    pub transaction_date: String,
    pub amount: String,
    pub raw_description: String,
    pub display_description: String,
    pub description: Option<String>,
    pub merchant_name: Option<String>,
    pub purpose: Option<String>,
    pub category_id: Option<String>,
    pub category_source: String,
}

/// A transaction of the queue, for other programs.
pub fn review_queue_item(row: &TransactionRecord) -> (r: ReviewHumanQueueItem)
    ensures
        r.transaction_id == row.transaction_id,
        r.account_id == row.account_id,
        r.transaction_date@ == iso_text(row.transaction_date),
        r.amount@ == plain_text(row.amount),
        r.raw_description == row.raw_description,
        r.display_description@ == row.shown(),
        r.description == row.description,
        r.merchant_name == row.merchant_name,
        r.purpose == row.purpose,
        r.category_id == row.category_id,
        r.category_source == row.category_source,
{
    ReviewHumanQueueItem {
        transaction_id: row.transaction_id.clone(),
        account_id: opt_clone(&row.account_id),
        transaction_date: iso(&row.transaction_date),
        amount: decimal_text(row.amount),
        raw_description: row.raw_description.clone(),
        display_description: row.display_description().to_string(),
        description: opt_clone(&row.description),
        merchant_name: opt_clone(&row.merchant_name),
        purpose: opt_clone(&row.purpose),
        category_id: opt_clone(&row.category_id),
        category_source: row.category_source.clone(),
    }
}

pub open spec fn count_text(n: int) -> Seq<char> {
    crate::date::signed_text(n)
}

/// What is left to review, in words.
pub open spec fn summary_lines(summary: ReviewHumanSummary) -> Seq<Seq<char>> {
    seq![
        "📌 Categorizações e descrições"@,
        "- sem categoria: "@ + count_text(summary.uncategorized_count as int),
        "- sem descrição humana: "@ + count_text(summary.missing_description_count as int),
        "- sem estabelecimento: "@ + count_text(summary.missing_merchant_count as int),
        "- sem propósito acima de R$ "@ + replaced(summary.min_purpose_amount@, '.', ","@) + ": "@
            + count_text(summary.missing_purpose_count as int),
        ""@,
        (if summary.total_attention_count == 0 {
            "Tudo em dia por aqui."@
        } else {
            "Quer brincar de categorizar algumas agora? Responda \"sim\" que eu te mando a primeira leva."@
        }),
    ]
}

/// What is left to review, in words.
pub fn print_review_human_summary(summary: &ReviewHumanSummary) -> (r: Vec<String>)
    ensures
        texts(r@) == summary_lines(*summary),
{
    let mut out: Vec<String> = Vec::new();
    assert(texts(out@) =~= Seq::<Seq<char>>::empty());
    push_text(&mut out, "📌 Categorizações e descrições".to_string());
    push_text(
        &mut out,
        glue(
            "- sem categoria: ",
            crate::date::signed_number(summary.uncategorized_count).as_str(),
        ),
    );
    push_text(
        &mut out,
        glue(
            "- sem descrição humana: ",
            crate::date::signed_number(summary.missing_description_count).as_str(),
        ),
    );
    push_text(
        &mut out,
        glue(
            "- sem estabelecimento: ",
            crate::date::signed_number(summary.missing_merchant_count).as_str(),
        ),
    );
    let mut line = chars("- sem propósito acima de R$ ");
    put(&mut line, replace_char(summary.min_purpose_amount.as_str(), '.', ",").as_str());
    put(&mut line, ": ");
    put(&mut line, crate::date::signed_number(summary.missing_purpose_count).as_str());
    push_text(&mut out, from_chars(&line));
    push_text(&mut out, "".to_string());
    if summary.total_attention_count == 0 {
        push_text(&mut out, "Tudo em dia por aqui.".to_string());
    } else {
        push_text(
            &mut out,
            "Quer brincar de categorizar algumas agora? Responda \"sim\" que eu te mando a primeira leva.".to_string(),
        );
    }
    assert(texts(out@) =~= summary_lines(*summary));
    out
}

// ---------------------------------------------------------------------------
// Opening the review

/// Where the search for rows to review stands: with the filters that were asked for,
/// with all that is pending, or with everything.
#[derive(Clone, Copy)]
pub enum LaunchStage {
    Asked,
    Pending,
    Everything,
}

/// What to do next.
pub enum LaunchStep {
    /// Open the review, with the reviewed rows or without, after a note.
    Open(bool, Option<String>),
    /// Look among all that is pending.
    FetchPending,
    /// Look among everything, reviewed rows too.
    FetchEverything,
    /// Say that there is nothing.
    Nothing(String),
}

/// The filters of the review on screen: those that were asked for, or the current month
/// where none were.
pub fn launch_filters(filters: ReviewFilters, tui: bool, month: &str) -> (r: (ReviewFilters, bool))
    ensures
        r.1 == (tui && filters.narrows_nothing()),
        !r.1 ==> r.0 == filters,
        r.1 ==> (r.0.month is Some && r.0.month->0@ == month@ && r.0.account_id
            == filters.account_id && r.0.category == filters.category && r.0.merchant
            == filters.merchant && r.0.owner == filters.owner && r.0.owner_accounts
            == filters.owner_accounts),
{
    if tui && filters.is_empty() {
        let mut out = filters;
        out.month = Some(month.to_string());
        (out, true)
    } else {
        (filters, false)
    }
}

/// What to do once the rows of a stage are known. Where the month was filled in by
/// itself and holds nothing, all that is pending is looked at, and then everything.
pub fn review_launch_step(stage: LaunchStage, found: bool, month_filled_in: bool, month: &str) -> (r:
    LaunchStep)
    ensures
        match stage {
            LaunchStage::Asked => if found {
                r matches LaunchStep::Open(reviewed, note) && !reviewed && note is None
            } else if month_filled_in {
                r is FetchPending
            } else {
                r is FetchEverything
            },
            LaunchStage::Pending => if found {
                r matches LaunchStep::Open(reviewed, note) && !reviewed && opt_text(note) == Some(
                    "sem pendências em "@ + month@ + ", mostrando todas as pendências"@,
                )
            } else {
                r is FetchEverything
            },
            LaunchStage::Everything => if found {
                r matches LaunchStep::Open(reviewed, note) && reviewed && opt_text(note) == Some(
                    "sem pendências; abrindo em modo 'todas' (Ctrl+R alterna)"@,
                )
            } else {
                r matches LaunchStep::Nothing(text) && text@ == "Sem transações no período."@
            },
        },
{
    match stage {
        LaunchStage::Asked => if found {
            LaunchStep::Open(false, None)
        } else if month_filled_in {
            LaunchStep::FetchPending
        } else {
            LaunchStep::FetchEverything
        },
        LaunchStage::Pending => if found {
            let note = glue3("sem pendências em ", month, ", mostrando todas as pendências");
            LaunchStep::Open(false, Some(note))
        } else {
            LaunchStep::FetchEverything
        },
        LaunchStage::Everything => if found {
            LaunchStep::Open(
                true,
                Some("sem pendências; abrindo em modo 'todas' (Ctrl+R alterna)".to_string()),
            )
        } else {
            LaunchStep::Nothing("Sem transações no período.".to_string())
        },
    }
}

/// What a review asks about.
#[derive(Clone, Copy)]
pub enum ReviewHumanKind {
    Description,
    Merchant,
    Purpose,
    All,
}

/// Whether a review asks for a field: where it is about that field, or about all and the
/// field is missing. The category is always asked for.
pub open spec fn asks_for(kind: ReviewHumanKind, row: TransactionRecord, field: ReviewTuiField) -> bool {
    match field {
        ReviewTuiField::Merchant => kind is Merchant || (kind is All && row.merchant_name is None),
        ReviewTuiField::Description => kind is Description || (kind is All && row.description
            is None),
        ReviewTuiField::Purpose => kind is Purpose || (kind is All && row.purpose is None),
        ReviewTuiField::Category => true,
    }
}

/// Whether a review asks for a field.
pub fn is_asked(kind: ReviewHumanKind, row: &TransactionRecord, field: ReviewTuiField) -> (r: bool)
    ensures
        r == asks_for(kind, *row, field),
{
    match (field, kind) {
        (ReviewTuiField::Merchant, ReviewHumanKind::Merchant) => true,
        (ReviewTuiField::Merchant, ReviewHumanKind::All) => row.merchant_name.is_none(),
        (ReviewTuiField::Description, ReviewHumanKind::Description) => true,
        (ReviewTuiField::Description, ReviewHumanKind::All) => row.description.is_none(),
        (ReviewTuiField::Purpose, ReviewHumanKind::Purpose) => true,
        (ReviewTuiField::Purpose, ReviewHumanKind::All) => row.purpose.is_none(),
        (ReviewTuiField::Category, _) => true,
        _ => false,
    }
}

/// What an answer leads to.
pub enum AnswerStep {
    /// Go on with the changes so far.
    Next(HumanReviewPatch),
    /// Leave the transaction as it is.
    Skip,
    /// End the review.
    Quit,
}

/// The changes with one more field.
pub open spec fn patched(patch: PatchContent, field: ReviewTuiField, value: Seq<char>) -> PatchContent {
    match field {
        ReviewTuiField::Merchant => (PatchContent { merchant_name: Some(value), ..patch }),
        ReviewTuiField::Description => (PatchContent { description: Some(value), ..patch }),
        ReviewTuiField::Purpose => (PatchContent { purpose: Some(value), ..patch }),
        ReviewTuiField::Category => (PatchContent { category_id: Some(value), ..patch }),
    }
}

/// What an answer to the question for a field leads to.
pub fn take_answer(patch: HumanReviewPatch, field: ReviewTuiField, answer: PromptValue) -> (r:
    AnswerStep)
    ensures
        match answer {
            PromptValue::Keep => r == AnswerStep::Next(patch),
            PromptValue::Value(v) => r matches AnswerStep::Next(p) && p@ == patched(
                patch@,
                field,
                v@,
            ),
            PromptValue::Skip => r is Skip,
            PromptValue::Quit => r is Quit,
        },
{
    match answer {
        PromptValue::Keep => AnswerStep::Next(patch),
        PromptValue::Value(v) => {
            let mut out = patch;
            match field {
                ReviewTuiField::Merchant => {
                    out.merchant_name = Some(v);
                },
                ReviewTuiField::Description => {
                    out.description = Some(v);
                },
                ReviewTuiField::Purpose => {
                    out.purpose = Some(v);
                },
                ReviewTuiField::Category => {
                    out.category_id = Some(v);
                },
            }
            AnswerStep::Next(out)
        },
        PromptValue::Skip => AnswerStep::Skip,
        PromptValue::Quit => AnswerStep::Quit,
    }
}

/// What is told of a transaction before the questions.
pub fn question_head(row: &TransactionRecord, index: usize, total: usize) -> (r: Vec<String>)
    requires
        index < total,
    ensures
        texts(r@) == seq![
            "["@ + digits((index + 1) as nat) + "/"@ + digits(total as nat) + "] "@ + barred(
                seq![
                    iso_text(row.transaction_date),
                    brl_text(row.amount),
                    text_or(row.category_id, "sem-categoria"@),
                ],
            ),
            "id: "@ + row.transaction_id@,
            "raw: "@ + row.raw_description@,
            "atual: "@ + row.shown(),
        ],
{
    let mut parts: Vec<String> = Vec::new();
    assert(texts(parts@) =~= Seq::<Seq<char>>::empty());
    push_text(&mut parts, iso(&row.transaction_date));
    push_text(&mut parts, brl(row.amount));
    push_text(&mut parts, get_or(&row.category_id, "sem-categoria").to_string());
    assert(texts(parts@) =~= seq![
        iso_text(row.transaction_date),
        brl_text(row.amount),
        text_or(row.category_id, "sem-categoria"@),
    ]);
    let mut head = chars("[");
    put(&mut head, number((index + 1) as u64).as_str());
    put(&mut head, "/");
    put(&mut head, number(total as u64).as_str());
    put(&mut head, "] ");
    put(&mut head, join(&parts, " | ").as_str());
    let mut out: Vec<String> = Vec::new();
    assert(texts(out@) =~= Seq::<Seq<char>>::empty());
    push_text(&mut out, from_chars(&head));
    push_text(&mut out, glue("id: ", row.transaction_id.as_str()));
    push_text(&mut out, glue("raw: ", row.raw_description.as_str()));
    push_text(&mut out, glue("atual: ", row.display_description()));
    out
}

// ---------------------------------------------------------------------------
// Entering and changing a transaction

/// A transaction as it was typed in.
pub struct ManualEntry {
    pub transaction_id: Option<String>,
    pub account_id: Option<String>,
    pub date: String,
    pub description: String,
    pub amount: String,
    pub category_key: Option<String>,
    pub context: Option<String>,
    pub payment_status: String,
}

/// Whether an amount was typed as money that left.
pub open spec fn typed_as_debit(amount: Seq<char>) -> bool {
    let t = trim_start(amount);
    t.len() > 0 && t[0] == '-'
}

/// The metadata of what was typed in.
pub open spec fn typed_in(v: Json) -> bool {
    v matches Json::Object(fields) && fields@.len() == 1 && fields@[0].name@ == "origin"@ && (
    fields@[0].value matches Json::Text(t) && t@ == "finance-cli"@)
}

/// Whether a record holds what was typed in, with the date and the amount that were read.
pub open spec fn records(
    tx: TransactionRecord,
    entry: ManualEntry,
    date: Date,
    amount: Amount,
    fresh_id: Seq<char>,
    actor_id: Seq<char>,
    key: Seq<char>,
) -> bool {
    &&& tx.transaction_id@ == text_or(entry.transaction_id, "manual_"@ + fresh_id)
    &&& tx.account_id == entry.account_id
    &&& tx.transaction_date == date
    &&& tx.raw_description@ == entry.description@
    &&& opt_text(tx.description) == Some(entry.description@)
    &&& tx.merchant_name is None
    &&& tx.purpose is None
    &&& tx.amount == amount
    &&& tx.tx_type@ == (if typed_as_debit(entry.amount@) {
        "debit"@
    } else {
        "credit"@
    })
    &&& tx.category_id == entry.category_key
    &&& tx.category_source@ == (if entry.category_key is Some {
        "manual"@
    } else {
        "uncategorized"@
    })
    &&& tx.context is None
    &&& tx.classifier_trace == entry.context
    &&& tx.payment_status == entry.payment_status
    &&& tx.source@ == "manual"@
    &&& tx.actor_id@ == actor_id
    &&& tx.idempotency_key@ == key
    &&& typed_in(tx.metadata_json)
}

fn is_debit(amount: &str) -> (r: bool)
    ensures
        r == typed_as_debit(amount@),
{
    let t = trim_start_chars(&chars(amount));
    t.len() > 0 && t[0] == '-'
}

/// The record of what was typed in, with the date and the amount that were read.
pub fn manual_record(
    entry: ManualEntry,
    date: Date,
    amount: Amount,
    fresh_id: &str,
    actor_id: &str,
    key: &str,
) -> (r: TransactionRecord)
    ensures
        records(r, entry, date, amount, fresh_id@, actor_id@, key@),
{
    let debit = is_debit(entry.amount.as_str());
    let categorized = entry.category_key.is_some();
    let transaction_id = match entry.transaction_id {
        Some(id) => id,
        None => glue("manual_", fresh_id),
    };
    let mut fields: Vec<JsonField> = Vec::new();
    fields.push(
        JsonField { name: "origin".to_string(), value: Json::Text("finance-cli".to_string()) },
    );
    TransactionRecord {
        transaction_id,
        account_id: entry.account_id,
        transaction_date: date,
        raw_description: entry.description.clone(),
        description: Some(entry.description),
        merchant_name: None,
        purpose: None,
        amount,
        tx_type: if debit {
            "debit".to_string()
        } else {
            "credit".to_string()
        },
        category_id: entry.category_key,
        category_source: if categorized {
            "manual".to_string()
        } else {
            "uncategorized".to_string()
        },
        context: None,
        classifier_trace: entry.context,
        payment_status: entry.payment_status,
        source: "manual".to_string(),
        actor_id: actor_id.to_string(),
        idempotency_key: key.to_string(),
        metadata_json: Json::Object(fields),
    }
}

/// The record of what was typed in. The date is read first, then the amount.
pub fn read_manual_entry(entry: ManualEntry, fresh_id: &str, actor_id: &str, key: &str) -> (r: Result<
    TransactionRecord,
    String,
>)
    ensures
        match r {
            Ok(tx) => parsed_date(entry.date@) == Some(
                (tx.transaction_date.y(), tx.transaction_date.m(), tx.transaction_date.d()),
            ) && parsed_decimal(entry.amount@) == Some(
                (tx.amount.sign(), tx.amount.units(), tx.amount.places()),
            ) && records(
                tx,
                entry,
                tx.transaction_date,
                tx.amount,
                fresh_id@,
                actor_id@,
                key@,
            ),
            Err(e) => if parsed_date(entry.date@) is None {
                e@ == "date inválida"@
            } else {
                parsed_decimal(entry.amount@) is None && e@ == "valor inválido: "@ + entry.amount@
            },
        },
{
    match parse_iso(entry.date.as_str()) {
        None => Err("date inválida".to_string()),
        Some(date) => match amount_from_text(entry.amount.as_str()) {
            Err(e) => Err(e),
            Ok(amount) => Ok(manual_record(entry, date, amount, fresh_id, actor_id, key)),
        },
    }
}

/// The two parts of a category: those that were given, or those around the colon.
pub fn category_key_parts(category: &str, subcategory: &Option<String>) -> (r: (
    String,
    Option<String>,
))
    ensures
        subcategory is Some ==> r.0@ == category@ && r.1 == *subcategory,
        subcategory is None ==> (match crate::text::split_at_char(category@, ':') {
            Some((base, sub)) => r.0@ == base && opt_text(r.1) == Some(sub),
            None => r.0@ == category@ && r.1 is None,
        }),
{
    match subcategory {
        Some(_) => (category.to_string(), opt_clone(subcategory)),
        None => category_parts(category),
    }
}

/// Whether a change of the anatomy names a field to change.
pub fn check_anatomy(
    description: &Option<String>,
    merchant_name: &Option<String>,
    purpose: &Option<String>,
    classifier_trace: &Option<String>,
) -> (r: Result<(), String>)
    ensures
        r is Ok <==> (description is Some || merchant_name is Some || purpose is Some
            || classifier_trace is Some),
        r matches Err(e) ==> e@
            == "Informe ao menos um campo: --description, --merchant-name, --purpose ou --classifier-trace"@,
{
    if description.is_none() && merchant_name.is_none() && purpose.is_none()
        && classifier_trace.is_none() {
        Err(
            "Informe ao menos um campo: --description, --merchant-name, --purpose ou --classifier-trace".to_string(),
        )
    } else {
        Ok(())
    }
}

/// What a command does to a transaction, as its key names it.
#[derive(Clone, Copy)]
pub enum ChangeKind {
    Annotate,
    Anatomy,
    Context,
    Review,
    SplitClear,
}

pub open spec fn change_name(kind: ChangeKind) -> Seq<char> {
    match kind {
        ChangeKind::Annotate => "annotate"@,
        ChangeKind::Anatomy => "anatomy"@,
        ChangeKind::Context => "context"@,
        ChangeKind::Review => "review-human"@,
        ChangeKind::SplitClear => "split-clear"@,
    }
}

/// The key of a change: its name, the transaction, and a fresh suffix.
pub fn change_key(kind: ChangeKind, transaction_id: &str, suffix: &str) -> (r: String)
    ensures
        r@ == change_name(kind) + ":"@ + transaction_id@ + ":"@ + suffix@,
{
    let name = match kind {
        ChangeKind::Annotate => "annotate",
        ChangeKind::Anatomy => "anatomy",
        ChangeKind::Context => "context",
        ChangeKind::Review => "review-human",
        ChangeKind::SplitClear => "split-clear",
    };
    let mut out = chars(name);
    put(&mut out, ":");
    put(&mut out, transaction_id);
    put(&mut out, ":");
    put(&mut out, suffix);
    from_chars(&out)
}

// ---------------------------------------------------------------------------
// Contexts by description

/// What a change of the context does to a transaction.
pub struct SetContextByDescResult {
    pub transaction_id: String,
    pub description: String,
    pub old_context: Option<String>,
    pub new_context: String,
}

/// Whether a result tells of a transaction.
pub open spec fn tells_of(
    result: SetContextByDescResult,
    row: TransactionRecord,
    context: Seq<char>,
) -> bool {
    &&& result.transaction_id == row.transaction_id
    &&& result.description@ == row.shown()
    &&& result.old_context == row.context
    &&& result.new_context@ == context
}

/// What a change of the context does to each transaction.
pub fn context_changes(rows: &Vec<TransactionRecord>, context: &str) -> (r: Vec<
    SetContextByDescResult,
>)
    ensures
        r@.len() == rows@.len(),
        forall|i: int| 0 <= i < r@.len() ==> tells_of(#[trigger] r@[i], rows@[i], context@),
{
    let mut out: Vec<SetContextByDescResult> = Vec::new();
    let mut i: usize = 0;
    while i < rows.len()
        invariant
            i <= rows.len(),
            out@.len() == i,
            forall|k: int| 0 <= k < i ==> tells_of(#[trigger] out@[k], rows@[k], context@),
        decreases rows.len() - i,
    {
        out.push(
            SetContextByDescResult {
                transaction_id: rows[i].transaction_id.clone(),
                description: rows[i].display_description().to_string(),
                old_context: opt_clone(&rows[i].context),
                new_context: context.to_string(),
            },
        );
        i = i + 1;
    }
    out
}

pub open spec fn change_line(result: SetContextByDescResult) -> Seq<char> {
    barred(
        seq![
            result.transaction_id@,
            result.description@,
            quoted_option(result.old_context) + " -> "@ + quoted_text(result.new_context@),
        ],
    )
}

fn make_change_line(result: &SetContextByDescResult) -> (r: String)
    ensures
        r@ == change_line(*result),
{
    let mut parts: Vec<String> = Vec::new();
    assert(texts(parts@) =~= Seq::<Seq<char>>::empty());
    push_text(&mut parts, result.transaction_id.clone());
    push_text(&mut parts, result.description.clone());
    push_text(
        &mut parts,
        glue3(
            quote_option(&result.old_context).as_str(),
            " -> ",
            quoted(result.new_context.as_str()).as_str(),
        ),
    );
    assert(texts(parts@) =~= seq![
        result.transaction_id@,
        result.description@,
        quoted_option(result.old_context) + " -> "@ + quoted_text(result.new_context@),
    ]);
    join(&parts, " | ")
}

pub open spec fn change_lines(results: Seq<SetContextByDescResult>) -> Seq<Seq<char>> {
    results.map_values(|r: SetContextByDescResult| change_line(r))
}

/// What is told of a change of the context, done or only announced.
pub fn tell_context_changes(results: &Vec<SetContextByDescResult>, dry_run: bool) -> (r: Vec<String>)
    ensures
        texts(r@) == seq![
            (if dry_run {
                "Dry-run: "@ + digits(results@.len()) + " transaction(s) would be updated"@
            } else {
                "Contexto atualizado para "@ + digits(results@.len()) + " transação(ões)"@
            }),
        ] + change_lines(results@),
{
    let n = number(results.len() as u64);
    let mut out: Vec<String> = Vec::new();
    assert(texts(out@) =~= Seq::<Seq<char>>::empty());
    if dry_run {
        push_text(&mut out, glue3("Dry-run: ", n.as_str(), " transaction(s) would be updated"));
    } else {
        push_text(&mut out, glue3("Contexto atualizado para ", n.as_str(), " transação(ões)"));
    }
    let ghost head = texts(out@);
    let ghost want = change_lines(results@);
    let mut i: usize = 0;
    assert(head + want.take(0) =~= head);
    while i < results.len()
        invariant
            i <= results.len(),
            want == change_lines(results@),
            texts(out@) == head + want.take(i as int),
        decreases results.len() - i,
    {
        push_text(&mut out, make_change_line(&results[i]));
        i = i + 1;
        assert(texts(out@) =~= head + want.take(i as int));
    }
    assert(want.take(i as int) =~= want);
    out
}

/// The key of a change of the context, with a fresh suffix.
pub fn context_by_desc_key(transaction_id: &str, context: &str, suffix: &str) -> (r: String)
    ensures
        r@ == "context-by-desc:"@ + transaction_id@ + ":"@ + context@ + ":"@ + suffix@,
{
    let mut out = chars("context-by-desc:");
    put(&mut out, transaction_id);
    put(&mut out, ":");
    put(&mut out, context);
    put(&mut out, ":");
    put(&mut out, suffix);
    from_chars(&out)
}

} // verus!
