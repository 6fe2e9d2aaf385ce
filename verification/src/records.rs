//! The rows that reports and reviews work on.

use crate::amount::Amount;
use crate::date::Date;
use crate::description::{
    extract_installment_marker, marker_of, normalize_description, normalized,
    strip_installment_marker, without_markers,
};
use crate::metadata::{
    installment_signal, metadata_contains_installment_signal, paths, string_at, string_path,
    unsigned_at, unsigned_path, Json,
};
use crate::text::{
    contains, digits, glue3, has_prefix, has_text, is_blank, lower_ascii, number, starts_with,
    to_lower_ascii, trim, trimmed,
};
use vstd::prelude::*;

verus! {

/// A posted transaction.
pub struct TransactionRecord {
    pub transaction_id: String,
    pub account_id: Option<String>,
    pub transaction_date: Date,
    pub raw_description: String,
    pub description: Option<String>,
    pub merchant_name: Option<String>,
    pub purpose: Option<String>,
    pub amount: Amount,
    pub tx_type: String,
    pub category_id: Option<String>,
    pub category_source: String,
    pub context: Option<String>,
    pub classifier_trace: Option<String>,
    pub payment_status: String,
    pub source: String,
    pub actor_id: String,
    pub idempotency_key: String,
    pub metadata_json: Json,
}

/// The text of an optional string.
pub open spec fn opt_text(o: Option<String>) -> Option<Seq<char>> {
    match o {
        Some(s) => Some(s@),
        None => None,
    }
}

/// The text of an optional string, the empty text where there is none.
pub open spec fn text_or_empty(o: Option<String>) -> Seq<char> {
    match o {
        Some(s) => s@,
        None => Seq::empty(),
    }
}

pub fn opt_clone(o: &Option<String>) -> (r: Option<String>)
    ensures
        r == *o,
{
    match o {
        Some(s) => Some(s.clone()),
        None => None,
    }
}

pub fn or_empty(o: &Option<String>) -> (r: String)
    ensures
        r@ == text_or_empty(*o),
{
    match o {
        Some(s) => s.clone(),
        None => String::new(),
    }
}

/// Whether both are absent, or both hold the same text.
pub fn same_option(a: &Option<String>, b: &Option<String>) -> (r: bool)
    ensures
        r == (opt_text(*a) == opt_text(*b)),
{
    match (a, b) {
        (Some(x), Some(y)) => crate::text::same(x.as_str(), y.as_str()),
        (None, None) => true,
        _ => false,
    }
}

/// Whether the option holds that text.
pub fn is_text(o: &Option<String>, s: &str) -> (r: bool)
    ensures
        r == (opt_text(*o) == Some(s@)),
{
    match o {
        Some(x) => crate::text::same(x.as_str(), s),
        None => false,
    }
}

impl TransactionRecord {
    /// The description to show: the human one where it is not blank, else the raw one.
    pub open spec fn shown(self) -> Seq<char> {
        match self.description {
            Some(d) => if trimmed(d@).len() > 0 {
                d@
            } else {
                self.raw_description@
            },
            None => self.raw_description@,
        }
    }

    /// The description to show.
    pub fn display_description(&self) -> (r: &str)
        ensures
            r@ == self.shown(),
    {
        match &self.description {
            Some(d) => if is_blank(d.as_str()) {
                self.raw_description.as_str()
            } else {
                d.as_str()
            },
            None => self.raw_description.as_str(),
        }
    }
}

/// An account.
pub struct AccountRecord {
    pub account_id: String,
    pub owner: String,
    pub account_type: String,
    pub bank: String,
    pub label: String,
    pub pluggy_account_id: Option<String>,
    pub pluggy_item_id: Option<String>,
    pub status: String,
    pub actor_id: String,
    pub idempotency_key: String,
    pub metadata_json: Json,
}

/// A transaction on a card bill.
pub struct CardClosedTransactionRow {
    pub month_ref: String,
    pub account_id: String,
    pub transaction_id: String,
    pub transaction_date: Date,
    pub label: String,
    pub description: String,
    pub amount: Amount,
    pub category_id: Option<String>,
    pub payment_status: String,
    pub metadata_json: Json,
}

/// The key under which purchases at the same merchant meet.
pub open spec fn merchant_key(row: CardClosedTransactionRow) -> Seq<char> {
    let base = if trimmed(row.label@).len() == 0 {
        row.description@
    } else {
        row.label@
    };
    let key = normalized(without_markers(base));
    if key.len() == 0 {
        "sem-chave"@
    } else {
        key
    }
}

/// The key under which purchases at the same merchant meet.
pub fn merchant_key_for_card_row(row: &CardClosedTransactionRow) -> (r: String)
    ensures
        r@ == merchant_key(*row),
{
    let base = if is_blank(row.label.as_str()) {
        row.description.as_str()
    } else {
        row.label.as_str()
    };
    let normalized = normalize_description(strip_installment_marker(base).as_str());
    if normalized.as_str().is_empty() {
        "sem-chave".to_string()
    } else {
        normalized
    }
}

pub open spec fn raw_description_path() -> Seq<Seq<char>> {
    seq!["raw"@, "descriptionRaw"@]
}

/// The installment marker of a purchase: in its label, its description, the raw
/// description of its metadata, or `metadata` where the metadata speaks of one.
pub open spec fn marker_in(label: Seq<char>, description: Seq<char>, metadata: Json) -> Option<
    Seq<char>,
> {
    if marker_of(label) is Some {
        marker_of(label)
    } else if marker_of(description) is Some {
        marker_of(description)
    } else {
        match string_at(metadata, raw_description_path()) {
            Some(t) if marker_of(t) is Some => marker_of(t),
            _ => if installment_signal(metadata) {
                Some("metadata"@)
            } else {
                None
            },
        }
    }
}

/// The installment marker of a purchase.
pub fn detect_marker(label: &str, description: &str, metadata: &Json) -> (r: Option<String>)
    ensures
        opt_text(r) == marker_in(label@, description@, *metadata),
{
    let in_label = extract_installment_marker(label);
    if in_label.is_some() {
        return in_label;
    }
    let in_description = extract_installment_marker(description);
    if in_description.is_some() {
        return in_description;
    }
    let path = ["raw", "descriptionRaw"];
    assert(paths(path@) =~= raw_description_path());
    match string_path(metadata, &path) {
        Some(t) => {
            let in_raw = extract_installment_marker(t.as_str());
            if in_raw.is_some() {
                return in_raw;
            }
        },
        None => {},
    }
    if metadata_contains_installment_signal(metadata) {
        Some("metadata".to_string())
    } else {
        None
    }
}

/// The installment marker of a card row.
pub open spec fn row_marker(row: CardClosedTransactionRow) -> Option<Seq<char>> {
    marker_in(row.label@, row.description@, row.metadata_json)
}

/// The installment marker of a card row.
pub fn detect_installment_marker(row: &CardClosedTransactionRow) -> (r: Option<String>)
    ensures
        match r {
            Some(m) => row_marker(*row) == Some(m@),
            None => row_marker(*row) is None,
        },
{
    detect_marker(row.label.as_str(), row.description.as_str(), &row.metadata_json)
}

/// Whether a purchase is a subscription: by its category, or by a word of its text.
pub open spec fn subscribes(
    category: Option<String>,
    label: Seq<char>,
    description: Seq<char>,
) -> bool {
    let text = lower_ascii(label + " "@ + description);
    ||| category is Some && has_prefix(category->0@, "assinaturas"@)
    ||| has_text(text, "assinatura"@)
    ||| has_text(text, "subscription"@)
    ||| has_text(text, "mensalidade"@)
    ||| has_text(text, "anuidade"@)
}

/// Whether a purchase is a subscription.
pub fn is_subscription(category: &Option<String>, label: &str, description: &str) -> (r: bool)
    ensures
        r == subscribes(*category, label@, description@),
{
    match category {
        Some(c) => {
            if starts_with(c.as_str(), "assinaturas") {
                return true;
            }
        },
        None => {},
    }
    let text = to_lower_ascii(glue3(label, " ", description).as_str());
    contains(text.as_str(), "assinatura") || contains(text.as_str(), "subscription") || contains(
        text.as_str(),
        "mensalidade",
    ) || contains(text.as_str(), "anuidade")
}

/// Whether a card row is a subscription.
pub open spec fn subscription(row: CardClosedTransactionRow) -> bool {
    subscribes(row.category_id, row.label@, row.description@)
}

/// Whether a card row is a subscription.
pub fn is_subscription_row(row: &CardClosedTransactionRow) -> (r: bool)
    ensures
        r == subscription(*row),
{
    is_subscription(&row.category_id, row.label.as_str(), row.description.as_str())
}

/// Whether a payment status counts toward the open bill. Besides `pending`, the
/// Portuguese and the older names of the status are accepted.
pub open spec fn open_status(status: Seq<char>) -> bool {
    let s = lower_ascii(trimmed(status));
    s == "pending"@ || s == "em_aberto"@ || s == "parcial"@ || s == "confirmed"@ || s
        == "unconfirmed"@
}

/// Whether a payment status counts toward the open bill.
pub fn is_open_card_payment_status(status: &str) -> (r: bool)
    ensures
        r == open_status(status@),
{
    let s = to_lower_ascii(trim(status).as_str());
    crate::text::same(s.as_str(), "pending") || crate::text::same(s.as_str(), "em_aberto")
        || crate::text::same(s.as_str(), "parcial") || crate::text::same(s.as_str(), "confirmed")
        || crate::text::same(s.as_str(), "unconfirmed")
}

pub open spec fn installment_number_path() -> Seq<Seq<char>> {
    seq!["raw"@, "creditCardMetadata"@, "installmentNumber"@]
}

pub open spec fn installment_total_path() -> Seq<Seq<char>> {
    seq!["raw"@, "creditCardMetadata"@, "totalInstallments"@]
}

/// The description with an installment marker taken from the metadata, where it has
/// none of its own. `marked` says whether the description carries a marker, and
/// `raw_marked` whether the raw description of the metadata does.
pub open spec fn enriched(
    description: Seq<char>,
    metadata: Json,
    marked: bool,
    raw_marked: bool,
) -> Seq<char> {
    if marked {
        description
    } else if string_at(metadata, raw_description_path()) is Some && raw_marked {
        string_at(metadata, raw_description_path())->0
    } else {
        match (
            unsigned_at(metadata, installment_number_path()),
            unsigned_at(metadata, installment_total_path()),
        ) {
            (Some(current), Some(total)) => if 0 < current <= total <= 99 {
                trimmed(description) + " "@ + digits(current as nat) + "/"@ + digits(total as nat)
            } else {
                description
            },
            _ => description,
        }
    }
}

/// The description with an installment marker taken from the metadata.
pub fn enrich_description_from_metadata(
    description: &str,
    metadata: &Json,
    marked: bool,
    raw_marked: bool,
) -> (r: String)
    ensures
        r@ == enriched(description@, *metadata, marked, raw_marked),
{
    if marked {
        return description.to_string();
    }
    let raw_path = ["raw", "descriptionRaw"];
    assert(paths(raw_path@) =~= raw_description_path());
    match string_path(metadata, &raw_path) {
        Some(t) => {
            if raw_marked {
                return t.clone();
            }
        },
        None => {},
    }
    let number_path = ["raw", "creditCardMetadata", "installmentNumber"];
    assert(paths(number_path@) =~= installment_number_path());
    let total_path = ["raw", "creditCardMetadata", "totalInstallments"];
    assert(paths(total_path@) =~= installment_total_path());
    match (unsigned_path(metadata, &number_path), unsigned_path(metadata, &total_path)) {
        (Some(current), Some(total)) => {
            if current > 0 && current <= total && total <= 99 {
                let head = glue3(
                    trim(description).as_str(),
                    " ",
                    number(current).as_str(),
                );
                return glue3(head.as_str(), "/", number(total).as_str());
            }
        },
        _ => {},
    }
    description.to_string()
}

} // verus!
