//! The audit trail: an entry for every change, with what it changed.

use crate::amount::{exact_text, law_exact_text_tells_amount};
use crate::date::{iso, iso_text, law_iso_text_tells_date};
use crate::draft::HumanReviewPatch;
use crate::maintenance::{replication_key, Replication, RuleOutcome};
use crate::metadata::{alike, copy_json, law_alike_through, Json, JsonField, JsonNumber};
use crate::records::{opt_text, AccountRecord, TransactionRecord};
use crate::sync::{skip_views, DedupSkip};
use crate::text::{digits, glue, glue3, lemma_digits_value, number};
use crate::transactions::{
    change_key, change_name, context_by_desc_key, ChangeKind, SetContextByDescResult,
};
use vstd::prelude::*;

verus! {

// ---------------------------------------------------------------------------
// Payloads

/// What a JSON value is to say.
pub enum Written {
    /// A text, or null.
    Text(Option<Seq<char>>),
    Flag(bool),
    Count(nat),
    /// The same as another value.
    Value(Json),
    /// An object with these members, in this order.
    Fields(Seq<(Seq<char>, Written)>),
}

/// Whether the value says that.
pub open spec fn says(v: Json, w: Written) -> bool
    decreases v,
{
    match w {
        Written::Text(Some(t)) => v matches Json::Text(x) && x@ == t,
        Written::Text(None) => v is Null,
        Written::Flag(b) => v matches Json::Bool(x) && x == b,
        Written::Count(n) => v matches Json::Number(x) && x.unsigned == Some(n as u64) && x.text@
            == digits(n),
        Written::Value(x) => alike(x, v),
        Written::Fields(s) => match v {
            Json::Object(x) => x@.len() == s.len() && forall|i: int|
                0 <= i < x@.len() ==> (#[trigger] x@[i]).name@ == s[i].0 && says(
                    x@[i].value,
                    s[i].1,
                ),
            _ => false,
        },
    }
}

/// Whether the members of an object say that, one by one.
pub open spec fn all_say(fields: Seq<JsonField>, s: Seq<(Seq<char>, Written)>) -> bool {
    fields.len() == s.len() && forall|i: int|
        0 <= i < fields.len() ==> (#[trigger] fields[i]).name@ == s[i].0 && says(
            fields[i].value,
            s[i].1,
        )
}

/// A payload in the making.
pub struct Payload {
    fields: Vec<JsonField>,
    written: Ghost<Seq<(Seq<char>, Written)>>,
}

impl Payload {
    #[verifier::type_invariant]
    spec fn wf(self) -> bool {
        all_say(self.fields@, self.written@)
    }

    /// What its members say so far.
    pub closed spec fn written(self) -> Seq<(Seq<char>, Written)> {
        self.written@
    }

    pub fn new() -> (r: Payload)
        ensures
            r.written() == Seq::<(Seq<char>, Written)>::empty(),
    {
        Payload { fields: Vec::new(), written: Ghost(Seq::empty()) }
    }

    fn with(self, name: &str, value: Json, Ghost(w): Ghost<Written>) -> (r: Payload)
        requires
            says(value, w),
        ensures
            r.written() == self.written().push((name@, w)),
    {
        proof {
            use_type_invariant(&self);
        }
        let ghost before = self.written@;
        let mut fields = self.fields;
        fields.push(JsonField { name: name.to_string(), value });
        Payload { fields, written: Ghost(before.push((name@, w))) }
    }

    /// One more member, a text.
    pub fn text(self, name: &str, value: &str) -> (r: Payload)
        ensures
            r.written() == self.written().push((name@, Written::Text(Some(value@)))),
    {
        self.with(name, Json::Text(value.to_string()), Ghost(Written::Text(Some(value@))))
    }

    /// One more member, a text or null.
    pub fn maybe(self, name: &str, value: &Option<String>) -> (r: Payload)
        ensures
            r.written() == self.written().push((name@, Written::Text(opt_text(*value)))),
    {
        match value {
            Some(t) => self.text(name, t.as_str()),
            None => self.with(name, Json::Null, Ghost(Written::Text(None))),
        }
    }

    /// One more member, true or false.
    pub fn flag(self, name: &str, value: bool) -> (r: Payload)
        ensures
            r.written() == self.written().push((name@, Written::Flag(value))),
    {
        self.with(name, Json::Bool(value), Ghost(Written::Flag(value)))
    }

    /// One more member, a count.
    pub fn count(self, name: &str, value: usize) -> (r: Payload)
        ensures
            r.written() == self.written().push((name@, Written::Count(value as nat))),
    {
        let n: u64 = value as u64;
        let text = number(n);
        self.with(
            name,
            Json::Number(JsonNumber { unsigned: Some(n), text }),
            Ghost(Written::Count(value as nat)),
        )
    }

    /// One more member, a copy of a value.
    pub fn value(self, name: &str, value: &Json) -> (r: Payload)
        ensures
            r.written() == self.written().push((name@, Written::Value(*value))),
    {
        self.with(name, copy_json(value), Ghost(Written::Value(*value)))
    }

    /// One more member, an object.
    pub fn group(self, name: &str, inner: Payload) -> (r: Payload)
        ensures
            r.written() == self.written().push((name@, Written::Fields(inner.written()))),
    {
        let ghost w = inner.written();
        self.with(name, inner.done(), Ghost(Written::Fields(w)))
    }

    pub fn done(self) -> (r: Json)
        ensures
            says(r, Written::Fields(self.written())),
    {
        proof {
            use_type_invariant(&self);
        }
        Json::Object(self.fields)
    }
}

/// What the payload of a stored account says: its record.
pub open spec fn account_written(a: AccountRecord) -> Written {
    Written::Fields(
        seq![
            ("account_id"@, Written::Text(Some(a.account_id@))),
            ("owner"@, Written::Text(Some(a.owner@))),
            ("account_type"@, Written::Text(Some(a.account_type@))),
            ("bank"@, Written::Text(Some(a.bank@))),
            ("label"@, Written::Text(Some(a.label@))),
            ("pluggy_account_id"@, Written::Text(opt_text(a.pluggy_account_id))),
            ("pluggy_item_id"@, Written::Text(opt_text(a.pluggy_item_id))),
            ("status"@, Written::Text(Some(a.status@))),
            ("actor_id"@, Written::Text(Some(a.actor_id@))),
            ("idempotency_key"@, Written::Text(Some(a.idempotency_key@))),
            ("metadata_json"@, Written::Value(a.metadata_json)),
        ],
    )
}

/// The record of an account as JSON.
pub fn account_json(a: &AccountRecord) -> (r: Json)
    ensures
        says(r, account_written(*a)),
{
    Payload::new().text("account_id", a.account_id.as_str()).text("owner", a.owner.as_str()).text(
        "account_type",
        a.account_type.as_str(),
    ).text("bank", a.bank.as_str()).text("label", a.label.as_str()).maybe(
        "pluggy_account_id",
        &a.pluggy_account_id,
    ).maybe("pluggy_item_id", &a.pluggy_item_id).text("status", a.status.as_str()).text(
        "actor_id",
        a.actor_id.as_str(),
    ).text("idempotency_key", a.idempotency_key.as_str()).value("metadata_json", &a.metadata_json).done()
}

/// What the payload of a stored transaction says: its record.
pub open spec fn transaction_written(t: TransactionRecord) -> Written {
    Written::Fields(
        seq![
            ("transaction_id"@, Written::Text(Some(t.transaction_id@))),
            ("account_id"@, Written::Text(opt_text(t.account_id))),
            ("transaction_date"@, Written::Text(Some(iso_text(t.transaction_date)))),
            ("raw_description"@, Written::Text(Some(t.raw_description@))),
            ("description"@, Written::Text(opt_text(t.description))),
            ("merchant_name"@, Written::Text(opt_text(t.merchant_name))),
            ("purpose"@, Written::Text(opt_text(t.purpose))),
            ("amount"@, Written::Text(Some(exact_text(t.amount)))),
            ("tx_type"@, Written::Text(Some(t.tx_type@))),
            ("category_id"@, Written::Text(opt_text(t.category_id))),
            ("category_source"@, Written::Text(Some(t.category_source@))),
            ("context"@, Written::Text(opt_text(t.context))),
            ("classifier_trace"@, Written::Text(opt_text(t.classifier_trace))),
            ("payment_status"@, Written::Text(Some(t.payment_status@))),
            ("source"@, Written::Text(Some(t.source@))),
            ("actor_id"@, Written::Text(Some(t.actor_id@))),
            ("idempotency_key"@, Written::Text(Some(t.idempotency_key@))),
            ("metadata_json"@, Written::Value(t.metadata_json)),
        ],
    )
}

/// The record of a transaction as JSON.
pub fn transaction_json(t: &TransactionRecord) -> (r: Json)
    ensures
        says(r, transaction_written(*t)),
{
    let date = iso(&t.transaction_date);
    let amount = t.amount.exact();
    Payload::new().text("transaction_id", t.transaction_id.as_str()).maybe(
        "account_id",
        &t.account_id,
    ).text("transaction_date", date.as_str()).text(
        "raw_description",
        t.raw_description.as_str(),
    ).maybe("description", &t.description).maybe("merchant_name", &t.merchant_name).maybe(
        "purpose",
        &t.purpose,
    ).text("amount", amount.as_str()).text("tx_type", t.tx_type.as_str()).maybe(
        "category_id",
        &t.category_id,
    ).text("category_source", t.category_source.as_str()).maybe("context", &t.context).maybe(
        "classifier_trace",
        &t.classifier_trace,
    ).text("payment_status", t.payment_status.as_str()).text("source", t.source.as_str()).text(
        "actor_id",
        t.actor_id.as_str(),
    ).text("idempotency_key", t.idempotency_key.as_str()).value(
        "metadata_json",
        &t.metadata_json,
    ).done()
}

/// The payload of a stored transaction tells its record: no other record has it.
pub proof fn law_payload_tells_transaction(v: Json, a: TransactionRecord, b: TransactionRecord)
    requires
        says(v, transaction_written(a)),
        says(v, transaction_written(b)),
        a.transaction_date.valid(),
        b.transaction_date.valid(),
        a.amount.in_range(),
        b.amount.in_range(),
    ensures
        a.transaction_id@ == b.transaction_id@,
        opt_text(a.account_id) == opt_text(b.account_id),
        a.transaction_date.y() == b.transaction_date.y(),
        a.transaction_date.m() == b.transaction_date.m(),
        a.transaction_date.d() == b.transaction_date.d(),
        a.raw_description@ == b.raw_description@,
        opt_text(a.description) == opt_text(b.description),
        opt_text(a.merchant_name) == opt_text(b.merchant_name),
        opt_text(a.purpose) == opt_text(b.purpose),
        a.amount.sign() == b.amount.sign(),
        a.amount.units() == b.amount.units(),
        a.amount.places() == b.amount.places(),
        a.tx_type@ == b.tx_type@,
        opt_text(a.category_id) == opt_text(b.category_id),
        a.category_source@ == b.category_source@,
        opt_text(a.context) == opt_text(b.context),
        opt_text(a.classifier_trace) == opt_text(b.classifier_trace),
        a.payment_status@ == b.payment_status@,
        a.source@ == b.source@,
        a.actor_id@ == b.actor_id@,
        a.idempotency_key@ == b.idempotency_key@,
        alike(a.metadata_json, b.metadata_json),
{
    let s = transaction_written(a)->Fields_0;
    let t = transaction_written(b)->Fields_0;
    assert forall|i: int| 0 <= i < 17 implies #[trigger] s[i].1 == t[i].1 by {
        law_payload_tells_members(v, s, t, i);
    }
    assert(s[0].1 == t[0].1 && s[1].1 == t[1].1 && s[2].1 == t[2].1 && s[3].1 == t[3].1);
    assert(s[4].1 == t[4].1 && s[5].1 == t[5].1 && s[6].1 == t[6].1 && s[7].1 == t[7].1);
    assert(s[8].1 == t[8].1 && s[9].1 == t[9].1 && s[10].1 == t[10].1 && s[11].1 == t[11].1);
    assert(s[12].1 == t[12].1 && s[13].1 == t[13].1 && s[14].1 == t[14].1 && s[15].1 == t[15].1);
    assert(s[16].1 == t[16].1);
    law_iso_text_tells_date(a.transaction_date, b.transaction_date);
    law_exact_text_tells_amount(a.amount, b.amount);
    let last = v->Object_0@[17].value;
    assert(says(last, s[17].1) && says(last, t[17].1));
    law_alike_through(a.metadata_json, b.metadata_json, last);
}

/// The payload of a stored account tells its record: no other record has it.
pub proof fn law_payload_tells_account(v: Json, a: AccountRecord, b: AccountRecord)
    requires
        says(v, account_written(a)),
        says(v, account_written(b)),
    ensures
        a.account_id@ == b.account_id@,
        a.owner@ == b.owner@,
        a.account_type@ == b.account_type@,
        a.bank@ == b.bank@,
        a.label@ == b.label@,
        opt_text(a.pluggy_account_id) == opt_text(b.pluggy_account_id),
        opt_text(a.pluggy_item_id) == opt_text(b.pluggy_item_id),
        a.status@ == b.status@,
        a.actor_id@ == b.actor_id@,
        a.idempotency_key@ == b.idempotency_key@,
        alike(a.metadata_json, b.metadata_json),
{
    let s = account_written(a)->Fields_0;
    let t = account_written(b)->Fields_0;
    assert forall|i: int| 0 <= i < 10 implies #[trigger] s[i].1 == t[i].1 by {
        law_payload_tells_members(v, s, t, i);
    }
    assert(s[0].1 == t[0].1 && s[1].1 == t[1].1 && s[2].1 == t[2].1 && s[3].1 == t[3].1);
    assert(s[4].1 == t[4].1 && s[5].1 == t[5].1 && s[6].1 == t[6].1 && s[7].1 == t[7].1);
    assert(s[8].1 == t[8].1 && s[9].1 == t[9].1);
    let last = v->Object_0@[10].value;
    assert(says(last, s[10].1) && says(last, t[10].1));
    law_alike_through(a.metadata_json, b.metadata_json, last);
}

/// Whether it is a text, a flag or a count.
pub open spec fn is_plain(w: Written) -> bool {
    w is Text || w is Flag || w is Count
}

/// A payload tells its members: two lists of members that it says have the same names, and
/// where both have a text, a flag or a count, the same one.
pub proof fn law_payload_tells_members(
    v: Json,
    s: Seq<(Seq<char>, Written)>,
    t: Seq<(Seq<char>, Written)>,
    i: int,
)
    requires
        says(v, Written::Fields(s)),
        says(v, Written::Fields(t)),
        0 <= i < s.len(),
    ensures
        s.len() == t.len(),
        s[i].0 == t[i].0,
        is_plain(s[i].1) && is_plain(t[i].1) ==> s[i].1 == t[i].1,
{
    let x = v->Object_0@[i].value;
    assert(says(x, s[i].1) && says(x, t[i].1));
    match (s[i].1, t[i].1) {
        (Written::Text(Some(p)), Written::Text(Some(q))) => {
            assert(p == q);
        },
        (Written::Count(m), Written::Count(n)) => {
            lemma_digits_value(m);
            lemma_digits_value(n);
        },
        _ => {},
    }
}

// ---------------------------------------------------------------------------
// Entries

/// An entry of the audit trail.
pub struct AuditEntry {
    pub entity_type: String,
    pub entity_id: String,
    pub action: String,
    pub idempotency_key: String,
    /// What the change was.
    pub payload: Json,
}

/// What an entry of the audit trail is to say.
pub struct Logged {
    pub entity_type: Seq<char>,
    pub entity_id: Seq<char>,
    pub action: Seq<char>,
    pub key: Seq<char>,
    pub payload: Written,
}

impl AuditEntry {
    /// Whether the entry says that.
    pub open spec fn logs(self, l: Logged) -> bool {
        &&& self.entity_type@ == l.entity_type
        &&& self.entity_id@ == l.entity_id
        &&& self.action@ == l.action
        &&& self.idempotency_key@ == l.key
        &&& says(self.payload, l.payload)
    }
}

/// Whether the entries say that, one by one.
pub open spec fn all_log(entries: Seq<AuditEntry>, l: Seq<Logged>) -> bool {
    entries.len() == l.len() && forall|i: int|
        0 <= i < entries.len() ==> (#[trigger] entries[i]).logs(l[i])
}

fn entry(entity_type: &str, id: &str, action: &str, key: String, payload: Json) -> (r: AuditEntry)
    ensures
        r.entity_type@ == entity_type@,
        r.entity_id@ == id@,
        r.action@ == action@,
        r.idempotency_key == key,
        r.payload == payload,
{
    AuditEntry {
        entity_type: entity_type.to_string(),
        entity_id: id.to_string(),
        action: action.to_string(),
        idempotency_key: key,
        payload,
    }
}

/// A transaction that was left out: which, which one it repeats, and by what.
pub open spec fn skip_logged(d: (Seq<char>, Seq<char>, Seq<char>)) -> Logged {
    Logged {
        entity_type: "transaction"@,
        entity_id: d.0,
        action: "dedup_skipped"@,
        key: "dedup:"@ + d.0,
        payload: Written::Fields(
            seq![
                ("skipped_transaction_id"@, Written::Text(Some(d.0))),
                ("matched_existing_id"@, Written::Text(Some(d.1))),
                ("fingerprint"@, Written::Text(Some(d.2))),
            ],
        ),
    }
}

fn skip_entry(d: &DedupSkip) -> (r: AuditEntry)
    ensures
        r.logs(skip_logged(d@)),
{
    let id = d.skipped_transaction_id.as_str();
    let payload = Payload::new().text("skipped_transaction_id", id).text(
        "matched_existing_id",
        d.matched_existing_id.as_str(),
    ).text("fingerprint", d.fingerprint.as_str()).done();
    entry("transaction", id, "dedup_skipped", glue("dedup:", id), payload)
}

/// A bank account that moved to another identifier of the feed.
pub struct RebindEvent {
    pub internal_account_id: String,
    pub binding_id: String,
    pub from_pluggy_account_id: Option<String>,
    pub to_pluggy_account_id: String,
    pub pluggy_item_id: Option<String>,
}

/// An account that was rebound: from where, to where, and in which connection.
pub open spec fn rebind_logged(b: RebindEvent) -> Logged {
    Logged {
        entity_type: "account"@,
        entity_id: b.internal_account_id@,
        action: "rebind"@,
        key: "rebind:"@ + b.binding_id@ + ":"@ + b.to_pluggy_account_id@,
        payload: Written::Fields(
            seq![
                ("from"@, Written::Text(opt_text(b.from_pluggy_account_id))),
                ("to"@, Written::Text(Some(b.to_pluggy_account_id@))),
                ("pluggy_item_id"@, Written::Text(opt_text(b.pluggy_item_id))),
            ],
        ),
    }
}

fn rebind_entry(b: &RebindEvent) -> (r: AuditEntry)
    ensures
        r.logs(rebind_logged(*b)),
{
    let head = glue3("rebind:", b.binding_id.as_str(), ":");
    let payload = Payload::new().maybe("from", &b.from_pluggy_account_id).text(
        "to",
        b.to_pluggy_account_id.as_str(),
    ).maybe("pluggy_item_id", &b.pluggy_item_id).done();
    entry(
        "account",
        b.internal_account_id.as_str(),
        "rebind",
        glue(head.as_str(), b.to_pluggy_account_id.as_str()),
        payload,
    )
}

/// An account that was stored.
pub open spec fn account_logged(a: AccountRecord, action: Seq<char>) -> Logged {
    Logged {
        entity_type: "account"@,
        entity_id: a.account_id@,
        action,
        key: a.idempotency_key@,
        payload: account_written(a),
    }
}

/// The entry of an account that was stored.
pub fn account_entry(a: &AccountRecord, action: &str) -> (r: AuditEntry)
    ensures
        r.logs(account_logged(*a, action@)),
{
    entry("account", a.account_id.as_str(), action, a.idempotency_key.clone(), account_json(a))
}

/// A transaction that was stored.
pub open spec fn transaction_logged(t: TransactionRecord, action: Seq<char>) -> Logged {
    Logged {
        entity_type: "transaction"@,
        entity_id: t.transaction_id@,
        action,
        key: t.idempotency_key@,
        payload: transaction_written(t),
    }
}

/// The entry of a transaction that was stored.
pub fn transaction_entry(t: &TransactionRecord, action: &str) -> (r: AuditEntry)
    ensures
        r.logs(transaction_logged(*t, action@)),
{
    entry(
        "transaction",
        t.transaction_id.as_str(),
        action,
        t.idempotency_key.clone(),
        transaction_json(t),
    )
}

/// A row that was stored: its identifier, its key and the row itself.
pub struct StoredRow {
    pub entity_id: String,
    pub idempotency_key: String,
    pub row: Json,
}

pub open spec fn stored_logged(entity_type: Seq<char>, action: Seq<char>, k: StoredRow) -> Logged {
    Logged {
        entity_type,
        entity_id: k.entity_id@,
        action,
        key: k.idempotency_key@,
        payload: Written::Value(k.row),
    }
}

pub open spec fn stored_trail(
    entity_type: Seq<char>,
    action: Seq<char>,
    rows: Seq<StoredRow>,
) -> Seq<Logged> {
    rows.map_values(|k: StoredRow| stored_logged(entity_type, action, k))
}

/// The entries for stored rows of one kind.
pub fn stored_audit(entity_type: &str, action: &str, rows: &Vec<StoredRow>) -> (r: Vec<AuditEntry>)
    ensures
        all_log(r@, stored_trail(entity_type@, action@, rows@)),
{
    let mut out: Vec<AuditEntry> = Vec::new();
    let mut i: usize = 0;
    while i < rows.len()
        invariant
            i <= rows.len(),
            out@.len() == i,
            forall|j: int|
                0 <= j < i ==> (#[trigger] out@[j]).logs(
                    stored_logged(entity_type@, action@, rows@[j]),
                ),
        decreases rows.len() - i,
    {
        out.push(
            entry(
                entity_type,
                rows[i].entity_id.as_str(),
                action,
                rows[i].idempotency_key.clone(),
                copy_json(&rows[i].row),
            ),
        );
        i = i + 1;
    }
    out
}

/// A category that was imported: its key names it.
pub open spec fn category_logged(k: StoredRow) -> Logged {
    Logged {
        entity_type: "category"@,
        entity_id: k.entity_id@,
        action: "import_legacy"@,
        key: "category:"@ + k.entity_id@,
        payload: Written::Value(k.row),
    }
}

pub open spec fn category_trail(rows: Seq<StoredRow>) -> Seq<Logged> {
    rows.map_values(|k: StoredRow| category_logged(k))
}

fn category_audit(rows: &Vec<StoredRow>) -> (r: Vec<AuditEntry>)
    ensures
        all_log(r@, category_trail(rows@)),
{
    let mut out: Vec<AuditEntry> = Vec::new();
    let mut i: usize = 0;
    while i < rows.len()
        invariant
            i <= rows.len(),
            out@.len() == i,
            forall|j: int| 0 <= j < i ==> (#[trigger] out@[j]).logs(category_logged(rows@[j])),
        decreases rows.len() - i,
    {
        let id = rows[i].entity_id.as_str();
        let key = glue("category:", id);
        out.push(entry("category", id, "import_legacy", key, copy_json(&rows[i].row)));
        i = i + 1;
    }
    out
}

fn append_audit(
    out: &mut Vec<AuditEntry>,
    more: Vec<AuditEntry>,
    Ghost(a): Ghost<Seq<Logged>>,
    Ghost(b): Ghost<Seq<Logged>>,
)
    requires
        all_log(old(out)@, a),
        all_log(more@, b),
    ensures
        all_log(final(out)@, a + b),
{
    let mut rest = more;
    out.append(&mut rest);
}

// ---------------------------------------------------------------------------
// Syncs and imports

/// The audit trail of a sync: the transactions left out, the accounts rebound, then the
/// accounts and the transactions stored.
pub open spec fn sync_trail(
    skipped: Seq<(Seq<char>, Seq<char>, Seq<char>)>,
    rebinds: Seq<RebindEvent>,
    accounts: Seq<AccountRecord>,
    transactions: Seq<TransactionRecord>,
) -> Seq<Logged> {
    skipped.map_values(|d: (Seq<char>, Seq<char>, Seq<char>)| skip_logged(d)) + rebinds.map_values(
        |b: RebindEvent| rebind_logged(b),
    ) + accounts.map_values(|a: AccountRecord| account_logged(a, "sync_pluggy"@))
        + transactions.map_values(|t: TransactionRecord| transaction_logged(t, "sync_pluggy"@))
}

/// The audit trail of a sync.
pub fn sync_audit(
    skipped: &Vec<DedupSkip>,
    rebinds: &Vec<RebindEvent>,
    accounts: &Vec<AccountRecord>,
    transactions: &Vec<TransactionRecord>,
) -> (r: Vec<AuditEntry>)
    ensures
        all_log(r@, sync_trail(skip_views(skipped@), rebinds@, accounts@, transactions@)),
{
    let ghost want = sync_trail(skip_views(skipped@), rebinds@, accounts@, transactions@);
    let mut out: Vec<AuditEntry> = Vec::new();
    let mut i: usize = 0;
    while i < skipped.len()
        invariant
            i <= skipped.len(),
            want == sync_trail(skip_views(skipped@), rebinds@, accounts@, transactions@),
            all_log(out@, want.take(i as int)),
        decreases skipped.len() - i,
    {
        assert(skip_views(skipped@)[i as int] == skipped@[i as int]@);
        assert(want[i as int] == skip_logged(skipped@[i as int]@));
        out.push(skip_entry(&skipped[i]));
        i = i + 1;
    }
    let mut j: usize = 0;
    while j < rebinds.len()
        invariant
            j <= rebinds.len(),
            want == sync_trail(skip_views(skipped@), rebinds@, accounts@, transactions@),
            all_log(out@, want.take(skipped@.len() + j)),
        decreases rebinds.len() - j,
    {
        assert(want[skipped@.len() + j] == rebind_logged(rebinds@[j as int]));
        out.push(rebind_entry(&rebinds[j]));
        j = j + 1;
    }
    let mut k: usize = 0;
    while k < accounts.len()
        invariant
            k <= accounts.len(),
            want == sync_trail(skip_views(skipped@), rebinds@, accounts@, transactions@),
            all_log(out@, want.take(skipped@.len() + rebinds@.len() + k)),
        decreases accounts.len() - k,
    {
        assert(want[skipped@.len() + rebinds@.len() + k] == account_logged(
            accounts@[k as int],
            "sync_pluggy"@,
        ));
        out.push(account_entry(&accounts[k], "sync_pluggy"));
        k = k + 1;
    }
    let mut l: usize = 0;
    while l < transactions.len()
        invariant
            l <= transactions.len(),
            want == sync_trail(skip_views(skipped@), rebinds@, accounts@, transactions@),
            all_log(out@, want.take(skipped@.len() + rebinds@.len() + accounts@.len() + l)),
        decreases transactions.len() - l,
    {
        assert(want[skipped@.len() + rebinds@.len() + accounts@.len() + l] == transaction_logged(
            transactions@[l as int],
            "sync_pluggy"@,
        ));
        out.push(transaction_entry(&transactions[l], "sync_pluggy"));
        l = l + 1;
    }
    assert(want.take(want.len() as int) =~= want);
    out
}

/// The audit trail of an import: accounts, categories, rules, forecasts and
/// transactions, in that order.
pub fn import_audit(
    accounts: &Vec<StoredRow>,
    categories: &Vec<StoredRow>,
    rules: &Vec<StoredRow>,
    forecasts: &Vec<StoredRow>,
    transactions: &Vec<StoredRow>,
) -> (r: Vec<AuditEntry>)
    ensures
        all_log(
            r@,
            stored_trail("account"@, "import_legacy"@, accounts@) + category_trail(categories@)
                + stored_trail("rule"@, "import_legacy"@, rules@) + stored_trail(
                "forecast"@,
                "import_legacy"@,
                forecasts@,
            ) + stored_trail("transaction"@, "import_legacy"@, transactions@),
        ),
{
    let ghost a = stored_trail("account"@, "import_legacy"@, accounts@);
    let ghost b = category_trail(categories@);
    let ghost c = stored_trail("rule"@, "import_legacy"@, rules@);
    let ghost d = stored_trail("forecast"@, "import_legacy"@, forecasts@);
    let ghost e = stored_trail("transaction"@, "import_legacy"@, transactions@);
    let mut out = stored_audit("account", "import_legacy", accounts);
    append_audit(&mut out, category_audit(categories), Ghost(a), Ghost(b));
    append_audit(&mut out, stored_audit("rule", "import_legacy", rules), Ghost(a + b), Ghost(c));
    append_audit(
        &mut out,
        stored_audit("forecast", "import_legacy", forecasts),
        Ghost(a + b + c),
        Ghost(d),
    );
    append_audit(
        &mut out,
        stored_audit("transaction", "import_legacy", transactions),
        Ghost(a + b + c + d),
        Ghost(e),
    );
    out
}

// ---------------------------------------------------------------------------
// Edits

/// An edit of a transaction, by its identifier, its kind, what makes its key unique, and
/// what it says.
pub open spec fn edit_logged(
    id: Seq<char>,
    action: Seq<char>,
    key: Seq<char>,
    fields: Seq<(Seq<char>, Written)>,
) -> Logged {
    Logged {
        entity_type: "transaction"@,
        entity_id: id,
        action,
        key,
        payload: Written::Fields(fields),
    }
}

/// The key of a change.
pub open spec fn key_text(kind: ChangeKind, id: Seq<char>, suffix: Seq<char>) -> Seq<char> {
    change_name(kind) + ":"@ + id + ":"@ + suffix
}

/// The entry of a category given by hand: the category and the context.
pub fn categorize_entry(
    id: &str,
    suffix: &str,
    category_id: &str,
    context: &Option<String>,
) -> (r: AuditEntry)
    ensures
        r.logs(
            edit_logged(
                id@,
                "categorize"@,
                key_text(ChangeKind::Annotate, id@, suffix@),
                seq![
                    ("category_id"@, Written::Text(Some(category_id@))),
                    ("context"@, Written::Text(opt_text(*context))),
                ],
            ),
        ),
{
    let payload = Payload::new().text("category_id", category_id).maybe("context", context).done();
    entry("transaction", id, "categorize", change_key(ChangeKind::Annotate, id, suffix), payload)
}

/// The entry of a changed anatomy: the four fields, null where one stays.
pub fn anatomy_entry(
    id: &str,
    suffix: &str,
    description: &Option<String>,
    merchant_name: &Option<String>,
    purpose: &Option<String>,
    classifier_trace: &Option<String>,
) -> (r: AuditEntry)
    ensures
        r.logs(
            edit_logged(
                id@,
                "set_anatomy"@,
                key_text(ChangeKind::Anatomy, id@, suffix@),
                seq![
                    ("description"@, Written::Text(opt_text(*description))),
                    ("merchant_name"@, Written::Text(opt_text(*merchant_name))),
                    ("purpose"@, Written::Text(opt_text(*purpose))),
                    ("classifier_trace"@, Written::Text(opt_text(*classifier_trace))),
                ],
            ),
        ),
{
    let payload = Payload::new().maybe("description", description).maybe(
        "merchant_name",
        merchant_name,
    ).maybe("purpose", purpose).maybe("classifier_trace", classifier_trace).done();
    entry("transaction", id, "set_anatomy", change_key(ChangeKind::Anatomy, id, suffix), payload)
}

/// The entry of a context given by hand.
pub fn context_entry(id: &str, suffix: &str, context: &str) -> (r: AuditEntry)
    ensures
        r.logs(
            edit_logged(
                id@,
                "set_context"@,
                key_text(ChangeKind::Context, id@, suffix@),
                seq![("context"@, Written::Text(Some(context@)))],
            ),
        ),
{
    let payload = Payload::new().text("context", context).done();
    entry("transaction", id, "set_context", change_key(ChangeKind::Context, id, suffix), payload)
}

/// The entry of a context given to all that a query finds: the query, the context and the
/// one before it.
pub fn context_by_desc_entry(query: &str, change: &SetContextByDescResult, suffix: &str) -> (r:
    AuditEntry)
    ensures
        r.logs(
            edit_logged(
                change.transaction_id@,
                "set_context_by_desc"@,
                "context-by-desc:"@ + change.transaction_id@ + ":"@ + change.new_context@ + ":"@
                    + suffix@,
                seq![
                    ("query"@, Written::Text(Some(query@))),
                    ("context"@, Written::Text(Some(change.new_context@))),
                    ("old_context"@, Written::Text(opt_text(change.old_context))),
                ],
            ),
        ),
{
    let id = change.transaction_id.as_str();
    let payload = Payload::new().text("query", query).text(
        "context",
        change.new_context.as_str(),
    ).maybe("old_context", &change.old_context).done();
    entry(
        "transaction",
        id,
        "set_context_by_desc",
        context_by_desc_key(id, change.new_context.as_str(), suffix),
        payload,
    )
}

/// A transaction that the rules classified anew: its category before and after, whose
/// word that is, and the context.
pub open spec fn reclassify_logged(item: TransactionRecord, outcome: RuleOutcome) -> Logged {
    edit_logged(
        item.transaction_id@,
        "reclassify"@,
        "reclassify:"@ + item.transaction_id@,
        seq![
            ("old_category_id"@, Written::Text(opt_text(item.category_id))),
            ("new_category_id"@, Written::Text(opt_text(outcome.category_id))),
            ("source"@, Written::Text(Some(outcome.category_source@))),
            ("new_context"@, Written::Text(opt_text(outcome.context))),
        ],
    )
}

pub fn reclassify_entry(item: &TransactionRecord, outcome: &RuleOutcome) -> (r: AuditEntry)
    ensures
        r.logs(reclassify_logged(*item, *outcome)),
{
    let id = item.transaction_id.as_str();
    let payload = Payload::new().maybe("old_category_id", &item.category_id).maybe(
        "new_category_id",
        &outcome.category_id,
    ).text("source", outcome.category_source.as_str()).maybe(
        "new_context",
        &outcome.context,
    ).done();
    entry("transaction", id, "reclassify", glue("reclassify:", id), payload)
}

/// The entry of an anatomy taken over from a similar transaction: which one, and which of
/// the two fields.
pub fn replication_entry(tx: &TransactionRecord, suffix: &str, rep: &Replication) -> (r: AuditEntry)
    ensures
        r.logs(
            edit_logged(
                tx.transaction_id@,
                "anatomy_replicated"@,
                "anatomy_rep:"@ + tx.transaction_id@ + ":"@ + suffix@,
                seq![
                    ("donor_id"@, Written::Text(Some(rep.donor_id@))),
                    ("description_replicated"@, Written::Flag(rep.description is Some)),
                    ("purpose_replicated"@, Written::Flag(rep.purpose is Some)),
                ],
            ),
        ),
{
    let payload = Payload::new().text("donor_id", rep.donor_id.as_str()).flag(
        "description_replicated",
        rep.description.is_some(),
    ).flag("purpose_replicated", rep.purpose.is_some()).done();
    entry(
        "transaction",
        tx.transaction_id.as_str(),
        "anatomy_replicated",
        replication_key(tx, suffix),
        payload,
    )
}

pub open spec fn reviewed_written(
    description: Option<String>,
    merchant_name: Option<String>,
    purpose: Option<String>,
    category_id: Option<String>,
) -> Written {
    Written::Fields(
        seq![
            ("description"@, Written::Text(opt_text(description))),
            ("merchant_name"@, Written::Text(opt_text(merchant_name))),
            ("purpose"@, Written::Text(opt_text(purpose))),
            ("category_id"@, Written::Text(opt_text(category_id))),
        ],
    )
}

/// A transaction that somebody reviewed: the four fields before, and what the review gives
/// them, null where one stays.
pub open spec fn review_logged(
    existing: TransactionRecord,
    patch: HumanReviewPatch,
    id: Seq<char>,
    suffix: Seq<char>,
) -> Logged {
    edit_logged(
        id,
        "review_human"@,
        key_text(ChangeKind::Review, id, suffix),
        seq![
            (
                "old"@,
                reviewed_written(
                    existing.description,
                    existing.merchant_name,
                    existing.purpose,
                    existing.category_id,
                ),
            ),
            (
                "new"@,
                reviewed_written(
                    patch.description,
                    patch.merchant_name,
                    patch.purpose,
                    patch.category_id,
                ),
            ),
        ],
    )
}

pub fn review_entry(
    existing: &TransactionRecord,
    patch: &HumanReviewPatch,
    id: &str,
    suffix: &str,
) -> (r: AuditEntry)
    ensures
        r.logs(review_logged(*existing, *patch, id@, suffix@)),
{
    let before = Payload::new().maybe("description", &existing.description).maybe(
        "merchant_name",
        &existing.merchant_name,
    ).maybe("purpose", &existing.purpose).maybe("category_id", &existing.category_id);
    let after = Payload::new().maybe("description", &patch.description).maybe(
        "merchant_name",
        &patch.merchant_name,
    ).maybe("purpose", &patch.purpose).maybe("category_id", &patch.category_id);
    proof {
        assert(before.written() =~= reviewed_written(
            existing.description,
            existing.merchant_name,
            existing.purpose,
            existing.category_id,
        )->Fields_0);
        assert(after.written() =~= reviewed_written(
            patch.description,
            patch.merchant_name,
            patch.purpose,
            patch.category_id,
        )->Fields_0);
    }
    let payload = Payload::new().group("old", before).group("new", after).done();
    entry("transaction", id, "review_human", change_key(ChangeKind::Review, id, suffix), payload)
}

/// The entry of a split: whose, the hash of what it was made of, and how many lines and
/// receipt items it has.
pub fn split_entry(
    split_id: &str,
    key: &str,
    parent_transaction_id: &str,
    payload_hash: &str,
    lines: usize,
    items: usize,
) -> (r: AuditEntry)
    ensures
        r.logs(
            (Logged {
                entity_type: "transaction_split"@,
                entity_id: split_id@,
                action: "apply"@,
                key: key@,
                payload: Written::Fields(
                    seq![
                        ("parent_transaction_id"@, Written::Text(Some(parent_transaction_id@))),
                        ("payload_hash"@, Written::Text(Some(payload_hash@))),
                        ("line_count"@, Written::Count(lines as nat)),
                        ("receipt_item_count"@, Written::Count(items as nat)),
                    ],
                ),
            }),
        ),
{
    let payload = Payload::new().text("parent_transaction_id", parent_transaction_id).text(
        "payload_hash",
        payload_hash,
    ).count("line_count", lines).count("receipt_item_count", items).done();
    entry("transaction_split", split_id, "apply", key.to_string(), payload)
}

/// The entry of a split that was cleared: whose, and why.
pub fn split_clear_entry(id: &str, suffix: &str, reason: &Option<String>) -> (r: AuditEntry)
    ensures
        r.logs(
            (Logged {
                entity_type: "transaction_split"@,
                entity_id: id@,
                action: "clear"@,
                key: key_text(ChangeKind::SplitClear, id@, suffix@),
                payload: Written::Fields(
                    seq![
                        ("parent_transaction_id"@, Written::Text(Some(id@))),
                        ("reason"@, Written::Text(opt_text(*reason))),
                    ],
                ),
            }),
        ),
{
    let payload = Payload::new().text("parent_transaction_id", id).maybe("reason", reason).done();
    entry("transaction_split", id, "clear", change_key(ChangeKind::SplitClear, id, suffix), payload)
}

/// The entry of a review tells what it gave the fields, and what they held before: no
/// other review has it.
pub proof fn law_review_tells_fields(
    e: AuditEntry,
    existing: TransactionRecord,
    patch: HumanReviewPatch,
    other_existing: TransactionRecord,
    other: HumanReviewPatch,
    id: Seq<char>,
    suffix: Seq<char>,
)
    requires
        e.logs(review_logged(existing, patch, id, suffix)),
        e.logs(review_logged(other_existing, other, id, suffix)),
    ensures
        opt_text(patch.description) == opt_text(other.description),
        opt_text(patch.merchant_name) == opt_text(other.merchant_name),
        opt_text(patch.purpose) == opt_text(other.purpose),
        opt_text(patch.category_id) == opt_text(other.category_id),
        opt_text(existing.description) == opt_text(other_existing.description),
        opt_text(existing.merchant_name) == opt_text(other_existing.merchant_name),
        opt_text(existing.purpose) == opt_text(other_existing.purpose),
        opt_text(existing.category_id) == opt_text(other_existing.category_id),
{
    let s = review_logged(existing, patch, id, suffix).payload->Fields_0;
    let t = review_logged(other_existing, other, id, suffix).payload->Fields_0;
    let members = e.payload->Object_0@;
    assert forall|i: int, j: int| 0 <= i < 2 && 0 <= j < 4 implies #[trigger] s[i].1->Fields_0[j].1
        == #[trigger] t[i].1->Fields_0[j].1 by {
        assert(says(members[i].value, s[i].1) && says(members[i].value, t[i].1));
        law_payload_tells_members(members[i].value, s[i].1->Fields_0, t[i].1->Fields_0, j);
    }
    let (a, b) = (s[0].1->Fields_0, t[0].1->Fields_0);
    let (c, d) = (s[1].1->Fields_0, t[1].1->Fields_0);
    assert(a[0].1 == b[0].1 && a[1].1 == b[1].1 && a[2].1 == b[2].1 && a[3].1 == b[3].1);
    assert(c[0].1 == d[0].1 && c[1].1 == d[1].1 && c[2].1 == d[2].1 && c[3].1 == d[3].1);
}

} // verus!
