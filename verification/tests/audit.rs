use phai::amount::Amount;
use phai::audit::{
    account_entry, anatomy_entry, categorize_entry, context_by_desc_entry, context_entry,
    import_audit, reclassify_entry, replication_entry, review_entry, split_clear_entry,
    split_entry, stored_audit, sync_audit, transaction_entry, AuditEntry, RebindEvent, StoredRow,
};
use phai::date::Date;
use phai::draft::HumanReviewPatch;
use phai::maintenance::{Replication, RuleOutcome};
use phai::metadata::{Json, JsonField, JsonNumber};
use phai::records::{AccountRecord, TransactionRecord};
use phai::sync::DedupSkip;
use phai::transactions::context_changes;

fn some(s: &str) -> Option<String> {
    Some(s.to_string())
}

fn shown(v: &Json) -> String {
    match v {
        Json::Null => "null".to_string(),
        Json::Bool(b) => format!("{b}"),
        Json::Number(n) => n.text.clone(),
        Json::Text(t) => format!("'{t}'"),
        Json::List(items) => {
            let all: Vec<String> = items.iter().map(shown).collect();
            format!("[{}]", all.join(", "))
        }
        Json::Object(fields) => {
            let all: Vec<String> =
                fields.iter().map(|f| format!("{}: {}", f.name, shown(&f.value))).collect();
            format!("{{{}}}", all.join(", "))
        }
    }
}

fn told(e: &AuditEntry) -> String {
    format!(
        "{} {} {} {} {}",
        e.entity_type,
        e.entity_id,
        e.action,
        e.idempotency_key,
        shown(&e.payload)
    )
}

fn tx(id: &str) -> TransactionRecord {
    TransactionRecord {
        transaction_id: id.to_string(),
        account_id: some("conta"),
        transaction_date: Date::from_ymd_opt(2026, 5, 3).unwrap(),
        raw_description: "PADARIA".to_string(),
        description: None,
        merchant_name: some("Pão"),
        purpose: None,
        amount: Amount::new(-12345, 3),
        tx_type: "debit".to_string(),
        category_id: some("alimentacao"),
        category_source: "rule".to_string(),
        context: some("antes"),
        classifier_trace: None,
        payment_status: "posted".to_string(),
        source: "pluggy".to_string(),
        actor_id: "eu".to_string(),
        idempotency_key: format!("k-{id}"),
        metadata_json: Json::Object(vec![JsonField {
            name: "list".to_string(),
            value: Json::List(vec![
                Json::Bool(true),
                Json::Number(JsonNumber { unsigned: Some(7), text: "7".to_string() }),
            ]),
        }]),
    }
}

fn account(id: &str) -> AccountRecord {
    AccountRecord {
        account_id: id.to_string(),
        owner: "aline".to_string(),
        account_type: "checking".to_string(),
        bank: "banco".to_string(),
        label: "Conta".to_string(),
        pluggy_account_id: some("p"),
        pluggy_item_id: None,
        status: "active".to_string(),
        actor_id: "eu".to_string(),
        idempotency_key: format!("account:{id}"),
        metadata_json: Json::Null,
    }
}

const TX_PAYLOAD: &str = "{transaction_id: 't', account_id: 'conta', transaction_date: \
'2026-05-03', raw_description: 'PADARIA', description: null, merchant_name: 'Pão', purpose: null, \
amount: '-12.345', tx_type: 'debit', category_id: 'alimentacao', category_source: 'rule', context: \
'antes', classifier_trace: null, payment_status: 'posted', source: 'pluggy', actor_id: 'eu', \
idempotency_key: 'k-t', metadata_json: {list: [true, 7]}}";

const ACCOUNT_PAYLOAD: &str = "{account_id: 'a', owner: 'aline', account_type: 'checking', bank: \
'banco', label: 'Conta', pluggy_account_id: 'p', pluggy_item_id: null, status: 'active', \
actor_id: 'eu', idempotency_key: 'account:a', metadata_json: null}";

#[test]
fn a_sync_tells_what_it_changed() {
    let skipped = vec![DedupSkip {
        skipped_transaction_id: "novo".to_string(),
        matched_existing_id: "velho".to_string(),
        fingerprint: "conta|1".to_string(),
    }];
    let rebinds = vec![RebindEvent {
        internal_account_id: "a".to_string(),
        binding_id: "b".to_string(),
        from_pluggy_account_id: some("o"),
        to_pluggy_account_id: "p".to_string(),
        pluggy_item_id: some("i"),
    }];
    let trail = sync_audit(&skipped, &rebinds, &vec![account("a")], &vec![tx("t")]);
    let lines: Vec<String> = trail.iter().map(told).collect();
    assert_eq!(
        lines,
        vec![
            "transaction novo dedup_skipped dedup:novo {skipped_transaction_id: 'novo', \
             matched_existing_id: 'velho', fingerprint: 'conta|1'}"
                .to_string(),
            "account a rebind rebind:b:p {from: 'o', to: 'p', pluggy_item_id: 'i'}".to_string(),
            format!("account a sync_pluggy account:a {ACCOUNT_PAYLOAD}"),
            format!("transaction t sync_pluggy k-t {TX_PAYLOAD}"),
        ]
    );
}

#[test]
fn an_import_tells_its_rows() {
    let rows = |id: &str| {
        vec![StoredRow {
            entity_id: id.to_string(),
            idempotency_key: format!("k-{id}"),
            row: Json::Text(id.to_string()),
        }]
    };
    let trail = import_audit(&rows("a"), &rows("c"), &rows("r"), &rows("f"), &rows("t"));
    let lines: Vec<String> = trail.iter().map(told).collect();
    assert_eq!(
        lines,
        vec![
            "account a import_legacy k-a 'a'",
            "category c import_legacy category:c 'c'",
            "rule r import_legacy k-r 'r'",
            "forecast f import_legacy k-f 'f'",
            "transaction t import_legacy k-t 't'",
        ]
    );
    assert_eq!(told(&stored_audit("rule", "upsert", &rows("r"))[0]), "rule r upsert k-r 'r'");
}

#[test]
fn records_stand_in_their_entries() {
    assert_eq!(
        told(&transaction_entry(&tx("t"), "upsert_manual")),
        format!("transaction t upsert_manual k-t {TX_PAYLOAD}")
    );
    assert_eq!(
        told(&account_entry(&account("a"), "upsert")),
        format!("account a upsert account:a {ACCOUNT_PAYLOAD}")
    );
}

#[test]
fn edits_tell_the_new_values() {
    assert_eq!(
        told(&categorize_entry("t", "u", "lazer:cinema", &None)),
        "transaction t categorize annotate:t:u {category_id: 'lazer:cinema', context: null}"
    );
    assert_eq!(
        told(&anatomy_entry("t", "u", &some("d"), &None, &some("p"), &None)),
        "transaction t set_anatomy anatomy:t:u {description: 'd', merchant_name: null, \
         purpose: 'p', classifier_trace: null}"
    );
    assert_eq!(
        told(&context_entry("t", "u", "viagem")),
        "transaction t set_context context:t:u {context: 'viagem'}"
    );
    let changes = context_changes(&vec![tx("t")], "viagem");
    assert_eq!(
        told(&context_by_desc_entry("pad", &changes[0], "u")),
        "transaction t set_context_by_desc context-by-desc:t:viagem:u {query: 'pad', \
         context: 'viagem', old_context: 'antes'}"
    );
}

#[test]
fn decisions_tell_what_was_before() {
    let outcome = RuleOutcome {
        category_id: some("lazer"),
        category_source: "rule".to_string(),
        context: None,
    };
    assert_eq!(
        told(&reclassify_entry(&tx("t"), &outcome)),
        "transaction t reclassify reclassify:t {old_category_id: 'alimentacao', \
         new_category_id: 'lazer', source: 'rule', new_context: null}"
    );
    let rep = Replication { donor_id: "d".to_string(), description: None, purpose: some("x") };
    assert_eq!(
        told(&replication_entry(&tx("t"), "u", &rep)),
        "transaction t anatomy_replicated anatomy_rep:t:u {donor_id: 'd', \
         description_replicated: false, purpose_replicated: true}"
    );
    let patch = HumanReviewPatch {
        description: some("nova"),
        merchant_name: None,
        purpose: None,
        category_id: some("lazer"),
    };
    assert_eq!(
        told(&review_entry(&tx("t"), &patch, "t", "u")),
        "transaction t review_human review-human:t:u {old: {description: null, \
         merchant_name: 'Pão', purpose: null, category_id: 'alimentacao'}, new: {description: \
         'nova', merchant_name: null, purpose: null, category_id: 'lazer'}}"
    );
}

#[test]
fn splits_tell_their_parent() {
    assert_eq!(
        told(&split_entry("s", "k", "t", "h", 2, 13)),
        "transaction_split s apply k {parent_transaction_id: 't', payload_hash: 'h', \
         line_count: 2, receipt_item_count: 13}"
    );
    assert_eq!(
        told(&split_clear_entry("t", "u", &some("erro"))),
        "transaction_split t clear split-clear:t:u {parent_transaction_id: 't', reason: 'erro'}"
    );
}

#[test]
fn amounts_are_told_exactly() {
    let exact = |n: i64, places: u32| Amount::new(n, places).exact();
    assert_eq!(exact(-12345, 3), "-12.345");
    assert_eq!(exact(5, 2), "0.05");
    assert_eq!(exact(1500, 2), "15.00");
    assert_eq!(exact(7, 0), "7");
    assert_eq!(exact(i64::MIN + 1, 28), "-0.0000000009223372036854775807");
}
