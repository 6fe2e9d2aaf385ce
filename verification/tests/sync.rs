use phai::amount::Amount;
use phai::audit::RebindEvent;
use phai::card_query::{choose_bills, window_months, window_opening};
use phai::cards::{
    bill_candidates, candidate_total, card_bill_status, cards_report, compute_bill_id,
    infer_closing_day_from_pluggy, parse_synthetic_close_date, BillState, CardsMode,
};
use phai::date::{iso, Date};
use phai::health::{count_problems, data_health, health_checks, is_flat_category, PulseItem};
use phai::insights::{card_closed_insights, insight_months, CardSummaryRow};
use phai::metadata::{
    closing_day_from_due_day, extract_bill_id, get, merge_billing_metadata,
    metadata_contains_installment_signal, metadata_text, parse_closing_day, parse_u32, Json,
    JsonField, JsonNumber,
};
use phai::money::decimal_text;
use phai::ofx::{
    find_best_ofx_match, infer_account_id_from_fit_ids, ofx_consistency, parse_ofx_amount,
    parse_ofx_date, parse_ofx_transactions, prepare_ofx,
};
use phai::ofx_text::tell_consistency;
use phai::records::{
    enrich_description_from_metadata, AccountRecord, CardClosedTransactionRow, TransactionRecord,
};
use phai::summary::{
    build_sync_pending_summary_fallback, compact_error_message, day_of_week_text, enrich_step,
    find_new_rows, keep_billing, load_sync_pending_summary, may_keep_billing, snapshot_of,
    summarize_new, sync_output, total_checking_balance, EnrichStep, PendingReply, SyncOutput,
};
use phai::sync::{
    batch_bounds, build_category_records_from_transactions, date_window, dedup_fingerprint,
    dedup_pluggy_duplicates, resolve_sync_from,
};
use phai::sync_plan::{plan_sync, SyncFeed};

fn day(y: i32, m: u32, d: u32) -> Date {
    Date::from_ymd_opt(y, m, d).unwrap()
}

fn today() -> Date {
    day(2026, 4, 1)
}

fn list(items: &[&str]) -> Vec<String> {
    items.iter().map(|s| s.to_string()).collect()
}

fn object(fields: Vec<(&str, Json)>) -> Json {
    Json::Object(
        fields
            .into_iter()
            .map(|(name, value)| JsonField {
                name: name.to_string(),
                value,
            })
            .collect(),
    )
}

fn text(s: &str) -> Json {
    Json::Text(s.to_string())
}

fn number(n: u64) -> Json {
    Json::Number(JsonNumber {
        unsigned: Some(n),
        text: n.to_string(),
    })
}

fn tx(id: &str, date: Date, cents: i64, description: &str) -> TransactionRecord {
    TransactionRecord {
        transaction_id: id.to_string(),
        account_id: Some("conta".to_string()),
        transaction_date: date,
        raw_description: description.to_string(),
        description: None,
        merchant_name: None,
        purpose: None,
        amount: Amount::new(cents, 2),
        tx_type: "debit".to_string(),
        category_id: None,
        category_source: "rule".to_string(),
        context: None,
        classifier_trace: None,
        payment_status: "posted".to_string(),
        source: "pluggy".to_string(),
        actor_id: "test".to_string(),
        idempotency_key: id.to_string(),
        metadata_json: Json::Object(Vec::new()),
    }
}

fn account(id: &str, kind: &str, metadata: Json) -> AccountRecord {
    AccountRecord {
        account_id: id.to_string(),
        owner: "aline".to_string(),
        account_type: kind.to_string(),
        bank: "banco".to_string(),
        label: id.to_string(),
        pluggy_account_id: None,
        pluggy_item_id: None,
        status: "active".to_string(),
        actor_id: "eu".to_string(),
        idempotency_key: String::new(),
        metadata_json: metadata,
    }
}

fn bought(id: &str, date: Date, cents: i64) -> CardClosedTransactionRow {
    CardClosedTransactionRow {
        month_ref: "2026-05".to_string(),
        account_id: "cartao".to_string(),
        transaction_id: id.to_string(),
        transaction_date: date,
        label: "cartao".to_string(),
        description: "LOJA".to_string(),
        amount: Amount::new(cents, 2),
        category_id: Some("lazer".to_string()),
        payment_status: "posted".to_string(),
        metadata_json: Json::Object(Vec::new()),
    }
}

#[test]
fn resolve_sync_from_prefers_explicit_date() {
    let latest = Date::from_ymd_opt(2026, 3, 20);
    assert_eq!(
        resolve_sync_from(Some("2026-03-01"), Some("2025-12-01"), latest, &today()).unwrap(),
        "2026-03-01"
    );
}

#[test]
fn resolve_sync_from_uses_latest_seen_with_lookback() {
    let latest = Date::from_ymd_opt(2026, 3, 27);
    assert_eq!(
        resolve_sync_from(None, Some("2025-12-01"), latest, &today()).unwrap(),
        "2026-03-13"
    );
}

#[test]
fn resolve_sync_from_never_goes_before_configured_start() {
    let latest = Date::from_ymd_opt(2025, 12, 10);
    assert_eq!(
        resolve_sync_from(None, Some("2025-12-01"), latest, &today()).unwrap(),
        "2025-12-01"
    );
}

#[test]
fn resolve_sync_from_without_anything_looks_back_from_today() {
    assert_eq!(
        resolve_sync_from(None, None, None, &today()).unwrap(),
        "2026-03-18"
    );
    assert_eq!(
        resolve_sync_from(None, Some("ontem"), None, &today()),
        Err("Falha ao parsear pluggy_start_date ontem".to_string())
    );
}

#[test]
fn parse_closing_day_derives_from_due_date_metadata() {
    assert_eq!(
        parse_closing_day(&object(vec![(
            "raw",
            object(vec![(
                "creditData",
                object(vec![("balanceDueDate", text("2026-05-18"))])
            )])
        )])),
        Some(11)
    );
    assert_eq!(
        parse_closing_day(&object(vec![("billing_due_day", number(5))])),
        Some(26)
    );
    assert_eq!(
        parse_closing_day(&object(vec![
            ("billing_closing_day", text("10")),
            ("billing_due_day", number(18))
        ])),
        Some(10)
    );
}

#[test]
fn closing_days_stay_in_range() {
    assert_eq!(closing_day_from_due_day(18), Some(11));
    assert_eq!(closing_day_from_due_day(7), Some(28));
    assert_eq!(closing_day_from_due_day(0), None);
    assert_eq!(
        parse_closing_day(&object(vec![("billing_closing_day", number(31))])),
        None
    );
    assert_eq!(parse_u32("12"), Some(12));
    assert_eq!(parse_u32("-1"), None);
}

#[test]
fn metadata_is_read_by_path() {
    let v = object(vec![("a", object(vec![("b", text(" x "))]))]);
    assert_eq!(metadata_text(&v, &["a", "b"]), Some(" x ".to_string()));
    assert_eq!(metadata_text(&v, &["a", "c"]), None);
    assert!(get(&v, "a").is_some());
    assert!(!metadata_contains_installment_signal(&v));
    assert_eq!(extract_bill_id(&v), None);
}

#[test]
fn descriptions_gain_their_installment() {
    let part = |current: u64, total: u64| {
        object(vec![(
            "raw",
            object(vec![
                ("descriptionRaw", text("LOJA CRUA")),
                (
                    "creditCardMetadata",
                    object(vec![
                        ("installmentNumber", number(current)),
                        ("totalInstallments", number(total)),
                    ]),
                ),
            ]),
        )])
    };
    let told = |m: &Json, marked: bool, raw: bool| {
        enrich_description_from_metadata(" LOJA ", m, marked, raw)
    };
    assert_eq!(told(&part(2, 10), true, true), " LOJA ");
    assert_eq!(told(&part(2, 10), false, true), "LOJA CRUA");
    assert_eq!(told(&part(2, 10), false, false), "LOJA 2/10");
    assert_eq!(told(&part(11, 10), false, false), " LOJA ");
    assert_eq!(told(&part(1, 100), false, false), " LOJA ");
}

#[test]
fn billing_days_survive_a_sync() {
    let mut fresh = object(vec![("x", number(1))]);
    merge_billing_metadata(&mut fresh, &object(vec![("billing_due_day", number(5))]));
    assert_eq!(parse_closing_day(&fresh), Some(26));
    let existing = vec![account(
        "cartao",
        "credit",
        object(vec![("billing_closing_day", number(9))]),
    )];
    let mut a = account("cartao", "credit", Json::Null);
    keep_billing(&mut a, &existing);
    assert_eq!(parse_closing_day(&a.metadata_json), Some(9));
}

#[test]
fn repeated_events_are_skipped() {
    let existing = vec![tx("velho", day(2026, 2, 6), 790_562, "Pagamento  recebido")];
    let incoming = vec![
        tx("novo", day(2026, 2, 6), 790_562, "PAGAMENTO RECEBIDO"),
        tx("outro", day(2026, 2, 7), 790_562, "Pagamento recebido"),
    ];
    let (kept, skipped) = dedup_pluggy_duplicates(&existing, incoming);
    assert_eq!(kept.len(), 1);
    assert_eq!(kept[0].transaction_id, "outro");
    assert_eq!(skipped.len(), 1);
    assert_eq!(skipped[0].skipped_transaction_id, "novo");
    assert_eq!(skipped[0].matched_existing_id, "velho");
    assert_eq!(
        skipped[0].fingerprint,
        "2026-02-06|conta|7905.62|pagamento recebido"
    );
    assert_eq!(dedup_fingerprint(&existing[0]), skipped[0].fingerprint);
    let mut by_hand = tx("mao", day(2026, 2, 6), 790_562, "Pagamento recebido");
    by_hand.source = "manual".to_string();
    let (kept, _) = dedup_pluggy_duplicates(&existing, vec![by_hand]);
    assert_eq!(kept.len(), 1);
}

#[test]
fn a_second_sync_changes_nothing() {
    let batch = || {
        vec![
            tx("novo", day(2026, 2, 6), 100, "PAGAMENTO"),
            tx("dobro", day(2026, 2, 6), 100, "pagamento"),
            tx("outro", day(2026, 2, 7), 100, "pagamento"),
        ]
    };
    let ids = |rows: &[TransactionRecord]| -> Vec<String> {
        rows.iter().map(|r| r.transaction_id.clone()).collect()
    };
    let (kept, skipped) = dedup_pluggy_duplicates(&Vec::new(), batch());
    assert_eq!(ids(&kept), list(&["novo", "outro"]));
    let (again, skipped_again) = dedup_pluggy_duplicates(&kept, batch());
    assert_eq!(ids(&again), ids(&kept));
    assert_eq!(skipped_again.len(), skipped.len());
}

#[test]
fn rows_go_in_batches() {
    assert_eq!(batch_bounds(0, 50), Vec::new());
    assert_eq!(batch_bounds(50, 50), vec![(0, 50)]);
    assert_eq!(batch_bounds(120, 50), vec![(0, 50), (50, 100), (100, 120)]);
}

#[test]
fn windows_span_the_rows() {
    assert!(date_window(&Vec::new()).is_none());
    let rows = vec![
        tx("a", day(2026, 2, 6), 1, "x"),
        tx("b", day(2026, 1, 6), 1, "x"),
    ];
    let (from, to) = date_window(&rows).unwrap();
    assert_eq!(iso(&from), "2026-01-06");
    assert_eq!(iso(&to), "2026-02-06");
}

#[test]
fn categories_come_with_their_parents() {
    let mut a = tx("a", day(2026, 2, 6), 1, "x");
    a.category_id = Some("casa-nova:luz-solar".to_string());
    let records = build_category_records_from_transactions("eu", &vec![a]);
    assert_eq!(records.len(), 2);
    assert_eq!(records[0].category_id, "casa-nova");
    assert_eq!(records[0].name, "casa nova");
    assert_eq!(records[0].parent_category_id, None);
    assert_eq!(records[1].name, "luz solar");
    assert_eq!(
        records[1].parent_category_id.as_deref(),
        Some("casa-nova")
    );
}

#[test]
fn new_rows_are_told_apart() {
    let rows = vec![
        tx("a", day(2026, 5, 4), -100, "x"),
        tx("b", day(2026, 5, 4), -100, "y"),
    ];
    let known = list(&["a"]);
    assert_eq!(find_new_rows(&rows, &known), vec![1]);
    let accounts = vec![account("conta", "checking", Json::Null)];
    let told = summarize_new(&rows, &known, &accounts);
    assert_eq!(told.len(), 1);
    assert_eq!(told[0].amount, "-1.00");
    assert_eq!(told[0].day_of_week, day_of_week_text(&day(2026, 5, 4)));
    let fallback =
        build_sync_pending_summary_fallback(&rows, &known, &accounts, "aviso".to_string());
    assert_eq!(fallback.warnings, list(&["aviso"]));
    let reply = PendingReply::CountFailed("falhou".to_string());
    let summary = load_sync_pending_summary(&reply, &rows, &known, &accounts);
    assert_eq!(summary.warnings.len(), 1);
    let listed = PendingReply::Listed(0, Vec::new());
    let summary = load_sync_pending_summary(&listed, &rows, &known, &accounts);
    assert_eq!(summary.needs_context_count, 0);
    assert_eq!(summary.warnings.len(), 0);
}

#[test]
fn sync_choices() {
    assert_eq!(sync_output(false, false), Ok(SyncOutput::Plain));
    assert_eq!(sync_output(true, false), Ok(SyncOutput::JsonSummary));
    assert!(sync_output(true, true).is_err());
    assert_eq!(enrich_step(true, 5, true), EnrichStep::Skipped);
    assert_eq!(enrich_step(false, 0, true), EnrichStep::NothingNew);
    assert!(!compact_error_message("a\n b").contains('\n'));
}

#[test]
fn balances_are_kept_in_snapshots() {
    let a = account("conta", "checking", object(vec![]));
    let s = snapshot_of(&a, &day(2026, 5, 1), "eu", None);
    assert_eq!(s.account_id, "conta");
    assert!(s.balance.is_none());
    assert!(total_checking_balance(&vec![a], &Vec::new()).is_none());
}

#[test]
fn bills_are_named_by_their_closing() {
    let id = compute_bill_id(&day(2026, 5, 12), 11);
    let close = parse_synthetic_close_date(&id).unwrap();
    assert!(!close.is_before(&day(2026, 5, 12)));
    assert_eq!(iso(&close), "2026-06-11");
    assert!(parse_synthetic_close_date("abc").is_none());
    assert_eq!(infer_closing_day_from_pluggy(&Vec::new(), "cartao"), None);
}

#[test]
fn bills_are_overdue_only_after_the_due_date() {
    let close = day(2026, 5, 11);
    let owed = Amount::new(10_000, 2);
    let early = card_bill_status(
        CardsMode::Closed,
        &day(2026, 5, 12),
        &close,
        None,
        owed,
        &owed,
        &Vec::new(),
    );
    assert_eq!(early.state, BillState::Open);
    let late = card_bill_status(
        CardsMode::Closed,
        &day(2026, 7, 12),
        &close,
        None,
        owed,
        &owed,
        &Vec::new(),
    );
    assert_eq!(late.state, BillState::Overdue);
    assert_eq!(late.state.as_str(), "overdue");
    assert_eq!(iso(&late.due_date), "2026-05-18");
}

#[test]
fn bills_fall_due_on_the_accounts_day() {
    let owed = Amount::new(10_000, 2);
    let due = |close: phai::date::Date, on: u32| {
        card_bill_status(
            CardsMode::Closed,
            &day(2026, 6, 3),
            &close,
            Some(on),
            owed,
            &owed,
            &Vec::new(),
        )
    };
    assert_eq!(iso(&due(day(2026, 5, 11), 25).due_date), "2026-05-25");
    assert_eq!(due(day(2026, 5, 11), 25).state, BillState::Overdue);
    assert_eq!(iso(&due(day(2026, 5, 28), 5).due_date), "2026-06-05");
    assert_eq!(due(day(2026, 5, 28), 5).state, BillState::Open);
    assert_eq!(iso(&due(day(2026, 12, 28), 28).due_date), "2027-01-28");
}

#[test]
fn an_account_with_a_bill_is_shown() {
    let accounts = vec![account(
        "cartao",
        "credit",
        object(vec![("billing_closing_day", number(11))]),
    )];
    let rows = vec![
        bought("a", day(2026, 5, 2), 3_000),
        bought("b", day(2026, 5, 3), 2_000),
    ];
    let report = cards_report(
        &accounts,
        &rows,
        &Vec::new(),
        CardsMode::Closed,
        &day(2026, 5, 20),
        "2026-05",
        false,
    );
    assert_eq!(report.accounts.len(), 1);
    assert_eq!(report.accounts[0].transaction_count, 2);
    assert_eq!(decimal_text(report.grand_total), "50.00");
}

#[test]
fn bills_are_chosen() {
    let today = day(2026, 2, 10);
    assert_eq!(
        choose_bills(&None, false, &today),
        Ok((CardsMode::Closed, "2026-02".to_string()))
    );
    assert_eq!(
        choose_bills(&None, true, &today),
        Ok((CardsMode::Next, "2026-02".to_string()))
    );
    assert_eq!(
        choose_bills(&Some("2025-11".to_string()), true, &today),
        Ok((CardsMode::Specific, "2025-11".to_string()))
    );
    assert_eq!(
        choose_bills(&Some("x".to_string()), false, &today),
        Err("month inválido: x (esperado YYYY-MM)".to_string())
    );
    assert_eq!(iso(&window_opening(&today)), "2025-11-12");
    assert_eq!(
        window_months(&today),
        list(&["2025-11", "2025-12", "2026-01", "2026-02"])
    );
}

#[test]
fn closed_cards_are_looked_into() {
    let months = insight_months(Some("2026-05"), &day(2026, 6, 1)).ok().unwrap();
    assert_eq!(months[0], "2026-05");
    let cards = vec![CardSummaryRow {
        month_ref: "2026-05".to_string(),
        account_id: "cartao".to_string(),
        total_charges: Amount::new(50, 0),
        open_amount: Amount::none(),
    }];
    let shown = vec![
        bought("a", day(2026, 5, 2), 3_000),
        bought("b", day(2026, 5, 3), 2_000),
    ];
    let out = card_closed_insights(
        "2026-05",
        &cards,
        &vec![vec![bought("a", day(2026, 5, 2), 3_000)]],
        &shown,
    );
    assert_eq!(out.accounts.len(), 1);
    assert_eq!(out.month_ref, "2026-05");
}

#[test]
fn categories_of_closed_cards_come_to_the_whole() {
    let mut other = bought("c", day(2026, 5, 4), 1_999);
    other.category_id = None;
    let mut third = bought("d", day(2026, 5, 5), -500);
    third.category_id = Some("casa".to_string());
    let closed = vec![
        bought("a", day(2026, 5, 2), 3_001),
        bought("b", day(2026, 5, 3), 2_000),
        other,
        third,
    ];
    let out = card_closed_insights("2026-05", &Vec::new(), &vec![closed], &Vec::new());
    let lines: Vec<String> = out
        .categories
        .iter()
        .map(|t| format!("{} {} {}", t.key.name, t.amount.exact(), t.transactions))
        .collect();
    assert_eq!(lines, list(&["lazer 50.01 2", "sem-categoria 19.99 1", "casa -5.00 1"]));
    let total: i64 = out
        .categories
        .iter()
        .map(|t| t.amount.exact().replace('.', "").parse::<i64>().unwrap())
        .sum();
    assert_eq!(total, 3_001 + 2_000 + 1_999 - 500);
}

#[test]
fn every_bill_is_a_candidate() {
    let rows = vec![
        bought("a", day(2026, 5, 2), 3_000),
        bought("b", day(2026, 5, 20), -2_000),
        bought("c", day(2026, 5, 3), -500),
    ];
    let mut card = account("cartao", "credit", object(vec![("billing_closing_day", number(11))]));
    card.label = "Cartão".to_string();
    let all = bill_candidates(&vec![card], &rows);
    let told: Vec<String> = all
        .iter()
        .map(|b| {
            format!(
                "{} {} {:?} {} {}",
                b.account_id,
                b.bill_id,
                b.members,
                iso(&b.max_date),
                candidate_total(&rows, b).exact()
            )
        })
        .collect();
    assert_eq!(
        told,
        list(&[
            "cartao cycle-2026-05-11 [0, 2] 2026-05-03 35.00",
            "cartao cycle-2026-06-11 [1] 2026-05-20 20.00",
        ])
    );
}

#[test]
fn health_is_checked() {
    assert!(is_flat_category("moradia"));
    assert!(!is_flat_category("moradia:luz"));
    let items = vec![PulseItem {
        transaction_id: "a".to_string(),
        account_id: None,
        account_label: None,
        transaction_date: day(2026, 5, 1),
        description: "x".to_string(),
        amount: Amount::new(-1, 0),
        category_id: Some("moradia".to_string()),
        source: "pluggy".to_string(),
        context: None,
    }];
    let health = data_health(&items, &day(2026, 5, 3), Some(day(2026, 5, 1)));
    assert_eq!(health.pluggy_lag_days, Some(2));
    assert_eq!(health.window_rows, 1);
    assert_eq!(health.window_pluggy_rows, 1);
    assert_eq!(health.flat_category_rows, 1);
    let checks = health_checks(&health, 0, false, "100.0");
    assert!(count_problems(&checks) <= checks.len());
}

fn statement() -> String {
    "<OFX>\n<STMTTRN>\n<DTPOSTED>20260504120000\n<TRNAMT>-12,30\n<FITID>f1\n<MEMO>Padaria  Sol\n</STMTTRN>\n<STMTTRN>\n<DTPOSTED>20260506\n<TRNAMT>7.00\n</STMTTRN>\n"
        .to_string()
}

#[test]
fn statements_are_read() {
    let rows = parse_ofx_transactions(&statement()).ok().unwrap();
    assert_eq!(rows.len(), 2);
    assert_eq!(rows[0].fit_id.as_deref(), Some("f1"));
    assert_eq!(iso(&rows[0].transaction_date), "2026-05-04");
    assert_eq!(decimal_text(rows[0].amount), "-12.30");
    assert_eq!(rows[0].description, "Padaria Sol");
    assert_eq!(rows[1].description, "sem-descricao");
}

#[test]
fn broken_statements_are_refused() {
    assert_eq!(
        parse_ofx_date("2026").map(|d| iso(&d)),
        Err("Data OFX inválida: 2026".to_string())
    );
    assert_eq!(
        parse_ofx_date("20260231").map(|d| iso(&d)),
        Err("Falha ao parsear data OFX 20260231".to_string())
    );
    assert_eq!(
        parse_ofx_amount("dez").map(decimal_text),
        Err("Valor OFX inválido: dez".to_string())
    );
    assert_eq!(
        parse_ofx_transactions("<STMTTRN>\n<TRNAMT>1\n</STMTTRN>").map(|r| r.len()),
        Err("Transação OFX sem DTPOSTED".to_string())
    );
    assert_eq!(
        parse_ofx_transactions("<STMTTRN>\n<DTPOSTED>20260504\n</STMTTRN>").map(|r| r.len()),
        Err("Transação OFX sem TRNAMT".to_string())
    );
}

#[test]
fn statements_are_matched_one_to_one() {
    let query = prepare_ofx(&statement(), 2).ok().unwrap();
    assert_eq!(iso(&query.range_start), "2026-05-04");
    assert_eq!(iso(&query.range_end), "2026-05-06");
    let stored = vec![
        tx("a", day(2026, 5, 5), -1230, "PADARIA SOL"),
        tx("b", day(2026, 5, 5), -1230, "OUTRA"),
    ];
    let used = vec![false, false];
    let best = find_best_ofx_match(&query.rows[0], &stored, &used, 2).unwrap();
    assert_eq!(best.0, 0);
    assert_eq!(infer_account_id_from_fit_ids(&query.rows, &stored), None);
    let out = ofx_consistency(&query, stored, &Some("conta".to_string()));
    assert_eq!(out.ofx_transactions, 2);
    assert_eq!(out.matched, 1);
    assert_eq!(out.missing_in_finance, 1);
    assert_eq!(out.extra_in_finance, 1);
    assert!(!out.consistent);
    assert_eq!(out.matches[0].transaction_id.as_deref(), Some("a"));
    let lines = tell_consistency(&out, "extrato.ofx");
    assert!(lines.iter().any(|l| l.contains("extrato.ofx")));
}

#[test]
fn a_sync_is_planned_as_one() {
    let mut first = account("conta", "checking", object(vec![("balance", text("10.5"))]));
    first.idempotency_key = "account:conta".to_string();
    let second = account("cartao", "credit", object(vec![("balance", number(7))]));
    let mut repeated = tx("novo", day(2026, 2, 6), 790_562, "PAGAMENTO RECEBIDO");
    repeated.category_id = Some("renda:salario".to_string());
    let feed = SyncFeed {
        accounts: vec![first, second],
        numbers: vec![None, Some("7.00".to_string())],
        transactions: vec![repeated, tx("outro", day(2026, 2, 7), 100, "LOJA")],
        rebinds: vec![RebindEvent {
            internal_account_id: "conta".to_string(),
            binding_id: "b".to_string(),
            from_pluggy_account_id: Some("o".to_string()),
            to_pluggy_account_id: "p".to_string(),
            pluggy_item_id: None,
        }],
    };
    let known_accounts = vec![account(
        "cartao",
        "credit",
        object(vec![("billing_closing_day", number(9))]),
    )];
    let known = vec![tx("velho", day(2026, 2, 6), 790_562, "Pagamento  recebido")];
    let plan = plan_sync(feed, &known_accounts, &known, &day(2026, 2, 8), "eu");
    assert_eq!(plan.transactions.len(), 1);
    assert_eq!(plan.transactions[0].transaction_id, "outro");
    assert_eq!(plan.categories.len(), 2);
    assert_eq!(plan.categories[1].category_id, "renda:salario");
    assert_eq!(parse_closing_day(&plan.accounts[1].metadata_json), Some(9));
    assert_eq!(plan.snapshots.len(), 2);
    assert_eq!(plan.snapshots[0].balance.map(decimal_text), Some("10.50".to_string()));
    assert_eq!(plan.snapshots[1].balance.map(decimal_text), Some("7.00".to_string()));
    assert_eq!(
        plan.snapshots[1].idempotency_key,
        "snapshot:cartao:2026-02-08:pluggy"
    );
    let trail: Vec<String> = plan
        .audit
        .iter()
        .map(|e| format!("{} {} {} {}", e.entity_type, e.entity_id, e.action, e.idempotency_key))
        .collect();
    assert_eq!(
        trail,
        vec![
            "transaction novo dedup_skipped dedup:novo",
            "account conta rebind rebind:b:p",
            "account conta sync_pluggy account:conta",
            "account cartao sync_pluggy ",
            "transaction outro sync_pluggy outro",
        ]
    );
}

#[test]
fn metadata_without_members_stays_as_it_is() {
    let known = vec![account("conta", "checking", object(vec![("x", number(1))]))];
    let mut a = account("conta", "checking", text("nada"));
    assert!(may_keep_billing(&a, &known));
    keep_billing(&mut a, &known);
    assert!(matches!(a.metadata_json, Json::Text(t) if t == "nada"));
    let b = account("conta", "checking", text("nada"));
    let set = vec![account("conta", "checking", object(vec![("billing_due_day", number(5))]))];
    assert!(!may_keep_billing(&b, &set));
}
