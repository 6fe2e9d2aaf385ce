use phai::amount::Amount;
use phai::balances::{
    collect_balances, list_active_chains, report_balances, report_installments, InstallmentChain,
    InstallmentChainView,
};
use phai::bill_text::{tell_bill, tell_bills, BillsReport, CardEntry};
use phai::card_text::{card_standing, report_card_summary, tell_insights, NamedInsights};
use phai::cards::{BillState, CardsBillStatus, CardsMode};
use phai::dashboard::{
    accept_template, answer, dismiss_template, payload_member, read_request, StoreReply, StoreRequest, WsResponse,
};
use phai::date::Date;
use phai::entries::{read_budget_entry, read_forecast_entry, ForecastEntry};
use phai::health::{HealthCheck, OverlapCandidate};
use phai::listings::{
    budget_key, ensure_bigquery_split_backend, inspect_rule, list_budgets, list_rules, parse_since,
    report_budget_status, report_split_candidates, report_uncategorized, rule_matches_status,
    tell_split_applied, tell_split_preview, BackendKind, BudgetUse, CategoryBudgetRecord,
    RuleRecord, RuleStatusFilter, SplitLine, SplitPreview,
};
use phai::maintenance::{
    dry_run_line, import_summary, plan_reclassification, reclassify_annotation,
    reclassify_summary, replication_key, replication_line, replication_summary,
    replication_warning,
    tally_replications, tell_migrations, ImportCounts, Replication, ReplicationOutcome,
    RuleOutcome,
};
use phai::metadata::{Json, JsonField, JsonNumber};
use phai::money::decimal_text;
use phai::records::{AccountRecord, TransactionRecord};
use phai::scenario::ScenarioOutput;
use phai::status_text::{tell_health, tell_scenario, tell_sync, SyncCounts};
use phai::summary::{AccountSnapshotRecord, EnrichStep};
use phai::tally::{tally, TallyKey};
use phai::transactions::{
    category_key_parts, change_key, check_anatomy, context_by_desc_key, context_changes,
    find_title, list_contexts, list_transactions, pending_title, print_transaction_row,
    read_manual_entry, review_queue_item, tell_context_changes, ChangeKind, ManualEntry,
    PendingHumanKind,
};

fn day(y: i32, m: u32, d: u32) -> Date {
    Date::from_ymd_opt(y, m, d).unwrap()
}

fn whole(n: i64) -> Amount {
    Amount::new(n, 0)
}

fn list(items: &[&str]) -> Vec<String> {
    items.iter().map(|s| s.to_string()).collect()
}

fn object(fields: Vec<(&str, Json)>) -> Json {
    Json::Object(
        fields
            .into_iter()
            .map(|(name, value)| JsonField {
                name: name.to_string(),
                value,
            })
            .collect(),
    )
}

fn tx(id: &str) -> TransactionRecord {
    TransactionRecord {
        transaction_id: id.to_string(),
        account_id: Some("conta".to_string()),
        transaction_date: day(2026, 5, 3),
        raw_description: "PADARIA".to_string(),
        description: None,
        merchant_name: None,
        purpose: None,
        amount: Amount::new(-1250, 2),
        tx_type: "debit".to_string(),
        category_id: Some("alimentacao:padaria".to_string()),
        category_source: "rule".to_string(),
        context: None,
        classifier_trace: None,
        payment_status: "posted".to_string(),
        source: "pluggy".to_string(),
        actor_id: "test".to_string(),
        idempotency_key: id.to_string(),
        metadata_json: Json::Null,
    }
}

fn outcome(category: &str) -> RuleOutcome {
    RuleOutcome {
        category_id: Some(category.to_string()),
        category_source: "rule".to_string(),
        context: None,
    }
}

#[test]
fn only_rules_reclassify() {
    let mut by_hand = tx("c");
    by_hand.category_source = "manual".to_string();
    let items = vec![tx("a"), tx("b"), by_hand];
    let outcomes = vec![outcome("lazer"), outcome("alimentacao:padaria"), outcome("lazer")];
    assert!(plan_reclassification(&items, &outcomes, true).audit.is_empty());
    let plan = plan_reclassification(&items, &outcomes, false);
    assert_eq!(plan.audit.len(), plan.positions.len());
    assert_eq!(plan.audit[0].idempotency_key, "reclassify:a");
    assert_eq!(plan.positions[0], 0);
    assert!(!plan.positions.contains(&1));
    assert_eq!(plan.changed + plan.unchanged, 3);
    assert_eq!(plan.changed as usize, plan.positions.len());
    let line = dry_run_line(&items[0], &outcomes[0]);
    assert!(line.starts_with("  [DRY-RUN] 2026-05-03 PADARIA "));
    assert!(line.ends_with(" -> lazer"));
    let note = reclassify_annotation(&items[0], &outcomes[0]);
    assert_eq!(note.transaction_id, "a");
    assert_eq!(note.category_id.as_deref(), Some("lazer"));
    assert!(!reclassify_summary(&plan, true).is_empty());
}

#[test]
fn replications_are_counted_once() {
    let rep = Replication {
        donor_id: "d".to_string(),
        description: Some("Pão".to_string()),
        purpose: None,
    };
    assert_eq!(
        replication_line(&tx("a"), &rep),
        "  replicate  a  ←  d  desc=\"Pão\""
    );
    let outcomes = vec![
        Ok(ReplicationOutcome::Replicated(rep)),
        Ok(ReplicationOutcome::NoDonor),
        Ok(ReplicationOutcome::AlreadyComplete),
        Err("falha".to_string()),
    ];
    let t = tally_replications(&outcomes);
    assert_eq!(t.replicated, 1);
    assert_eq!(t.no_donor, 1);
    assert_eq!(t.already_complete, 1);
    assert_eq!(t.errors, 1);
    assert!(!replication_summary(&t, 4, true).is_empty());
    assert!(replication_key(&tx("a"), "x").contains("a"));
}

#[test]
fn imports_and_migrations_are_told() {
    let counts = ImportCounts {
        accounts: 1,
        categories: 2,
        rules: 3,
        forecasts: 4,
        transactions: 5,
    };
    assert_eq!(
        import_summary(&counts),
        list(&[
            "Import legado concluído:",
            "- accounts: 1",
            "- categories: 2",
            "- rules: 3",
            "- forecasts: 4",
            "- transactions: 5",
        ])
    );
    assert_eq!(
        tell_migrations(&Vec::new()),
        list(&["Nenhuma migration pendente."])
    );
    assert_eq!(
        tell_migrations(&list(&["001"])),
        list(&["Migrations aplicadas:", "- 001"])
    );
}

#[test]
fn transactions_are_listed() {
    assert_eq!(
        print_transaction_row(&tx("a")),
        "a | 2026-05-03 | -12.50 | PADARIA | conta | None"
    );
    assert_eq!(
        list_transactions("Título", &vec![tx("a")]),
        list(&[
            "Título",
            "- linhas: 1",
            "",
            "a | 2026-05-03 | -12.50 | PADARIA | conta | None",
        ])
    );
    assert!(find_title("pão \"doce\"").contains("\\\"doce\\\""));
    assert_ne!(
        pending_title(PendingHumanKind::Merchant),
        pending_title(PendingHumanKind::Purpose)
    );
    assert!(!list_contexts(&Vec::new()).is_empty());
    let item = review_queue_item(&tx("a"));
    assert_eq!(item.amount, "-12.50");
    assert_eq!(item.transaction_date, "2026-05-03");
    assert_eq!(item.display_description, "PADARIA");
}

fn entry(date: &str, amount: &str) -> ManualEntry {
    ManualEntry {
        transaction_id: None,
        account_id: None,
        date: date.to_string(),
        description: "feira".to_string(),
        amount: amount.to_string(),
        category_key: None,
        context: None,
        payment_status: "posted".to_string(),
    }
}

#[test]
fn entries_by_hand_are_read() {
    let r = read_manual_entry(entry("2026-05-03", "-10.50"), "novo", "eu", "k")
        .ok()
        .unwrap();
    assert_eq!(r.transaction_id, "manual_novo");
    assert_eq!(decimal_text(r.amount), "-10.50");
    assert_eq!(r.source, "manual");
    assert!(read_manual_entry(entry("ontem", "1"), "n", "eu", "k").is_err());
    assert!(read_manual_entry(entry("2026-05-03", "dez"), "n", "eu", "k").is_err());
    assert_eq!(
        category_key_parts("casa", &Some("luz".to_string())),
        ("casa".to_string(), Some("luz".to_string()))
    );
    assert!(check_anatomy(&None, &None, &None, &None).is_err());
    assert!(check_anatomy(&Some("x".to_string()), &None, &None, &None).is_ok());
    assert_eq!(change_key(ChangeKind::Annotate, "a", "s"), "annotate:a:s");
    assert_eq!(change_key(ChangeKind::Anatomy, "a", "s"), "anatomy:a:s");
    assert_eq!(change_key(ChangeKind::Context, "a", "s"), "context:a:s");
    assert_eq!(change_key(ChangeKind::Review, "a", "s"), "review-human:a:s");
    assert_eq!(
        change_key(ChangeKind::SplitClear, "a", "s"),
        "split-clear:a:s"
    );
}

#[test]
fn contexts_change_by_description() {
    let changes = context_changes(&vec![tx("a")], "viagem");
    assert_eq!(changes.len(), 1);
    assert_eq!(changes[0].new_context, "viagem");
    assert_eq!(
        tell_context_changes(&changes, true),
        list(&[
            "Dry-run: 1 transaction(s) would be updated",
            "a | PADARIA | None -> \"viagem\"",
        ])
    );
    assert_eq!(
        context_by_desc_key("a", "viagem", "s"),
        "context-by-desc:a:viagem:s"
    );
}

#[test]
fn balances_are_reported() {
    let accounts = vec![AccountRecord {
        account_id: "conta".to_string(),
        owner: "aline".to_string(),
        account_type: "checking".to_string(),
        bank: "banco".to_string(),
        label: "Conta".to_string(),
        pluggy_account_id: None,
        pluggy_item_id: None,
        status: "active".to_string(),
        actor_id: "eu".to_string(),
        idempotency_key: String::new(),
        metadata_json: Json::Null,
    }];
    let snapshots = vec![AccountSnapshotRecord {
        account_id: "conta".to_string(),
        snapshot_date: day(2026, 5, 3),
        balance: Some(whole(1200)),
        currency_code: Some("BRL".to_string()),
        source: "pluggy".to_string(),
        actor_id: "test".to_string(),
        idempotency_key: "k".to_string(),
    }];
    let rows = collect_balances(&accounts, &snapshots);
    assert_eq!(rows.len(), 1);
    assert_eq!(
        report_balances(&rows),
        list(&[
            "*Saldo em conta*",
            "  💰 Conta · +R$ 1.200,00 (03/mai)",
            "  *Total*: +R$ 1.200,00",
        ])
    );
}

#[test]
fn installments_are_reported() {
    let chain = InstallmentChain {
        account_id: "cartao".to_string(),
        base_description: "LOJA".to_string(),
        total: 10,
        current: 9,
        first_date: day(2026, 1, 3),
        projected_end: day(2026, 6, 3),
        remaining: 1,
        released_next_month: true,
        total_amount: whole(100),
    };
    let view = InstallmentChainView::from_chain(&chain);
    assert_eq!(view.base_description, "LOJA");
    let chains = vec![chain];
    assert_eq!(list_active_chains(&chains), vec![0]);
    assert_eq!(
        report_installments(&chains),
        list(&[
            "📦 *Parcelas ativas*",
            "",
            "🔔 *Liberam no próximo mês*",
            "LOJA · 9/10 · +R$ 100,00 · termina 03/jun/2026",
            "",
            "Compromisso mensal estimado: R$ 10,00",
        ])
    );
}

#[test]
fn bills_are_told() {
    let status = CardsBillStatus {
        state: BillState::Paid,
        close_date: day(2026, 5, 11),
        due_date: day(2026, 5, 18),
        paid_on: Some(day(2026, 5, 17)),
        total: whole(50),
    };
    let (_, told) = tell_bill(&status, &day(2026, 5, 20));
    assert!(!told.is_empty());
    let report = BillsReport {
        month: "2026-05".to_string(),
        mode: CardsMode::Closed,
        installments_only: false,
        accounts: Vec::new(),
        grand_total: whole(50),
        entries: vec![CardEntry {
            name: "LOJA".to_string(),
            category_id: Some("lazer".to_string()),
            amount: whole(50),
            date: day(2026, 5, 3),
        }],
    };
    assert!(!tell_bills(&report, &day(2026, 5, 20), true).is_empty());
    let (emoji, _) = card_standing(&whole(50), &Amount::none(), true);
    assert!(!emoji.is_empty());
    assert!(!report_card_summary(&Vec::new(), &Vec::new(), &None, &day(2026, 5, 20)).is_empty());
    let insights = NamedInsights {
        month_ref: "2026-05".to_string(),
        accounts: Vec::new(),
        categories: Vec::new(),
        subscriptions: Vec::new(),
        open_installments: Vec::new(),
        closed_installments: Vec::new(),
        recurring: Vec::new(),
    };
    assert!(!tell_insights(&insights).is_empty());
}

fn rule(id: &str, status: &str) -> RuleRecord {
    RuleRecord {
        rule_id: id.to_string(),
        body: "{}".to_string(),
        status: status.to_string(),
        actor_id: "eu".to_string(),
        idempotency_key: id.to_string(),
        created_at: "2026-05-01".to_string(),
        updated_at: "2026-05-01".to_string(),
        updated_on: day(2026, 5, 1),
    }
}

#[test]
fn rules_are_listed_by_status() {
    let rules = vec![rule("a", "active"), rule("b", "disabled")];
    assert!(rule_matches_status(&rules[0], RuleStatusFilter::Active));
    assert!(!rule_matches_status(&rules[0], RuleStatusFilter::Disabled));
    assert!(rule_matches_status(&rules[1], RuleStatusFilter::All));
    assert_eq!(
        list_rules(&rules, RuleStatusFilter::Active),
        list(&[
            "Rules status=active",
            "- linhas: 1",
            "",
            "a | active | 2026-05-01 | {}",
        ])
    );
    assert!(inspect_rule(&rules, "b").is_ok());
    assert!(inspect_rule(&rules, "z").is_err());
    assert!(ensure_bigquery_split_backend(BackendKind::Bigquery).is_ok());
    assert!(ensure_bigquery_split_backend(BackendKind::Local).is_err());
}

#[test]
fn budgets_are_reported() {
    let uses = vec![BudgetUse {
        category_id: "lazer".to_string(),
        budget_amount: whole(100),
        actual_amount: whole(90),
        alert: true,
        usage: 90,
    }];
    assert_eq!(
        report_budget_status(&uses, "2026-05"),
        list(&[
            "🎯 *Orçamentos · mai/2026*",
            "",
            "🟡 *lazer* — R$ 90,00 / R$ 100,00 (90%)",
            "   █████████░",
            "",
            "Total: *R$ 90,00* de R$ 100,00 orçados",
        ])
    );
    let budgets = vec![CategoryBudgetRecord {
        category_id: "lazer".to_string(),
        subcategory_id: None,
        month_ref: None,
        amount: whole(100),
        alert_threshold_pct: 80,
    }];
    assert_eq!(
        list_budgets(&budgets, &None),
        list(&[
            "Budgets",
            "- linhas: 1",
            "",
            "lazer | sub: - | month: _default | budget: +R$ 100,00 | threshold: 80%",
        ])
    );
    assert_eq!(budget_key("lazer", &None, &None), "budget:lazer::_default");
    assert_ne!(
        budget_key("lazer", &None, &None),
        budget_key("lazer", &None, &Some("2026-05".to_string()))
    );
    assert!(parse_since(&None).ok().unwrap().is_none());
    assert!(parse_since(&Some("ontem".to_string())).is_err());
    assert!(!report_uncategorized(&Vec::new(), 5).is_empty());
    assert!(!report_split_candidates(&Vec::new(), &day(2026, 5, 1)).is_empty());
    assert_eq!(
        tell_split_applied("s", 2, 3),
        "Split aplicado: s (2 linhas, 3 itens)"
    );
}

#[test]
fn requests_are_read() {
    let none = object(vec![]);
    assert!(matches!(
        read_request("get_accounts", &none),
        Ok(StoreRequest::GetAccounts)
    ));
    assert_eq!(
        read_request("accept_template", &none).err().as_deref(),
        Some("template_id é obrigatório")
    );
    assert_eq!(
        read_request("get_forecast", &none).err().as_deref(),
        Some("forecast_id é obrigatório")
    );
    assert_eq!(
        read_request("voar", &none).err().as_deref(),
        Some("tipo desconhecido: voar")
    );
    let asked = object(vec![
        ("template_id", Json::Text("t".to_string())),
        (
            "materialize_months",
            Json::Number(JsonNumber {
                unsigned: Some(6),
                text: "6".to_string(),
            }),
        ),
    ]);
    match read_request("accept_template", &asked) {
        Ok(StoreRequest::AcceptTemplate(id, months)) => {
            assert_eq!(id, "t");
            assert_eq!(months, 6);
        }
        _ => panic!("the request is read"),
    }
}

#[test]
fn requests_are_answered() {
    let ask = StoreRequest::GetAccounts;
    let done: WsResponse<u8> = answer("1".to_string(), &ask, StoreReply::Done(7));
    assert_eq!(done.payload, Some(7));
    assert_eq!(done.error, None);
    assert_eq!(done.msg_type, "accounts");
    assert_eq!(payload_member(&ask), Some("accounts"));
    assert_eq!(payload_member(&StoreRequest::GetCategories), Some("categories"));
    assert_eq!(
        payload_member(&StoreRequest::ListForecastTemplates(None, None)),
        Some("templates")
    );
    assert_eq!(payload_member(&StoreRequest::GetForecast("f".to_string())), None);
    let failed: WsResponse<u8> =
        answer("1".to_string(), &ask, StoreReply::Failed("x".to_string()));
    assert_eq!(failed.msg_type, "error");
    assert_eq!(failed.payload, None);
    assert!(failed.error.is_some());
}

#[test]
fn templates_are_accepted_once() {
    let next = accept_template("t", &Some("proposto".to_string()))
        .ok()
        .unwrap();
    assert_eq!(next, "ativo");
    assert_eq!(
        accept_template("t", &Some(next)),
        Err("template t está com status 'ativo' (esperado: 'proposto')".to_string())
    );
    assert_eq!(
        accept_template("t", &None),
        Err("template não encontrado: t".to_string())
    );
    assert!(dismiss_template("t", &None).is_err());
    assert_eq!(
        dismiss_template("t", &Some("proposto".to_string())),
        Ok(Some("descartado".to_string()))
    );
    assert_eq!(
        dismiss_template("t", &Some("descartado".to_string())),
        Ok(None)
    );
}

fn check(severity: u8, emoji: &str, description: &str) -> HealthCheck {
    HealthCheck {
        severity,
        emoji: emoji.to_string(),
        description: description.to_string(),
    }
}

#[test]
fn health_is_told() {
    let well = vec![check(2, "✅", "Pluggy atualizado")];
    assert_eq!(
        tell_health(&well, &Vec::new()),
        list(&["🩹 *Saúde dos dados*", "", "✅ Tudo certo · 1 verificações."])
    );
    let ill = vec![check(0, "🔻", "ruim"), check(2, "✅", "bom")];
    let overlap = OverlapCandidate {
        account_id: None,
        amount: "10.00".to_string(),
        legacy_transaction_id: "l".to_string(),
        legacy_date: "2026-05-01".to_string(),
        legacy_description: "x".to_string(),
        pluggy_transaction_id: "p".to_string(),
        pluggy_date: "2026-05-02".to_string(),
        pluggy_description: "x".to_string(),
    };
    assert_eq!(
        tell_health(&ill, &vec![overlap]),
        list(&[
            "🩹 *Saúde dos dados*",
            "",
            "🔻 ruim",
            "✅ bom",
            "",
            "*Sobreposições detectadas:*",
            "  sem-conta · legacy 2026-05-01 · pluggy 2026-05-02",
            "",
            "1 problema(s) em 2 verificações.",
        ])
    );
}

#[test]
fn scenarios_are_told() {
    let lines = tell_scenario(&ScenarioOutput {
        target_month: "2026-06".to_string(),
        baseline_months: list(&["2026-05", "2026-04"]),
        avg_income: whole(100),
        avg_expenses: whole(40),
        avg_net: whole(60),
        planning_expenses: whole(50),
        known_forecast_expenses: whole(50),
        known_forecast_count: 3,
        carryover_open_card_month: "2026-05".to_string(),
        carryover_open_card_amount: whole(7),
        extra_income: Amount::none(),
        extra_expense: whole(1),
        projected_net: whole(49),
        projected_cash_after_card_carry: whole(42),
        looks_ok_after_card_carry: true,
    });
    assert_eq!(lines.len(), 13);
    assert_eq!(lines[0], "Scenario 2026-06");
    assert_eq!(lines[1], "- baseline meses: 2026-05, 2026-04");
    assert_eq!(lines[3], "- média saídas: -R$ 40,00");
    assert_eq!(lines[6], "- forecast conhecido: -R$ 50,00 em 3 itens");
    assert_eq!(lines[12], "- parecer: fica positivo");
}

#[test]
fn syncs_are_told() {
    let counts = SyncCounts {
        accounts: 1,
        transactions: 2,
        categories: 3,
        fresh: 0,
    };
    let lines = tell_sync(&counts, "eu", BackendKind::Local, EnrichStep::NothingNew);
    assert_eq!(
        lines,
        list(&[
            "Sync Pluggy concluído:",
            "- accounts: 1",
            "- transactions: 2",
            "- categories: 3",
            "- actor: eu",
            "- backend: Local",
            "Sincronização concluída: 0 transações novas",
            "Enrichment automático: sem transações novas para processar.",
        ])
    );
}

fn plan_entry(date: Option<&str>, amount: &str) -> ForecastEntry {
    ForecastEntry {
        forecast_id: None,
        date: date.map(str::to_string),
        description: "aluguel".to_string(),
        amount: amount.to_string(),
        category_key: None,
        account_id: None,
        status: "active".to_string(),
    }
}

#[test]
fn plans_and_budgets_are_read() {
    let (id, draft) = read_forecast_entry(plan_entry(Some("2026-05-03"), "-10"), "7", "eu")
        .ok()
        .unwrap();
    assert_eq!(id, "forecast_7");
    assert_eq!(decimal_text(draft.amount), "-10.00");
    assert!(draft.due_date.unwrap().is_same_day(&day(2026, 5, 3)));
    assert_eq!(
        read_forecast_entry(plan_entry(Some("amanhã"), "x"), "7", "eu").err(),
        Some("date inválida para forecast".to_string())
    );
    assert_eq!(
        read_forecast_entry(plan_entry(None, "x"), "7", "eu").err(),
        Some("valor inválido: x".to_string())
    );
    assert!(read_budget_entry(&None, "10.5").is_ok());
    assert_eq!(
        read_budget_entry(&Some("maio".to_string()), "10").map(decimal_text),
        Err("month inválido: maio (esperado YYYY-MM)".to_string())
    );
}

#[test]
fn splits_are_previewed() {
    let preview = SplitPreview {
        parent_transaction_id: "a".to_string(),
        lines: vec![SplitLine {
            line_index: 0,
            amount: Amount::new(-1250, 2),
            category_id: Some("lazer".to_string()),
            description: "pão".to_string(),
        }],
        items: 2,
        split_total: Amount::new(-1250, 2),
        difference: Amount::none(),
        payload_hash: "h".to_string(),
    };
    let lines = tell_split_preview(&tx("a"), &preview);
    assert_eq!(lines[0], "Split preview a");
    assert_eq!(lines[2], "- linhas: 1");
    assert_eq!(lines[4], "- total split: -R$ 12,50");
    assert_eq!(
        replication_warning(&tx("a"), "quebrou"),
        "aviso: replicação falhou para a (PADARIA): quebrou"
    );
}

#[test]
fn tallies_hold_each_key_once() {
    let key = |n: &str| {
        Some(TallyKey {
            name: n.to_string(),
            part: String::new(),
        })
    };
    let t = tally(
        &vec![key("a"), None, key("b"), key("a")],
        &vec![whole(1), whole(2), whole(5), whole(3)],
    );
    assert_eq!(t.len(), 2);
    let a = t.iter().find(|x| x.key.name == "a").unwrap();
    assert_eq!(decimal_text(a.amount), "4.00");
    assert_eq!(a.transactions, 2);
    assert_eq!(list(&["a"]).len(), 1);
}
