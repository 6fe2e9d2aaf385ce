use phai::amount::Amount;
use phai::card_bills::{
    card_cycle_ref_for, cashflow_card_bill_details, purchase_kind, BillSource, PurchaseKind,
};
use phai::cash_view::{
    cashflow_tui_cards_detail_lines, cashflow_tui_change_style, cashflow_tui_detail_lines,
    cashflow_tui_exit_key, cashflow_tui_family_rows, cashflow_tui_footer,
    cashflow_tui_header_lines, cashflow_tui_move_delta_key, cashflow_tui_selected,
    handle_cashflow_tui_key, move_bounded_index, CashflowTuiState, CashflowTuiTab,
};
use phai::cashflow::{
    cashflow_category_id, cashflow_forecast_groups, collect_cashflow_actual_parts,
    combine_cashflow_rows, flow_kind, inactive_forecast_status, is_income_category, month_bounds,
    summarize_forecast_groups, CashflowCategoryGroup, FlowKind, ForecastVsActualRow,
};
use phai::date::{iso, Date};
use phai::families::{
    category_family_key, category_subcategory_key, terminal_families_for, CashflowTerminalFamily,
};
use phai::keys::{KeyCode, KeyEvent};
use phai::metadata::{Json, JsonField};
use phai::money::decimal_text;
use phai::month_report::{
    build_cashflow_detail_sections, build_cashflow_month_report, cashflow_account_balances,
    cashflow_card_summary, cashflow_report_summary, empty_cashflow_card_summary,
    installment_marker_is_final, needs_details, CashflowDetailSections,
};
use phai::monthly::{
    forecast_due_label, forecast_indicator, print_forecast_vs_actual_human,
    print_monthly_spend_human,
};
use phai::pulse::MonthlySpendRow;
use phai::records::{AccountRecord, TransactionRecord};
use phai::scenario::{baseline_rows, plan_scenario, project, CashflowRow};
use phai::screen::Color;
use phai::summary::AccountSnapshotRecord;
use phai::terminal::{
    cashflow_accounts_label, cashflow_effective_details, cashflow_header_suffix,
    cashflow_month_arg, cashflow_should_show_progress, cashflow_tui_change_text,
    cashflow_uses_month_report, display_token, green, optional_balance_label,
    print_cashflow_human, print_cashflow_month_human, share_pct, signed_money_color, CashflowArgs,
};

fn day(y: i32, m: u32, d: u32) -> Date {
    Date::from_ymd_opt(y, m, d).unwrap()
}

fn whole(n: i64) -> Amount {
    Amount::new(n, 0)
}

fn list(items: &[&str]) -> Vec<String> {
    items.iter().map(|s| s.to_string()).collect()
}

fn account(id: &str, kind: &str) -> AccountRecord {
    AccountRecord {
        account_id: id.to_string(),
        owner: "aline".to_string(),
        account_type: kind.to_string(),
        bank: "banco".to_string(),
        label: id.to_string(),
        pluggy_account_id: None,
        pluggy_item_id: None,
        status: "active".to_string(),
        actor_id: "eu".to_string(),
        idempotency_key: String::new(),
        metadata_json: Json::Null,
    }
}

fn tx(id: &str, acct: &str, date: Date, cents: i64, category: &str) -> TransactionRecord {
    TransactionRecord {
        transaction_id: id.to_string(),
        account_id: Some(acct.to_string()),
        transaction_date: date,
        raw_description: "COMPRA".to_string(),
        description: None,
        merchant_name: None,
        purpose: None,
        amount: Amount::new(cents, 2),
        tx_type: "debit".to_string(),
        category_id: Some(category.to_string()),
        category_source: "manual".to_string(),
        context: None,
        classifier_trace: None,
        payment_status: "posted".to_string(),
        source: "pluggy".to_string(),
        actor_id: "test".to_string(),
        idempotency_key: id.to_string(),
        metadata_json: Json::Object(Vec::new()),
    }
}

fn row(month: &str, income: i64, expenses: i64) -> CashflowRow {
    CashflowRow {
        month_ref: month.to_string(),
        income: whole(income),
        expenses: whole(expenses),
        expense_reduction: Amount::none(),
        net: whole(income - expenses),
        opening_balance: None,
        closing_balance: None,
    }
}

fn planned(id: &str, category: &str, amount: i64, actual: i64, status: &str) -> ForecastVsActualRow {
    ForecastVsActualRow {
        month_ref: "2026-05".to_string(),
        forecast_id: id.to_string(),
        category_id: Some(category.to_string()),
        account_id: None,
        description: id.to_string(),
        forecast_amount: whole(amount),
        actual_amount: whole(actual),
        variance: whole(actual - amount),
        due_date: Some(day(2026, 5, 20)),
        status: status.to_string(),
    }
}

fn group(category: &str, amount: i64) -> CashflowCategoryGroup {
    CashflowCategoryGroup {
        category_id: category.to_string(),
        subtotal: whole(amount),
        transactions: 1,
        items: Vec::new(),
    }
}

fn cashflow_test_family(family: &str) -> CashflowTerminalFamily {
    CashflowTerminalFamily {
        family: family.to_string(),
        total: whole(100),
        forecast: Amount::none(),
        previous: Amount::none(),
        subcategories: Vec::new(),
    }
}

#[test]
fn cashflow_tui_navigation_switches_tabs_and_bounds_selection() {
    let income = vec![cashflow_test_family("receitas")];
    let expenses = vec![
        cashflow_test_family("moradia"),
        cashflow_test_family("alimentacao"),
    ];
    let mut state = CashflowTuiState::default();

    assert_eq!(state.tab, CashflowTuiTab::Expenses);
    assert!(!handle_cashflow_tui_key(
        KeyEvent::plain(KeyCode::Down),
        &mut state,
        &income,
        &expenses,
        0
    ));
    assert_eq!(state.expense_index, 1);
    assert!(!handle_cashflow_tui_key(
        KeyEvent::plain(KeyCode::PageDown),
        &mut state,
        &income,
        &expenses,
        0
    ));
    assert_eq!(state.expense_index, 1);

    assert!(!handle_cashflow_tui_key(
        KeyEvent::plain(KeyCode::Tab),
        &mut state,
        &income,
        &expenses,
        0
    ));
    assert_eq!(state.tab, CashflowTuiTab::Cards);

    assert!(!handle_cashflow_tui_key(
        KeyEvent::plain(KeyCode::Right),
        &mut state,
        &income,
        &expenses,
        0
    ));
    assert_eq!(state.tab, CashflowTuiTab::Income);
    assert!(handle_cashflow_tui_key(
        KeyEvent::plain(KeyCode::Char('q')),
        &mut state,
        &income,
        &expenses,
        0
    ));
}

#[test]
fn tabs_go_round() {
    for tab in [
        CashflowTuiTab::Income,
        CashflowTuiTab::Expenses,
        CashflowTuiTab::Cards,
    ] {
        assert_eq!(tab.next().previous(), tab);
        assert_eq!(tab.next().next().next(), tab);
    }
}

#[test]
fn an_index_stays_in_its_list() {
    let mut index = 0;
    move_bounded_index(&mut index, 3, 10);
    assert_eq!(index, 2);
    move_bounded_index(&mut index, 3, -10);
    assert_eq!(index, 0);
    move_bounded_index(&mut index, 0, 5);
    assert_eq!(index, 0);
    assert!(cashflow_tui_exit_key(KeyEvent::plain(KeyCode::Esc)));
    assert_eq!(
        cashflow_tui_move_delta_key(KeyEvent::plain(KeyCode::Up)),
        Some(-1)
    );
}

#[test]
fn a_month_has_a_first_and_a_last_day() {
    let (first, last) = month_bounds("2024-02").ok().unwrap();
    assert_eq!(iso(&first), "2024-02-01");
    assert_eq!(iso(&last), "2024-02-29");
    assert!(month_bounds("2024").is_err());
}

#[test]
fn rows_of_two_kinds_add_up() {
    let r = combine_cashflow_rows("2026-05", &row("a", 10, 4), &row("b", 5, 1));
    assert_eq!(decimal_text(r.income), "15.00");
    assert_eq!(decimal_text(r.expenses), "5.00");
    assert_eq!(decimal_text(r.net), "10.00");
    assert_eq!(r.month_ref, "2026-05");
    let same = cashflow_report_summary("2026-05", &row("2026-05", 10, 4), &None);
    assert_eq!(decimal_text(same.net), "6.00");
}

#[test]
fn card_payments_are_not_counted() {
    let accounts = vec![account("conta", "checking"), account("cartao", "credit")];
    let internal = list(&["transferencias:interna"]);
    let income = tx("a", "conta", day(2026, 5, 1), 100_000, "receitas:salario");
    let spent = tx("b", "conta", day(2026, 5, 2), -5_000, "alimentacao:mercado");
    let moved = tx("c", "conta", day(2026, 5, 3), -700, "transferencias:interna");
    let bought = tx("d", "cartao", day(2026, 5, 3), -900, "lazer");
    assert_eq!(flow_kind(&income, &accounts, &internal), FlowKind::Income);
    assert_eq!(flow_kind(&spent, &accounts, &internal), FlowKind::Expense);
    assert_eq!(flow_kind(&moved, &accounts, &internal), FlowKind::Skipped);
    assert_eq!(flow_kind(&bought, &accounts, &internal), FlowKind::Skipped);
    let parts = collect_cashflow_actual_parts(
        &vec![income, spent, moved, bought],
        &accounts,
        &internal,
    );
    assert_eq!(parts.income_groups.len(), 1);
    assert_eq!(parts.expense_groups.len(), 1);
    assert_eq!(decimal_text(parts.expense_groups[0].subtotal), "-50.00");
    assert_eq!(parts.expense_groups[0].category_id, "alimentacao:mercado");
}

#[test]
fn plans_count_until_they_are_met() {
    let rows = vec![
        planned("aluguel", "moradia:aluguel", 1000, 0, "planned"),
        planned("salario", "receitas:salario", 5000, 5000, "planned"),
        planned("velho", "lazer", 70, 0, "cancelled"),
    ];
    let groups = cashflow_forecast_groups(&rows);
    assert_eq!(groups.len(), 1);
    assert_eq!(groups[0].category_id, "moradia:aluguel");
    let summary = summarize_forecast_groups("2026-05", &groups);
    assert_eq!(decimal_text(summary.expenses), "1000.00");
    assert_eq!(decimal_text(summary.income), "0.00");
    assert!(inactive_forecast_status("cancelled"));
    assert!(!inactive_forecast_status("planned"));
    assert!(is_income_category(&Some("receitas:salario".to_string())));
    assert_eq!(cashflow_category_id(&None), "sem-categoria");
}

#[test]
fn purchases_fall_in_kinds() {
    let mut t = tx("a", "cartao", day(2026, 5, 3), -900, "lazer");
    assert_eq!(purchase_kind(&t), PurchaseKind::Other);
    t.raw_description = "LOJA 2/10".to_string();
    assert_eq!(purchase_kind(&t), PurchaseKind::Installment);
    assert!(installment_marker_is_final("10/10"));
    assert!(!installment_marker_is_final("2/10"));
}

#[test]
fn cycles_follow_the_closing_day() {
    assert_eq!(
        card_cycle_ref_for(&day(2026, 5, 10), Some(11)),
        Ok("2026-05".to_string())
    );
    assert_eq!(
        card_cycle_ref_for(&day(2026, 12, 20), Some(11)),
        Ok("2027-01".to_string())
    );
    assert_eq!(
        card_cycle_ref_for(&day(2026, 5, 10), None),
        Ok("2026-05".to_string())
    );
}

#[test]
fn a_month_report_is_built() {
    let source = BillSource {
        rows: Vec::new(),
        txs: vec![
            tx("a", "conta", day(2026, 5, 1), 100_000, "receitas:salario"),
            tx("b", "conta", day(2026, 5, 2), -5_000, "alimentacao:mercado"),
        ],
        accounts: vec![account("conta", "checking")],
        internal: Vec::new(),
        month: "2026-05".to_string(),
        start: day(2026, 5, 1),
    };
    assert_eq!(
        cashflow_card_bill_details(&source, &Vec::new())
            .map(|b| b.len())
            .ok(),
        Some(0)
    );
    let details = build_cashflow_detail_sections(&source, &None).ok().unwrap();
    assert_eq!(details.income.len(), 1);
    assert_eq!(details.expenses.len(), 1);
    assert_eq!(details.forecast.len(), 0);
    let snapshots = vec![AccountSnapshotRecord {
        account_id: "conta".to_string(),
        snapshot_date: day(2026, 5, 3),
        balance: Some(whole(42)),
        currency_code: Some("BRL".to_string()),
        source: "pluggy".to_string(),
        actor_id: "test".to_string(),
        idempotency_key: "k".to_string(),
    }];
    let accounts = vec![account("conta", "checking")];
    let balances = cashflow_account_balances(&accounts, &snapshots);
    assert_eq!(balances.len(), 1);
    let report = build_cashflow_month_report(
        "2026-05",
        true,
        false,
        row("2026-05", 1000, 50),
        &accounts,
        &snapshots,
        Some(details),
        None,
    );
    assert_eq!(decimal_text(report.summary.net), "950.00");
    let families = match &report.details {
        Some(d) => terminal_families_for(d, &None, false),
        None => Vec::new(),
    };
    assert_eq!(families.len(), 1);
    assert_eq!(families[0].family, "alimentacao");
    assert_eq!(decimal_text(families[0].total), "-50.00");
    let incomes = match &report.details {
        Some(d) => terminal_families_for(d, &None, true),
        None => Vec::new(),
    };
    let lines = print_cashflow_month_human(&report, &incomes, &families, true, false);
    assert!(lines.iter().any(|l| l.contains("Alimentação")));
    assert!(!cashflow_tui_header_lines(&report, false, 80).is_empty());
    assert_eq!(cashflow_tui_family_rows(&families, 0, 10).len(), 1);
    assert!(!cashflow_tui_detail_lines(&families, 0, 40).is_empty());
    assert!(!cashflow_tui_cards_detail_lines(&empty_cashflow_card_summary(), &Vec::new(), 0, 10)
        .is_empty());
}

#[test]
fn a_paid_bill_shows_what_it_paid_for() {
    let mut card = account("cartao", "credit");
    card.metadata_json = Json::Object(vec![JsonField {
        name: "billing_closing_day".to_string(),
        value: Json::Text("11".to_string()),
    }]);
    let mut part = tx("p", "cartao", day(2026, 5, 2), -900, "lazer");
    part.raw_description = "LOJA 2/10".to_string();
    let other = tx("o", "cartao", day(2026, 5, 3), -100, "lazer");
    let mut payment = tx("pago", "conta", day(2026, 5, 18), -1000, "cartao:fatura");
    payment.raw_description = "Pagamento de fatura".to_string();
    let source = BillSource {
        rows: vec![part, other],
        txs: vec![payment],
        accounts: vec![account("conta", "checking"), card],
        internal: Vec::new(),
        month: "2026-05".to_string(),
        start: day(2026, 5, 1),
    };
    let bills = cashflow_card_bill_details(&source, &vec![0]).ok().unwrap();
    assert_eq!(bills.len(), 1);
    assert_eq!(bills[0].account_id, "cartao");
    assert_eq!(decimal_text(bills[0].bill_total), "10.00");
    assert_eq!(bills[0].payment_transaction_id.as_deref(), Some("pago"));
    assert_eq!(bills[0].installments.transactions, 1);
    assert_eq!(decimal_text(bills[0].installments.subtotal), "-9.00");
    assert_eq!(bills[0].other_categories.len(), 1);
    let summary = cashflow_card_summary(&bills);
    assert_eq!(decimal_text(summary.total), "10.00");
    assert_eq!(decimal_text(summary.installments_total), "9.00");
    assert_eq!(summary.paid_on.len(), 1);
}

fn cents(a: Amount) -> i64 {
    a.exact().replace('.', "").parse().unwrap()
}

#[test]
fn the_parts_of_a_bill_come_to_its_total() {
    let mut card = account("cartao", "credit");
    card.metadata_json = Json::Object(vec![JsonField {
        name: "billing_closing_day".to_string(),
        value: Json::Text("11".to_string()),
    }]);
    let mut part = tx("p", "cartao", day(2026, 5, 2), -901, "lazer");
    part.raw_description = "LOJA 2/10".to_string();
    let subscription = tx("s", "cartao", day(2026, 5, 3), -2_990, "assinaturas:video");
    let mut payment = tx("pago", "conta", day(2026, 5, 18), -4_246, "cartao:fatura");
    payment.raw_description = "Pagamento de fatura".to_string();
    let source = BillSource {
        rows: vec![
            part,
            subscription,
            tx("a", "cartao", day(2026, 5, 3), -105, "lazer"),
            tx("b", "cartao", day(2026, 5, 4), -200, "casa"),
            tx("c", "cartao", day(2026, 5, 5), -50, "lazer"),
        ],
        txs: vec![payment],
        accounts: vec![account("conta", "checking"), card],
        internal: Vec::new(),
        month: "2026-05".to_string(),
        start: day(2026, 5, 1),
    };
    let bills = cashflow_card_bill_details(&source, &vec![0]).ok().unwrap();
    let b = &bills[0];
    assert_eq!(cents(b.bill_total), 4_246);
    assert_eq!(b.other_categories.len(), 2);
    let others: i64 = b.other_categories.iter().map(|g| cents(g.subtotal)).sum();
    assert_eq!(others, -355);
    assert_eq!(
        cents(b.installments.subtotal) + cents(b.subscriptions.subtotal) + others,
        -cents(b.bill_total)
    );
}

#[test]
fn families_hold_what_was_spent_before() {
    let now = CashflowDetailSections {
        income: Vec::new(),
        expenses: vec![group("moradia:luz", 30), group("moradia:agua", 70)],
        card_bills: Vec::new(),
        forecast: Vec::new(),
    };
    let before = CashflowDetailSections {
        income: Vec::new(),
        expenses: vec![group("moradia:luz", 10)],
        card_bills: Vec::new(),
        forecast: Vec::new(),
    };
    let families = terminal_families_for(&now, &Some(before), false);
    assert_eq!(families.len(), 1);
    assert_eq!(decimal_text(families[0].total), "100.00");
    assert_eq!(decimal_text(families[0].previous), "10.00");
    assert_eq!(families[0].subcategories.len(), 2);
    assert_eq!(families[0].subcategories[0].subcategory, "agua");
    assert_eq!(category_family_key("moradia:luz"), "moradia");
    assert_eq!(category_subcategory_key("moradia:luz"), "luz");
}

#[test]
fn no_bills_make_an_empty_summary() {
    let s = cashflow_card_summary(&Vec::new());
    assert!(s.total.is_zero());
    assert_eq!(s.paid_on.len(), 0);
    assert!(needs_details(false, true));
    assert!(!needs_details(false, false));
}

#[test]
fn change_is_told_in_percent() {
    assert_eq!(cashflow_tui_change_text(&whole(150), &whole(100)), "+50%");
    assert_eq!(cashflow_tui_change_text(&whole(50), &whole(100)), "-50%");
    assert_eq!(share_pct(&whole(1), &whole(4)), 25);
    assert_eq!(
        cashflow_tui_change_style(&whole(150), &whole(100)).fg,
        cashflow_tui_change_style(&whole(101), &whole(100)).fg
    );
    assert_ne!(
        cashflow_tui_change_style(&whole(150), &whole(100)).fg,
        Color::Rgb(0, 0, 0)
    );
}

#[test]
fn terminal_words() {
    assert_eq!(green("x"), "\u{1b}[32mx\u{1b}[0m");
    assert_eq!(display_token("cartao-credito"), "cartao credito");
    assert_eq!(
        signed_money_color(whole(-5)),
        "\u{1b}[31m-R$ 5,00\u{1b}[0m"
    );
    assert_eq!(cashflow_header_suffix(false, false), "");
    assert_eq!(cashflow_accounts_label(1), "1 conta corrente");
    assert_eq!(cashflow_accounts_label(2), "2 contas correntes");
    assert_eq!(optional_balance_label(None), "—");
    assert!(!cashflow_tui_footer(CashflowTuiTab::Cards).is_empty());
    let state = CashflowTuiState::default();
    assert_eq!(cashflow_tui_selected(&state, 0, 2), 0);
    let mut r = row("2026-05", 10, 4);
    r.opening_balance = Some(whole(100));
    r.closing_balance = Some(whole(106));
    assert_eq!(
        print_cashflow_human(&r, 2, &Some(day(2026, 5, 3))),
        list(&[
            "💵 *Caixa · mai/2026*",
            "",
            "  Saldo inicial   R$ 100,00",
            "  Entradas      + R$ 10,00",
            "  Saídas        − R$ 4,00",
            "  ─────────────────────────────",
            "  Saldo final     R$ 106,00   (Δ +R$ 6,00)",
            "",
            "  _2 contas correntes · âncora: snapshot 03/mai_",
        ])
    );
}

#[test]
fn arguments_choose_the_report() {
    let args = CashflowArgs {
        details: false,
        tui: false,
        forecast: false,
        structured: false,
    };
    let effective = cashflow_effective_details(&args);
    assert!(cashflow_uses_month_report(&args, effective) || !effective);
    let structured = CashflowArgs {
        structured: true,
        ..args
    };
    assert!(!cashflow_should_show_progress(
        &structured,
        cashflow_effective_details(&structured)
    ));
    assert_eq!(
        cashflow_month_arg(&None, &day(2026, 5, 3)),
        Ok("2026-05".to_string())
    );
}

#[test]
fn scenario_projects_a_month() {
    let plan = plan_scenario(None, &day(2026, 5, 10), 3).ok().unwrap();
    assert_eq!(plan.target_month, "2026-05");
    assert_eq!(plan.current_month, "2026-05");
    assert_eq!(plan.carryover_month, "2026-04");
    let ahead = plan_scenario(Some("2026-06"), &day(2026, 5, 10), 3).ok().unwrap();
    assert_eq!(ahead.target_month, "2026-06");
    assert_eq!(ahead.current_month, "2026-05");
    assert_eq!(ahead.carryover_month, "2026-05");
    let base = baseline_rows(
        vec![
            row("2026-05", 9, 9),
            row("2026-04", 100, 40),
            row("2026-03", 200, 60),
        ],
        &plan,
    );
    assert_eq!(base.len(), 2);
    let out = project(
        &plan,
        &base,
        &vec![whole(70)],
        &vec![whole(10)],
        Amount::none(),
        Amount::none(),
    )
    .ok()
    .unwrap();
    assert_eq!(decimal_text(out.avg_income), "150.00");
    assert_eq!(decimal_text(out.avg_expenses), "50.00");
    assert_eq!(decimal_text(out.planning_expenses), "70.00");
    assert_eq!(decimal_text(out.projected_net), "80.00");
    assert_eq!(decimal_text(out.projected_cash_after_card_carry), "70.00");
    assert!(out.looks_ok_after_card_carry);
}

#[test]
fn months_and_plans_are_listed() {
    let spend = vec![MonthlySpendRow {
        month_ref: "2026-05".to_string(),
        category_id: "moradia:luz".to_string(),
        expenses: whole(-30),
        expense_count: 1,
    }];
    let lines = print_monthly_spend_human(&spend, &Some("2026-05".to_string()));
    assert!(lines.iter().any(|l| l.contains("Moradia")));
    let plans = vec![planned("aluguel", "moradia:aluguel", -1000, -900, "planned")];
    assert_eq!(
        print_forecast_vs_actual_human(&plans, &Some("2026-05".to_string())),
        list(&[
            "📊 *Previsto vs Realizado · mai/2026*",
            "",
            "🏠 *Moradia*",
            "  aluguel (20/05) ⚠\u{fe0f}  previsto R$ 1.000,00  realizado R$ 900,00  variação -R$ 100,00",
            "",
            "*Total*  previsto R$ 1.000,00  realizado R$ 900,00  variação -R$ 100,00",
        ])
    );
    assert_eq!(
        forecast_indicator(&whole(100), &whole(100), &Amount::none()),
        "✅"
    );
    assert_eq!(
        forecast_indicator(&whole(100), &whole(90), &whole(-10)),
        "⚠️"
    );
    assert_eq!(
        forecast_indicator(&whole(100), &whole(80), &whole(-20)),
        "✅"
    );
    assert_eq!(
        forecast_indicator(&whole(100), &whole(130), &whole(30)),
        "🔻"
    );
    assert_eq!(forecast_due_label(&Some(day(2026, 5, 3))), "(03/05)");
    assert_eq!(forecast_due_label(&None), "");
}
