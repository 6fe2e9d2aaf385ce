use phai::amount::Amount;
use phai::date::{days_in_month, last_three_closed_months, Date};
use phai::human::pretty_category_label;
use phai::metadata::Json;
use phai::money::decimal_text;
use phai::pulse::{
    compute_closing_plan, upcoming_window, CategoryMean, CategorySpend, ClosingStatus, PulseData,
};
use phai::pulse_text::{br_date_header, card_account_label, card_due_label, render_pulse};
use phai::records::AccountRecord;
use phai::scenario::CashflowRow;

fn day(y: i32, m: u32, d: u32) -> Date {
    Date::from_ymd_opt(y, m, d).unwrap()
}

fn whole(n: i64) -> Amount {
    Amount::new(n, 0)
}

fn cf(month: &str, income: i64, expenses: i64) -> CashflowRow {
    CashflowRow {
        month_ref: month.into(),
        income: whole(income),
        expenses: whole(expenses),
        expense_reduction: Amount::none(),
        net: whole(income - expenses),
        opening_balance: None,
        closing_balance: None,
    }
}

fn data(today: Date, mtd: CashflowRow, usual: CashflowRow, upcoming: i64) -> PulseData {
    PulseData {
        today,
        mtd,
        baseline_t3m: usual,
        current_by_category: Vec::new(),
        baseline_by_category: Vec::new(),
        upcoming: Vec::new(),
        upcoming_total: whole(upcoming),
        cards: Vec::new(),
        accounts: Vec::new(),
        budget_alerts: Vec::new(),
        uncategorized_count: 0,
    }
}

#[test]
fn days_in_month_handles_feb_leap_and_dec() {
    assert_eq!(days_in_month(&day(2024, 2, 15)), 29);
    assert_eq!(days_in_month(&day(2025, 2, 15)), 28);
    assert_eq!(days_in_month(&day(2026, 12, 1)), 31);
}

#[test]
fn last_three_closed_months_wraps_year() {
    let today = day(2026, 2, 10);
    assert_eq!(
        last_three_closed_months(&today),
        [
            "2026-01".to_string(),
            "2025-12".to_string(),
            "2025-11".to_string()
        ]
    );
}

#[test]
fn closing_plan_on_track_when_projected_positive() {
    let data = data(
        day(2026, 5, 5),
        cf("2026-05", 5000, 1000),
        cf("T3M", 20000, 15000),
        2000,
    );
    let plan = compute_closing_plan(&data);
    assert!(matches!(plan.status, ClosingStatus::OnTrack));
    assert!(plan.projected_eom_net.is_above_zero());
}

#[test]
fn closing_plan_stretched_when_fixed_exceeds_income() {
    let data = data(
        day(2026, 5, 5),
        cf("2026-05", 2000, 1000),
        cf("T3M", 10000, 15000),
        20000,
    );
    let plan = compute_closing_plan(&data);
    assert!(matches!(plan.status, ClosingStatus::Stretched));
}

#[test]
fn closing_plan_flags_category_overspend() {
    let mut data = data(
        day(2026, 5, 15),
        cf("2026-05", 5000, 1000),
        cf("T3M", 20000, 15000),
        0,
    );
    data.current_by_category.push(CategorySpend {
        category_id: "alimentacao:mercado".to_string(),
        amount: whole(1000),
        count: 8,
    });
    data.baseline_by_category.push(CategoryMean {
        category_id: "alimentacao:mercado".to_string(),
        amount: whole(1000),
    });
    let plan = compute_closing_plan(&data);
    assert_eq!(plan.categories_to_brake.len(), 1);
    let over = &plan.categories_to_brake[0];
    assert_eq!(over.category_id, "alimentacao:mercado");
    assert!(over.over.is_above_zero());
}

#[test]
fn pretty_category_label_handles_hierarchy() {
    assert_eq!(
        pretty_category_label("alimentacao:mercado"),
        "Alimentação · Mercado"
    );
    assert_eq!(pretty_category_label("moradia"), "Moradia");
}

#[test]
fn render_pulse_contains_headline_blocks() {
    let mut data = data(
        day(2026, 5, 10),
        cf("2026-05", 10000, 7000),
        cf("T3M", 20000, 18000),
        0,
    );
    data.uncategorized_count = 3;
    let plan = compute_closing_plan(&data);
    let rendered = render_pulse(&data, &plan, 1);
    assert!(rendered.contains("Pulso"));
    assert!(rendered.contains("Mês até dia"));
    assert!(rendered.contains("sem categoria"));
}

#[test]
fn closing_plan_computes_the_projection() {
    let data = data(
        day(2026, 5, 5),
        cf("2026-05", 5000, 1000),
        cf("T3M", 20000, 15000),
        2000,
    );
    let plan = compute_closing_plan(&data);
    assert_eq!(plan.days_left, 26);
    assert_eq!(plan.weeks_left, 4);
    assert_eq!(decimal_text(plan.projected_eom_net), "6096.77");
}

#[test]
fn overspend_is_told_in_percent() {
    let mut data = data(
        day(2026, 5, 15),
        cf("2026-05", 5000, 1000),
        cf("T3M", 20000, 15000),
        0,
    );
    data.current_by_category.push(CategorySpend {
        category_id: "lazer".to_string(),
        amount: whole(1500),
        count: 1,
    });
    data.baseline_by_category.push(CategoryMean {
        category_id: "lazer".to_string(),
        amount: whole(1000),
    });
    let plan = compute_closing_plan(&data);
    assert_eq!(plan.categories_to_brake[0].over_pct, 50);
    assert_eq!(decimal_text(plan.categories_to_brake[0].over), "500.00");
}

#[test]
fn upcoming_payments_end_with_the_month() {
    let (first, last) = upcoming_window(&day(2026, 5, 10)).unwrap();
    assert!(first.is_same_day(&day(2026, 5, 11)));
    assert!(last.is_same_day(&day(2026, 5, 31)));
    assert!(upcoming_window(&day(2026, 5, 31)).is_none());
}

#[test]
fn cards_are_named_by_their_account() {
    let account = AccountRecord {
        account_id: "nu".to_string(),
        owner: "aline".to_string(),
        account_type: "credit".to_string(),
        bank: "nubank".to_string(),
        label: "Nubank".to_string(),
        pluggy_account_id: None,
        pluggy_item_id: None,
        status: "active".to_string(),
        actor_id: "eu".to_string(),
        idempotency_key: String::new(),
        metadata_json: Json::Null,
    };
    let accounts = vec![account];
    assert!(card_account_label(&accounts, "nu").contains("Nubank"));
    assert_eq!(
        card_due_label(&accounts, "nu", "2026-05", &day(2026, 5, 1)),
        None
    );
    assert!(br_date_header(&day(2026, 5, 1)).contains("01"));
}

fn spent(amount: i64, usual: i64) -> PulseData {
    let mut d = data(
        day(2026, 5, 15),
        cf("2026-05", 5000, 1150),
        cf("T3M", 20000, 15000),
        0,
    );
    d.current_by_category.push(CategorySpend {
        category_id: "lazer:cinema".to_string(),
        amount: whole(amount),
        count: 1,
    });
    d.baseline_by_category.push(CategoryMean {
        category_id: "lazer:cinema".to_string(),
        amount: whole(usual),
    });
    d
}

#[test]
fn a_tenth_and_fifty_above_the_mean_are_flagged() {
    let plan = compute_closing_plan(&spent(1150, 1000));
    assert_eq!(plan.categories_to_brake.len(), 1);
    assert_eq!(plan.categories_to_brake[0].category_id, "lazer:cinema");
    assert_eq!(decimal_text(plan.categories_to_brake[0].over), "150.00");
    assert_eq!(plan.categories_to_brake[0].over_pct, 15);
    assert_eq!(compute_closing_plan(&spent(1100, 1000)).categories_to_brake.len(), 1);
    assert_eq!(compute_closing_plan(&spent(1099, 1000)).categories_to_brake.len(), 0);
    assert_eq!(compute_closing_plan(&spent(150, 100)).categories_to_brake.len(), 1);
    assert_eq!(compute_closing_plan(&spent(149, 100)).categories_to_brake.len(), 0);
}

#[test]
fn a_month_known_to_close_below_zero_is_stretched() {
    let d = data(
        day(2026, 5, 30),
        cf("2026-05", 100, 7200),
        cf("T3M", 100, 15000),
        0,
    );
    let plan = compute_closing_plan(&d);
    assert_eq!(plan.status, ClosingStatus::Stretched);
    assert!(plan.max_weekly_variable_for_zero.is_none());
    assert_eq!(decimal_text(plan.projected_eom_net), "-7583.87");
}
