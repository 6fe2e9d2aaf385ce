use phai::amount::amount_from_text;
use phai::cashflow::month_bounds;
use phai::dashboard::{dismiss_template, read_request};
use phai::date::{iso, Date};
use phai::draft::HumanReviewPatch;
use phai::listings::{ensure_bigquery_split_backend, inspect_rule, parse_since, BackendKind};
use phai::metadata::{Json, JsonField};
use phai::money::decimal_text;
use phai::ofx::prepare_ofx;
use phai::review_save::plan_human_review;
use phai::scenario::{plan_scenario, project};
use phai::summary::sync_output;
use phai::transactions::{check_anatomy, read_manual_entry, ManualEntry};

fn day(y: i32, m: u32, d: u32) -> Date {
    Date::from_ymd_opt(y, m, d).unwrap()
}

fn asked(fields: &[(&str, &str)]) -> Json {
    Json::Object(
        fields
            .iter()
            .map(|(name, value)| JsonField {
                name: name.to_string(),
                value: Json::Text(value.to_string()),
            })
            .collect(),
    )
}

fn refused(kind: &str, fields: &[(&str, &str)]) -> String {
    read_request(kind, &asked(fields)).err().unwrap()
}

#[test]
fn amounts_are_refused() {
    assert_eq!(
        amount_from_text("dez").map(decimal_text),
        Err("valor inválido: dez".to_string())
    );
}

#[test]
fn months_are_refused() {
    assert_eq!(
        month_bounds("2026").map(|(a, _)| iso(&a)),
        Err("month inválido: 2026 (esperado YYYY-MM)".to_string())
    );
    assert_eq!(
        plan_scenario(Some("junho"), &day(2026, 5, 10), 3).err(),
        Some("month inválido: junho (esperado YYYY-MM)".to_string())
    );
    assert_eq!(
        parse_since(&Some("ontem".to_string())).map(|d| d.map(|d| iso(&d))),
        Err("since inválido; use YYYY-MM-DD".to_string())
    );
}

#[test]
fn a_scenario_needs_a_history() {
    let plan = plan_scenario(Some("2026-06"), &day(2026, 5, 10), 3)
        .ok()
        .unwrap();
    let none = phai::amount::Amount::none();
    let out = project(&plan, &Vec::new(), &Vec::new(), &Vec::new(), none, none);
    assert_eq!(
        out.err(),
        Some(
            "Não há meses históricos suficientes antes de 2026-06 para calcular cenário"
                .to_string()
        )
    );
}

#[test]
fn requests_are_refused() {
    assert_eq!(refused("get_transactions", &[]), "from é obrigatório");
    assert_eq!(
        refused("get_transactions", &[("from", "2026-05-01")]),
        "to é obrigatório"
    );
    assert_eq!(
        refused("get_transactions", &[("from", "x"), ("to", "y")]),
        "from inválido (use YYYY-MM-DD)"
    );
    assert_eq!(
        refused("get_transactions", &[("from", "2026-05-01"), ("to", "y")]),
        "to inválido (use YYYY-MM-DD)"
    );
    assert_eq!(
        refused("dismiss_template", &[]),
        "template_id é obrigatório"
    );
    assert_eq!(
        dismiss_template("t", &None),
        Err("template não encontrado: t".to_string())
    );
}

#[test]
fn statements_are_refused() {
    assert_eq!(
        prepare_ofx("<STMTTRN>", -1).err(),
        Some("date_tolerance_days deve ser >= 0".to_string())
    );
    assert_eq!(
        prepare_ofx("", 0).err(),
        Some("Nenhuma transação <STMTTRN> encontrada no OFX".to_string())
    );
}

#[test]
fn reviews_are_refused() {
    let mut patch = HumanReviewPatch {
        description: None,
        merchant_name: None,
        purpose: None,
        category_id: None,
    };
    assert_eq!(
        plan_human_review("t", &patch, None, "u").err(),
        Some("Informe ao menos um campo humano ou categoria para salvar".to_string())
    );
    patch.purpose = Some("casa".to_string());
    assert_eq!(
        plan_human_review("t", &patch, None, "u").err(),
        Some("Transação t não encontrada".to_string())
    );
}

#[test]
fn entries_are_refused() {
    let entry = |date: &str, amount: &str| ManualEntry {
        transaction_id: None,
        account_id: None,
        date: date.to_string(),
        description: "x".to_string(),
        amount: amount.to_string(),
        category_key: None,
        context: None,
        payment_status: "posted".to_string(),
    };
    assert_eq!(
        read_manual_entry(entry("ontem", "dez"), "1", "eu", "k").err(),
        Some("date inválida".to_string())
    );
    assert_eq!(
        read_manual_entry(entry("2026-05-01", "dez"), "1", "eu", "k").err(),
        Some("valor inválido: dez".to_string())
    );
    assert_eq!(
        check_anatomy(&None, &None, &None, &None),
        Err(
            "Informe ao menos um campo: --description, --merchant-name, --purpose ou --classifier-trace"
                .to_string()
        )
    );
}

#[test]
fn commands_are_refused() {
    assert_eq!(
        inspect_rule(&Vec::new(), "z"),
        Err("Rule z não encontrada".to_string())
    );
    assert_eq!(
        ensure_bigquery_split_backend(BackendKind::Local),
        Err("transaction split/detailing is supported only on the BigQuery backend".to_string())
    );
    assert_eq!(
        sync_output(true, true),
        Err("Use apenas uma saída de resumo: --json-summary ou --notify-summary".to_string())
    );
}
