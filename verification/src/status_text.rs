//! What the health of the data, a scenario and a sync say in words.

use crate::amount::negated;
use crate::health::{
    check_views, count_problems, problem_count, HealthCheck, OverlapCandidate,
};
use crate::listings::BackendKind;
use crate::money::{brl, brl_text};
use crate::scenario::ScenarioOutput;
use crate::summary::EnrichStep;
use crate::text::{
    chars, digits, from_chars, glue, glue3, join, joined, number, push_text, put, texts,
};
use crate::transactions::{get_or, text_or};
use vstd::prelude::*;

verus! {

// ---------------------------------------------------------------------------
// The health of the data

/// A check on one line.
pub open spec fn check_line(c: (u8, Seq<char>, Seq<char>)) -> Seq<char> {
    c.1 + " "@ + c.2
}

/// A transaction that may be stored twice, on one line.
pub open spec fn overlap_line(c: OverlapCandidate) -> Seq<char> {
    "  "@ + text_or(c.account_id, "sem-conta"@) + " · legacy "@ + c.legacy_date@ + " · pluggy "@
        + c.pluggy_date@
}

/// The overlaps under their heading; nothing where there are none.
pub open spec fn overlap_section(list: Seq<OverlapCandidate>) -> Seq<Seq<char>> {
    if list.len() == 0 {
        Seq::empty()
    } else {
        seq![""@, "*Sobreposições detectadas:*"@] + list.map_values(
            |c: OverlapCandidate| overlap_line(c),
        )
    }
}

/// The report on the health of the data.
pub open spec fn health_text(
    checks: Seq<(u8, Seq<char>, Seq<char>)>,
    overlaps: Seq<OverlapCandidate>,
) -> Seq<Seq<char>> {
    let problems = problem_count(checks);
    seq!["🩹 *Saúde dos dados*"@, ""@] + (if problems == 0 {
        seq!["✅ Tudo certo · "@ + digits(checks.len()) + " verificações."@]
    } else {
        checks.map_values(|c: (u8, Seq<char>, Seq<char>)| check_line(c)) + overlap_section(overlaps)
            + seq![
            ""@,
            digits(problems) + " problema(s) em "@ + digits(checks.len()) + " verificações."@,
        ]
    })
}

fn make_overlap_line(c: &OverlapCandidate) -> (r: String)
    ensures
        r@ == overlap_line(*c),
{
    let mut out = chars("  ");
    put(&mut out, get_or(&c.account_id, "sem-conta"));
    put(&mut out, " · legacy ");
    put(&mut out, c.legacy_date.as_str());
    put(&mut out, " · pluggy ");
    put(&mut out, c.pluggy_date.as_str());
    from_chars(&out)
}

fn push_checks(out: &mut Vec<String>, checks: &Vec<HealthCheck>)
    ensures
        texts(final(out)@) == texts(old(out)@) + check_views(checks@).map_values(
            |c: (u8, Seq<char>, Seq<char>)| check_line(c),
        ),
{
    let ghost head = texts(out@);
    let ghost want = check_views(checks@).map_values(
        |c: (u8, Seq<char>, Seq<char>)| check_line(c),
    );
    let mut i: usize = 0;
    assert(head + want.take(0) =~= head);
    while i < checks.len()
        invariant
            i <= checks.len(),
            want == check_views(checks@).map_values(
                |c: (u8, Seq<char>, Seq<char>)| check_line(c),
            ),
            texts(out@) == head + want.take(i as int),
        decreases checks.len() - i,
    {
        assert(check_views(checks@)[i as int] == checks@[i as int]@);
        push_text(out, glue3(checks[i].emoji.as_str(), " ", checks[i].description.as_str()));
        i = i + 1;
        assert(texts(out@) =~= head + want.take(i as int));
    }
    assert(want.take(i as int) =~= want);
}

fn push_overlaps(out: &mut Vec<String>, list: &Vec<OverlapCandidate>)
    ensures
        texts(final(out)@) == texts(old(out)@) + overlap_section(list@),
{
    let ghost start = texts(out@);
    if list.len() == 0 {
        assert(start + overlap_section(list@) =~= start);
        return;
    }
    push_text(out, "".to_string());
    push_text(out, "*Sobreposições detectadas:*".to_string());
    let ghost head = texts(out@);
    let ghost want = list@.map_values(|c: OverlapCandidate| overlap_line(c));
    let mut i: usize = 0;
    assert(head + want.take(0) =~= head);
    while i < list.len()
        invariant
            i <= list.len(),
            want == list@.map_values(|c: OverlapCandidate| overlap_line(c)),
            texts(out@) == head + want.take(i as int),
        decreases list.len() - i,
    {
        push_text(out, make_overlap_line(&list[i]));
        i = i + 1;
        assert(texts(out@) =~= head + want.take(i as int));
    }
    assert(want.take(i as int) =~= want);
    assert(texts(out@) =~= start + overlap_section(list@));
}

/// The report on the health of the data: the checks, worst first, and what may be stored
/// twice; a single line where all is well.
pub fn tell_health(checks: &Vec<HealthCheck>, overlaps: &Vec<OverlapCandidate>) -> (r: Vec<String>)
    ensures
        texts(r@) == health_text(check_views(checks@), overlaps@),
{
    let problems = count_problems(checks);
    let total = number(checks.len() as u64);
    assert(check_views(checks@).len() == checks@.len());
    let mut out: Vec<String> = Vec::new();
    assert(texts(out@) =~= Seq::<Seq<char>>::empty());
    push_text(&mut out, "🩹 *Saúde dos dados*".to_string());
    push_text(&mut out, "".to_string());
    if problems == 0 {
        push_text(&mut out, glue3("✅ Tudo certo · ", total.as_str(), " verificações."));
    } else {
        push_checks(&mut out, checks);
        push_overlaps(&mut out, overlaps);
        push_text(&mut out, "".to_string());
        let mut last = chars(number(problems as u64).as_str());
        put(&mut last, " problema(s) em ");
        put(&mut last, total.as_str());
        put(&mut last, " verificações.");
        push_text(&mut out, from_chars(&last));
    }
    assert(texts(out@) =~= health_text(check_views(checks@), overlaps@));
    out
}

// ---------------------------------------------------------------------------
// A scenario

/// The verdict on a scenario.
pub open spec fn verdict(ok: bool) -> Seq<char> {
    if ok {
        "fica positivo"@
    } else {
        "fica pressionado / negativo"@
    }
}

/// A scenario in words. Expenses are shown as money that leaves.
pub open spec fn scenario_text(x: ScenarioOutput) -> Seq<Seq<char>> {
    seq![
        "Scenario "@ + x.target_month@,
        "- baseline meses: "@ + joined(texts(x.baseline_months@), ", "@),
        "- média entradas: "@ + brl_text(x.avg_income),
        "- média saídas: "@ + brl_text(negated(x.avg_expenses)),
        "- média líquida: "@ + brl_text(x.avg_net),
        "- despesas de planejamento: "@ + brl_text(negated(x.planning_expenses)),
        "- forecast conhecido: "@ + brl_text(negated(x.known_forecast_expenses)) + " em "@ + digits(
            x.known_forecast_count as nat,
        ) + " itens"@,
        "- faturas em aberto carregadas de "@ + x.carryover_open_card_month@ + ": "@ + brl_text(
            negated(x.carryover_open_card_amount),
        ),
        "- ajuste manual de receita: "@ + brl_text(x.extra_income),
        "- ajuste manual de despesa: "@ + brl_text(negated(x.extra_expense)),
        "- líquido projetado: "@ + brl_text(x.projected_net),
        "- caixa após carregar cartões em aberto: "@ + brl_text(x.projected_cash_after_card_carry),
        "- parecer: "@ + verdict(x.looks_ok_after_card_carry),
    ]
}

/// A scenario in words.
pub fn tell_scenario(x: &ScenarioOutput) -> (r: Vec<String>)
    ensures
        texts(r@) == scenario_text(*x),
{
    let mut out: Vec<String> = Vec::new();
    assert(texts(out@) =~= Seq::<Seq<char>>::empty());
    push_text(&mut out, glue("Scenario ", x.target_month.as_str()));
    push_text(&mut out, glue("- baseline meses: ", join(&x.baseline_months, ", ").as_str()));
    push_text(&mut out, glue("- média entradas: ", brl(x.avg_income).as_str()));
    push_text(&mut out, glue("- média saídas: ", brl(x.avg_expenses.neg()).as_str()));
    push_text(&mut out, glue("- média líquida: ", brl(x.avg_net).as_str()));
    push_text(
        &mut out,
        glue("- despesas de planejamento: ", brl(x.planning_expenses.neg()).as_str()),
    );
    let mut known = chars("- forecast conhecido: ");
    put(&mut known, brl(x.known_forecast_expenses.neg()).as_str());
    put(&mut known, " em ");
    put(&mut known, number(x.known_forecast_count as u64).as_str());
    put(&mut known, " itens");
    push_text(&mut out, from_chars(&known));
    let mut carried = chars("- faturas em aberto carregadas de ");
    put(&mut carried, x.carryover_open_card_month.as_str());
    put(&mut carried, ": ");
    put(&mut carried, brl(x.carryover_open_card_amount.neg()).as_str());
    push_text(&mut out, from_chars(&carried));
    push_text(&mut out, glue("- ajuste manual de receita: ", brl(x.extra_income).as_str()));
    push_text(&mut out, glue("- ajuste manual de despesa: ", brl(x.extra_expense.neg()).as_str()));
    push_text(&mut out, glue("- líquido projetado: ", brl(x.projected_net).as_str()));
    push_text(
        &mut out,
        glue(
            "- caixa após carregar cartões em aberto: ",
            brl(x.projected_cash_after_card_carry).as_str(),
        ),
    );
    push_text(
        &mut out,
        glue(
            "- parecer: ",
            if x.looks_ok_after_card_carry {
                "fica positivo"
            } else {
                "fica pressionado / negativo"
            },
        ),
    );
    assert(texts(out@) =~= scenario_text(*x));
    out
}

// ---------------------------------------------------------------------------
// A sync

/// What a sync stored.
pub struct SyncCounts {
    pub accounts: usize,
    pub transactions: usize,
    pub categories: usize,
    /// How many transactions were not known before.
    pub fresh: usize,
}

/// A backend by name.
pub open spec fn backend_text(b: BackendKind) -> Seq<char> {
    match b {
        BackendKind::Local => "Local"@,
        BackendKind::Bigquery => "Bigquery"@,
    }
}

/// What is said of the enrichment that follows a sync; nothing where it runs, since it
/// reports by itself.
pub open spec fn enrich_text(step: EnrichStep) -> Seq<Seq<char>> {
    match step {
        EnrichStep::Skipped => seq!["Enrichment automático: pulado (--no-enrich)."@],
        EnrichStep::NothingNew => seq![
            "Enrichment automático: sem transações novas para processar."@,
        ],
        EnrichStep::Run { .. } => Seq::empty(),
    }
}

/// A sync in words.
pub open spec fn sync_text(
    c: SyncCounts,
    actor: Seq<char>,
    backend: BackendKind,
    step: EnrichStep,
) -> Seq<Seq<char>> {
    seq![
        "Sync Pluggy concluído:"@,
        "- accounts: "@ + digits(c.accounts as nat),
        "- transactions: "@ + digits(c.transactions as nat),
        "- categories: "@ + digits(c.categories as nat),
        "- actor: "@ + actor,
        "- backend: "@ + backend_text(backend),
        "Sincronização concluída: "@ + digits(c.fresh as nat) + " transações novas"@,
    ] + enrich_text(step)
}

/// A sync in words.
pub fn tell_sync(c: &SyncCounts, actor: &str, backend: BackendKind, step: EnrichStep) -> (r: Vec<
    String,
>)
    ensures
        texts(r@) == sync_text(*c, actor@, backend, step),
{
    let mut out: Vec<String> = Vec::new();
    assert(texts(out@) =~= Seq::<Seq<char>>::empty());
    push_text(&mut out, "Sync Pluggy concluído:".to_string());
    push_text(&mut out, glue("- accounts: ", number(c.accounts as u64).as_str()));
    push_text(&mut out, glue("- transactions: ", number(c.transactions as u64).as_str()));
    push_text(&mut out, glue("- categories: ", number(c.categories as u64).as_str()));
    push_text(&mut out, glue("- actor: ", actor));
    push_text(
        &mut out,
        glue(
            "- backend: ",
            match backend {
                BackendKind::Local => "Local",
                BackendKind::Bigquery => "Bigquery",
            },
        ),
    );
    push_text(
        &mut out,
        glue3("Sincronização concluída: ", number(c.fresh as u64).as_str(), " transações novas"),
    );
    match step {
        EnrichStep::Skipped => {
            push_text(&mut out, "Enrichment automático: pulado (--no-enrich).".to_string());
        },
        EnrichStep::NothingNew => {
            push_text(
                &mut out,
                "Enrichment automático: sem transações novas para processar.".to_string(),
            );
        },
        EnrichStep::Run { .. } => {},
    }
    assert(texts(out@) =~= sync_text(*c, actor@, backend, step));
    out
}

} // verus!
