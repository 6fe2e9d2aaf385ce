//! The reports on a month: what was spent, and how the forecast compares with it.

use crate::amount::{
    abs, from_signed, limit, magnitude, negated, one, quotient, sum_of, times, Amount,
};
use crate::cashflow::ForecastVsActualRow;
use crate::date::Date;
use crate::human::{
    bold, bold_text, category_emoji, category_family, day_month, day_month_text, emoji_of,
    family_label, family_of, label_of_family, month_label, month_name, reais, reais_text,
    whole_number, whole_number_text,
};
use crate::money::{brl_signed, brl_signed_text};
use crate::order::{as_ints, find_positions, lemma_positions, positions, sorted_keys};
use crate::pulse::MonthlySpendRow;
use crate::ranking::{
    find_share, placed, rank, rank_at, ranked, ranked_at, share_fits, share_of, total_by_key,
    totals_by, Placed,
};
use crate::sums::{full_weight, scaled_by, shared_by, total_of_all};
use crate::text::{
    chars, from_chars, glue, glue3, has_prefix, push_text, put, replace_char, replaced,
    slice_chars, starts_with, texts,
};
use vstd::prelude::*;

verus! {

/// The month that a report is about: the one asked for, else that of the first row.
pub open spec fn month_shown(month: Option<String>, first: Option<Seq<char>>) -> Seq<char> {
    match (month, first) {
        (Some(m), _) => month_name(m@),
        (None, Some(f)) => month_name(f),
        (None, None) => "—"@,
    }
}

fn show_month(month: &Option<String>, first: Option<&str>) -> (r: String)
    ensures
        r@ == month_shown(
            *month,
            match first {
                Some(f) => Some(f@),
                None => None,
            },
        ),
{
    match (month, first) {
        (Some(m), _) => month_label(m.as_str()),
        (None, Some(f)) => month_label(f),
        (None, None) => "—".to_string(),
    }
}

/// The family that a row is listed under.
pub open spec fn listed_family(id: Option<Seq<char>>) -> Seq<char> {
    match id {
        Some(s) => match family_of(s) {
            Some(f) => f,
            None => "outros"@,
        },
        None => "outros"@,
    }
}

fn find_family(id: Option<&str>) -> (r: String)
    ensures
        r@ == listed_family(
            match id {
                Some(s) => Some(s@),
                None => None,
            },
        ),
{
    match id {
        Some(s) => match category_family(s) {
            Some(f) => f,
            None => "outros".to_string(),
        },
        None => "outros".to_string(),
    }
}

// ---------------------------------------------------------------------------
// Spending

/// Whether a row is listed: payments between own accounts are not.
pub open spec fn is_listed(row: MonthlySpendRow) -> bool {
    !has_prefix(row.category_id@, "financeiro-pagamento-recebido"@)
}

/// The families, the categories and the amounts of the rows that are listed.
pub open spec fn listed_families(rows: Seq<MonthlySpendRow>) -> Seq<Seq<char>>
    decreases rows.len(),
{
    if rows.len() == 0 {
        Seq::empty()
    } else if is_listed(rows.last()) {
        listed_families(rows.drop_last()).push(listed_family(Some(rows.last().category_id@)))
    } else {
        listed_families(rows.drop_last())
    }
}

pub open spec fn listed_categories(rows: Seq<MonthlySpendRow>) -> Seq<Seq<char>>
    decreases rows.len(),
{
    if rows.len() == 0 {
        Seq::empty()
    } else if is_listed(rows.last()) {
        listed_categories(rows.drop_last()).push(rows.last().category_id@)
    } else {
        listed_categories(rows.drop_last())
    }
}

pub open spec fn listed_amounts(rows: Seq<MonthlySpendRow>) -> Seq<Amount>
    decreases rows.len(),
{
    if rows.len() == 0 {
        Seq::empty()
    } else if is_listed(rows.last()) {
        listed_amounts(rows.drop_last()).push(negated(rows.last().expenses))
    } else {
        listed_amounts(rows.drop_last())
    }
}

/// A category without its family: what stands behind it and a colon or a dash.
pub open spec fn sub_label(id: Seq<char>, family: Seq<char>) -> Seq<char> {
    let n = family.len() as int;
    let rest = if has_prefix(id, family) && id.len() > n && (id[n] == ':' || id[n] == '-') {
        id.skip(n + 1)
    } else {
        id
    };
    replaced(replaced(rest, ':', " > "@), '-', " "@)
}

fn make_sub_label(id: &str, family: &str) -> (r: String)
    ensures
        r@ == sub_label(id@, family@),
{
    let v = chars(id);
    let f = chars(family);
    let n: usize = f.len();
    let behind = starts_with(id, family) && v.len() > n && (v[n] == ':' || v[n] == '-');
    let rest = if behind {
        let part = slice_chars(&v, n + 1, v.len());
        assert(part@ =~= id@.skip(n + 1));
        from_chars(&part)
    } else {
        id.to_string()
    };
    replace_char(replace_char(rest.as_str(), ':', " > ").as_str(), '-', " ")
}

/// What a report on spending is made of: the rows that are listed, by family.
pub struct SpendTable {
    pub families: Vec<String>,
    pub categories: Vec<String>,
    pub amounts: Vec<Amount>,
}

/// The lines of the categories of a family, the largest first.
pub open spec fn sub_lines(
    categories: Seq<Seq<char>>,
    family: Seq<char>,
    order: Seq<Placed>,
) -> Seq<Seq<char>> {
    order.map_values(
        |p: Placed|
            "  _"@ + sub_label(categories[p.at as int], family) + "   "@ + reais_text(p.amount)
                + "_"@,
    )
}

/// The lines of a family; its categories are listed where there are several.
pub open spec fn family_lines(
    families: Seq<Seq<char>>,
    categories: Seq<Seq<char>>,
    amounts: Seq<Amount>,
    family: Seq<char>,
    total: Amount,
) -> Seq<Seq<char>> {
    let at = positions(families, family);
    seq![
        emoji_of(family) + " *"@ + label_of_family(family) + "*   "@ + reais_text(total),
    ] + (if at.len() > 1 {
        sub_lines(categories, family, ranked_at(amounts, at))
    } else {
        Seq::empty()
    })
}

/// The lines of the first `n` families in the order given.
pub open spec fn families_lines(
    families: Seq<Seq<char>>,
    categories: Seq<Seq<char>>,
    amounts: Seq<Amount>,
    order: Seq<Placed>,
    n: int,
) -> Seq<Seq<char>>
    decreases n,
{
    if n <= 0 {
        Seq::empty()
    } else {
        families_lines(families, categories, amounts, order, n - 1) + family_lines(
            families,
            categories,
            amounts,
            sorted_keys(families)[order[n - 1].at as int],
            order[n - 1].amount,
        )
    }
}

/// The lines of the shares of the three largest families.
pub open spec fn share_lines(names: Seq<Seq<char>>, order: Seq<Placed>, grand: Amount) -> Seq<
    Seq<char>,
> {
    (if order.len() > 3 {
        order.take(3)
    } else {
        order
    }).map_values(
        |p: Placed|
            "  "@ + label_of_family(names[p.at as int]) + " "@ + whole_number_text(
                share_of(p.amount, grand),
            ) + "%"@,
    )
}

/// The report on spending: the families by what they took, their categories, the total,
/// and the shares of the largest.
pub open spec fn monthly_spend_report(rows: Seq<MonthlySpendRow>, month: Option<String>) -> Seq<
    Seq<char>,
> {
    let title = "📊 "@ + bold_text(
        "Gastos · "@ + month_shown(
            month,
            if rows.len() > 0 {
                Some(rows[0].month_ref@)
            } else {
                None
            },
        ),
    );
    let families = listed_families(rows);
    let amounts = listed_amounts(rows);
    let totals = totals_by(families, amounts);
    let order = ranked(totals);
    let grand = sum_of(totals);
    if rows.len() == 0 {
        seq![title, "- linhas: 0"@]
    } else {
        seq![title, ""@] + families_lines(
            families,
            listed_categories(rows),
            amounts,
            order,
            order.len() as int,
        ) + seq![""@, "*Total*: "@ + reais_text(grand)] + (if grand.scaled() > 0 && order.len()
            > 1 {
            seq![""@] + share_lines(sorted_keys(families), order, grand)
        } else {
            Seq::empty()
        })
    }
}

/// Whether no step of the report on spending leaves the range of amounts.
pub open spec fn spend_fits(rows: Seq<MonthlySpendRow>) -> bool {
    let amounts = listed_amounts(rows);
    let totals = totals_by(listed_families(rows), amounts);
    &&& full_weight(amounts) + rows.len() * one() <= limit()
    &&& sum_of(totals).scaled() > 0 ==> forall|k: int|
        0 <= k < totals.len() ==> share_fits(#[trigger] totals[k], sum_of(totals))
}

fn tabulate(rows: &Vec<MonthlySpendRow>) -> (r: SpendTable)
    ensures
        texts(r.families@) == listed_families(rows@),
        texts(r.categories@) == listed_categories(rows@),
        r.amounts@ == listed_amounts(rows@),
        r.families@.len() == r.amounts@.len(),
        r.categories@.len() == r.amounts@.len(),
        r.amounts@.len() <= rows@.len(),
{
    let mut families: Vec<String> = Vec::new();
    let mut categories: Vec<String> = Vec::new();
    let mut amounts: Vec<Amount> = Vec::new();
    let mut i: usize = 0;
    assert(rows@.take(0) =~= Seq::<MonthlySpendRow>::empty());
    assert(texts(families@) =~= Seq::<Seq<char>>::empty());
    assert(texts(categories@) =~= Seq::<Seq<char>>::empty());
    while i < rows.len()
        invariant
            i <= rows.len(),
            texts(families@) == listed_families(rows@.take(i as int)),
            texts(categories@) == listed_categories(rows@.take(i as int)),
            amounts@ == listed_amounts(rows@.take(i as int)),
            families@.len() == amounts@.len(),
            categories@.len() == amounts@.len(),
            amounts@.len() <= i,
        decreases rows.len() - i,
    {
        assert(rows@.take(i + 1).drop_last() =~= rows@.take(i as int));
        assert(texts(families@).len() == families@.len());
        assert(texts(categories@).len() == categories@.len());
        if !starts_with(rows[i].category_id.as_str(), "financeiro-pagamento-recebido") {
            push_text(&mut families, find_family(Some(rows[i].category_id.as_str())));
            push_text(&mut categories, rows[i].category_id.clone());
            amounts.push(rows[i].expenses.neg());
            assert(texts(families@).len() == families@.len());
            assert(texts(categories@).len() == categories@.len());
        }
        i = i + 1;
    }
    assert(rows@.take(i as int) =~= rows@);
    SpendTable { families, categories, amounts }
}

fn push_family_lines(out: &mut Vec<String>, table: &SpendTable, family: &str, total: Amount)
    requires
        table.families@.len() == table.amounts@.len(),
        table.categories@.len() == table.amounts@.len(),
    ensures
        texts(final(out)@) == texts(old(out)@) + family_lines(
            texts(table.families@),
            texts(table.categories@),
            table.amounts@,
            family@,
            total,
        ),
{
    let ghost start = texts(out@);
    let ghost families = texts(table.families@);
    let ghost categories = texts(table.categories@);
    let mut head = chars(category_emoji(family));
    put(&mut head, " *");
    put(&mut head, family_label(family).as_str());
    put(&mut head, "*   ");
    put(&mut head, reais(total).as_str());
    push_text(out, from_chars(&head));
    let at = find_positions(&table.families, family);
    proof {
        lemma_positions(families, family@);
        assert(as_ints(at@).len() == at@.len());
        assert(families.len() == table.families@.len());
        assert forall|k: int| 0 <= k < at@.len() implies (#[trigger] at@[k])
            < table.amounts@.len() by {
            assert(as_ints(at@)[k] == at@[k]);
        }
    }
    if at.len() > 1 {
        let order = rank_at(&table.amounts, &at);
        let ghost before = texts(out@);
        let ghost want = sub_lines(categories, family@, order@);
        let mut i: usize = 0;
        assert(before + want.take(0) =~= before);
        while i < order.len()
            invariant
                i <= order.len(),
                categories == texts(table.categories@),
                table.categories@.len() == table.amounts@.len(),
                want == sub_lines(categories, family@, order@),
                forall|k: int|
                    0 <= k < order@.len() ==> (#[trigger] order@[k]).at < table.amounts@.len(),
                texts(out@) == before + want.take(i as int),
            decreases order.len() - i,
        {
            let p = order[i];
            assert(p.at < table.amounts@.len());
            assert(categories[p.at as int] == table.categories@[p.at as int]@);
            let mut line = chars("  _");
            put(&mut line, make_sub_label(table.categories[p.at].as_str(), family).as_str());
            put(&mut line, "   ");
            put(&mut line, reais(p.amount).as_str());
            put(&mut line, "_");
            assert(line@ =~= want[i as int]);
            push_text(out, from_chars(&line));
            i = i + 1;
            assert(texts(out@) =~= before + want.take(i as int));
        }
        assert(want.take(i as int) =~= want);
    }
    assert(texts(out@) =~= start + family_lines(
        families,
        categories,
        table.amounts@,
        family@,
        total,
    ));
}

fn push_shares(out: &mut Vec<String>, names: &Vec<String>, order: &Vec<Placed>, grand: &Amount)
    requires
        grand.units() != 0,
        forall|k: int| 0 <= k < order@.len() ==> (#[trigger] order@[k]).at < names@.len(),
        forall|k: int| 0 <= k < order@.len() ==> share_fits((#[trigger] order@[k]).amount, *grand),
    ensures
        texts(final(out)@) == texts(old(out)@) + share_lines(texts(names@), order@, *grand),
{
    let ghost start = texts(out@);
    let ghost want = share_lines(texts(names@), order@, *grand);
    let mut i: usize = 0;
    assert(start + want.take(0) =~= start);
    while i < order.len() && i < 3
        invariant
            i <= order.len(),
            i <= 3,
            grand.units() != 0,
            want == share_lines(texts(names@), order@, *grand),
            forall|k: int| 0 <= k < order@.len() ==> (#[trigger] order@[k]).at < names@.len(),
            forall|k: int|
                0 <= k < order@.len() ==> share_fits((#[trigger] order@[k]).amount, *grand),
            texts(out@) == start + want.take(i as int),
        decreases order.len() - i,
    {
        let p = order[i];
        assert(order@[i as int].at < names@.len());
        assert(texts(names@)[p.at as int] == names@[p.at as int]@);
        let share = find_share(&p.amount, grand);
        let mut line = chars("  ");
        put(&mut line, family_label(names[p.at].as_str()).as_str());
        put(&mut line, " ");
        put(&mut line, whole_number(share).as_str());
        put(&mut line, "%");
        assert(line@ =~= want[i as int]);
        push_text(out, from_chars(&line));
        i = i + 1;
        assert(texts(out@) =~= start + want.take(i as int));
    }
    assert(want.take(i as int) =~= want);
}

proof fn lemma_ranked_members(amounts: Seq<Amount>, r: Seq<Placed>)
    requires
        r == ranked(amounts),
        amounts.len() <= usize::MAX,
    ensures
        forall|k: int|
            0 <= k < r.len() ==> (#[trigger] r[k]).at < amounts.len() && r[k].amount
                == amounts[r[k].at as int],
{
    let list = placed(amounts, Seq::new(amounts.len(), |i: int| i));
    crate::order::law_sorted(list);
    crate::order::lemma_same_elements(list, r);
    assert forall|k: int| 0 <= k < r.len() implies (#[trigger] r[k]).at < amounts.len()
        && r[k].amount == amounts[r[k].at as int] by {
        assert(r.contains(r[k]));
        let i = choose|i: int| 0 <= i < list.len() && list[i] == r[k];
        assert(list[i].at == i);
    }
}

/// The report on spending.
pub fn print_monthly_spend_human(rows: &Vec<MonthlySpendRow>, month: &Option<String>) -> (r: Vec<
    String,
>)
    requires
        spend_fits(rows@),
    ensures
        texts(r@) == monthly_spend_report(rows@, *month),
{
    let first = if rows.len() > 0 {
        Some(rows[0].month_ref.as_str())
    } else {
        None
    };
    let title = glue("Gastos · ", show_month(month, first).as_str());
    let mut out: Vec<String> = Vec::new();
    assert(texts(out@) =~= Seq::<Seq<char>>::empty());
    push_text(&mut out, glue("📊 ", bold(title.as_str()).as_str()));
    if rows.len() == 0 {
        push_text(&mut out, "- linhas: 0".to_string());
        assert(texts(out@) =~= monthly_spend_report(rows@, *month));
        return out;
    }
    push_text(&mut out, "".to_string());
    let table = tabulate(rows);
    let ghost families = texts(table.families@);
    let ghost categories = texts(table.categories@);
    let ghost amounts = table.amounts@;
    let (names, totals) = total_by_key(&table.families, &table.amounts);
    let order = rank(&totals);
    let ghost head = texts(out@);
    let mut k: usize = 0;
    proof {
        assert(texts(names@).len() == names@.len());
        assert(head + families_lines(families, categories, amounts, order@, 0) =~= head);
        lemma_ranked_members(totals@, order@);
    }
    while k < order.len()
        invariant
            k <= order.len(),
            families == texts(table.families@),
            categories == texts(table.categories@),
            amounts == table.amounts@,
            table.families@.len() == table.amounts@.len(),
            table.categories@.len() == table.amounts@.len(),
            texts(names@) == sorted_keys(families),
            names@.len() == totals@.len(),
            forall|j: int| 0 <= j < order@.len() ==> (#[trigger] order@[j]).at < totals@.len(),
            texts(out@) == head + families_lines(families, categories, amounts, order@, k as int),
        decreases order.len() - k,
    {
        let p = order[k];
        assert(order@[k as int].at < totals@.len());
        assert(texts(names@)[p.at as int] == names@[p.at as int]@);
        push_family_lines(&mut out, &table, names[p.at].as_str(), p.amount);
        k = k + 1;
        assert(texts(out@) =~= head + families_lines(
            families,
            categories,
            amounts,
            order@,
            k as int,
        ));
    }
    proof {
        crate::amount::lemma_one();
        let m = totals@.len() as int;
        let n = rows@.len() as int;
        assert(m * one() <= n * one()) by (nonlinear_arith)
            requires
                0 <= m <= n,
                one() >= 0,
        ;
    }
    let grand = total_of_all(&totals);
    push_text(&mut out, "".to_string());
    push_text(&mut out, glue("*Total*: ", reais(grand).as_str()));
    if grand.is_above_zero() && order.len() > 1 {
        push_text(&mut out, "".to_string());
        proof {
            crate::amount::lemma_zero_scaled(grand);
            assert forall|j: int| 0 <= j < order@.len() implies share_fits(
                (#[trigger] order@[j]).amount,
                grand,
            ) by {
                assert(order@[j].amount == totals@[order@[j].at as int]);
            }
        }
        push_shares(&mut out, &names, &order, &grand);
    }
    assert(texts(out@) =~= monthly_spend_report(rows@, *month));
    out
}

// ---------------------------------------------------------------------------
// Forecast and actual

pub open spec fn row_family(row: ForecastVsActualRow) -> Seq<char> {
    listed_family(crate::records::opt_text(row.category_id))
}

pub open spec fn row_families(rows: Seq<ForecastVsActualRow>) -> Seq<Seq<char>> {
    rows.map_values(|r: ForecastVsActualRow| row_family(r))
}

/// How far each row is off.
pub open spec fn deviations(rows: Seq<ForecastVsActualRow>) -> Seq<Amount> {
    rows.map_values(|r: ForecastVsActualRow| magnitude(r.variance))
}

/// A cent.
pub open spec fn cent() -> Amount {
    from_signed(1, 2)
}

/// How a row stands: over what was forecast, nearly used up, or in order.
pub open spec fn indicator_of(forecast: Amount, actual: Amount, variance: Amount) -> Seq<char> {
    let near = magnitude(variance).scaled() < cent().scaled();
    if !near && variance.scaled() > 0 {
        "🔻"@
    } else if near {
        "✅"@
    } else if magnitude(actual).scaled() > quotient(
        times(magnitude(forecast), from_signed(80, 0)),
        from_signed(100, 0),
    ).scaled() {
        "⚠️"@
    } else {
        "✅"@
    }
}

/// Whether how a row stands hangs on a share of what was forecast.
pub open spec fn takes_share(variance: Amount) -> bool {
    magnitude(variance).scaled() >= cent().scaled() && variance.scaled() <= 0
}

/// How a row stands.
pub fn forecast_indicator(forecast: &Amount, actual: &Amount, variance: &Amount) -> (r: &'static str)
    requires
        takes_share(*variance) ==> 80 * abs(forecast.scaled()) <= limit(),
    ensures
        r@ == indicator_of(*forecast, *actual, *variance),
{
    let step = Amount::new(1, 2);
    let near = variance.abs().is_less(&step);
    if !near && variance.is_above_zero() {
        "🔻"
    } else if near {
        "✅"
    } else {
        let most = shared_by(&scaled_by(&forecast.abs(), 80), 100);
        if most.is_less(&actual.abs()) {
            "⚠️"
        } else {
            "✅"
        }
    }
}

pub open spec fn due_text(due: Option<Date>) -> Seq<char> {
    match due {
        Some(d) => "("@ + day_month_text(d) + ")"@,
        None => Seq::empty(),
    }
}

/// The day on which a row is due, in brackets.
pub fn forecast_due_label(due_date: &Option<Date>) -> (r: String)
    ensures
        r@ == due_text(*due_date),
{
    match due_date {
        Some(d) => glue3("(", day_month(d).as_str(), ")"),
        None => String::new(),
    }
}

/// A row of the report. Its description is a short one; expenses are negative.
pub open spec fn forecast_line(row: ForecastVsActualRow) -> Seq<char> {
    let forecast = negated(row.forecast_amount);
    let actual = negated(row.actual_amount);
    let variance = negated(row.variance);
    "  "@ + row.description@ + " "@ + due_text(row.due_date) + " "@ + indicator_of(
        forecast,
        actual,
        variance,
    ) + "  previsto "@ + reais_text(forecast) + "  realizado "@ + reais_text(actual)
        + "  variação "@ + brl_signed_text(variance)
}

fn print_forecast_row(row: &ForecastVsActualRow) -> (r: String)
    requires
        takes_share(negated(row.variance)) ==> 80 * abs(row.forecast_amount.scaled()) <= limit(),
    ensures
        r@ == forecast_line(*row),
{
    let forecast = row.forecast_amount.neg();
    let actual = row.actual_amount.neg();
    let variance = row.variance.neg();
    let mut out = chars("  ");
    put(&mut out, row.description.as_str());
    put(&mut out, " ");
    put(&mut out, forecast_due_label(&row.due_date).as_str());
    put(&mut out, " ");
    put(&mut out, forecast_indicator(&forecast, &actual, &variance));
    put(&mut out, "  previsto ");
    put(&mut out, reais(forecast).as_str());
    put(&mut out, "  realizado ");
    put(&mut out, reais(actual).as_str());
    put(&mut out, "  variação ");
    put(&mut out, brl_signed(variance).as_str());
    assert(out@ =~= forecast_line(*row));
    from_chars(&out)
}

/// The lines of a family, the rows that are off the most first.
pub open spec fn forecast_family_lines(rows: Seq<ForecastVsActualRow>, family: Seq<char>) -> Seq<
    Seq<char>,
> {
    seq![emoji_of(family) + " *"@ + label_of_family(family) + "*"@] + ranked_at(
        deviations(rows),
        positions(row_families(rows), family),
    ).map_values(|p: Placed| forecast_line(rows[p.at as int]))
}

pub open spec fn forecast_families_lines(
    rows: Seq<ForecastVsActualRow>,
    order: Seq<Placed>,
    n: int,
) -> Seq<Seq<char>>
    decreases n,
{
    if n <= 0 {
        Seq::empty()
    } else {
        forecast_families_lines(rows, order, n - 1) + forecast_family_lines(
            rows,
            sorted_keys(row_families(rows))[order[n - 1].at as int],
        )
    }
}

pub open spec fn forecasts(rows: Seq<ForecastVsActualRow>) -> Seq<Amount> {
    rows.map_values(|r: ForecastVsActualRow| negated(r.forecast_amount))
}

pub open spec fn actuals(rows: Seq<ForecastVsActualRow>) -> Seq<Amount> {
    rows.map_values(|r: ForecastVsActualRow| negated(r.actual_amount))
}

pub open spec fn variances(rows: Seq<ForecastVsActualRow>) -> Seq<Amount> {
    rows.map_values(|r: ForecastVsActualRow| negated(r.variance))
}

/// The report on the forecast: the families that are off the most first, and the totals.
pub open spec fn forecast_report(rows: Seq<ForecastVsActualRow>, month: Option<String>) -> Seq<
    Seq<char>,
> {
    let title = "📊 "@ + bold_text(
        "Previsto vs Realizado · "@ + month_shown(
            month,
            if rows.len() > 0 {
                Some(rows[0].month_ref@)
            } else {
                None
            },
        ),
    );
    let order = ranked(totals_by(row_families(rows), deviations(rows)));
    if rows.len() == 0 {
        seq![title]
    } else {
        seq![title, ""@] + forecast_families_lines(rows, order, order.len() as int) + seq![
            ""@,
            "*Total*  previsto "@ + reais_text(sum_of(forecasts(rows))) + "  realizado "@
                + reais_text(sum_of(actuals(rows))) + "  variação "@ + brl_signed_text(
                sum_of(variances(rows)),
            ),
        ]
    }
}

/// Whether no step of the report leaves the range of amounts.
pub open spec fn forecast_fits(rows: Seq<ForecastVsActualRow>) -> bool {
    &&& full_weight(deviations(rows)) <= limit()
    &&& full_weight(forecasts(rows)) <= limit()
    &&& full_weight(actuals(rows)) <= limit()
    &&& full_weight(variances(rows)) <= limit()
    &&& forall|i: int|
        0 <= i < rows.len() && takes_share(negated((#[trigger] rows[i]).variance)) ==> 80 * abs(
            rows[i].forecast_amount.scaled(),
        ) <= limit()
}

/// The columns of the report.
pub struct ForecastTable {
    pub families: Vec<String>,
    pub deviations: Vec<Amount>,
    pub forecasts: Vec<Amount>,
    pub actuals: Vec<Amount>,
    pub variances: Vec<Amount>,
}

fn tabulate_forecast(rows: &Vec<ForecastVsActualRow>) -> (r: ForecastTable)
    ensures
        texts(r.families@) == row_families(rows@),
        r.families@.len() == rows@.len(),
        r.deviations@ == deviations(rows@),
        r.forecasts@ == forecasts(rows@),
        r.actuals@ == actuals(rows@),
        r.variances@ == variances(rows@),
{
    let mut t = ForecastTable {
        families: Vec::new(),
        deviations: Vec::new(),
        forecasts: Vec::new(),
        actuals: Vec::new(),
        variances: Vec::new(),
    };
    let mut i: usize = 0;
    assert(texts(t.families@) =~= row_families(rows@).take(0));
    while i < rows.len()
        invariant
            i <= rows.len(),
            texts(t.families@) == row_families(rows@).take(i as int),
            t.families@.len() == i,
            t.deviations@ == deviations(rows@).take(i as int),
            t.forecasts@ == forecasts(rows@).take(i as int),
            t.actuals@ == actuals(rows@).take(i as int),
            t.variances@ == variances(rows@).take(i as int),
        decreases rows.len() - i,
    {
        let row = &rows[i];
        let id = match &row.category_id {
            Some(s) => Some(s.as_str()),
            None => None,
        };
        push_text(&mut t.families, find_family(id));
        t.deviations.push(row.variance.abs());
        t.forecasts.push(row.forecast_amount.neg());
        t.actuals.push(row.actual_amount.neg());
        t.variances.push(row.variance.neg());
        i = i + 1;
        assert(texts(t.families@) =~= row_families(rows@).take(i as int));
        assert(t.deviations@ =~= deviations(rows@).take(i as int));
        assert(t.forecasts@ =~= forecasts(rows@).take(i as int));
        assert(t.actuals@ =~= actuals(rows@).take(i as int));
        assert(t.variances@ =~= variances(rows@).take(i as int));
    }
    assert(row_families(rows@).take(i as int) =~= row_families(rows@));
    assert(t.deviations@ =~= deviations(rows@));
    assert(t.forecasts@ =~= forecasts(rows@));
    assert(t.actuals@ =~= actuals(rows@));
    assert(t.variances@ =~= variances(rows@));
    t
}

fn print_forecast_family(
    out: &mut Vec<String>,
    rows: &Vec<ForecastVsActualRow>,
    table: &ForecastTable,
    family: &str,
)
    requires
        texts(table.families@) == row_families(rows@),
        table.deviations@ == deviations(rows@),
        forecast_fits(rows@),
    ensures
        texts(final(out)@) == texts(old(out)@) + forecast_family_lines(rows@, family@),
{
    let ghost start = texts(out@);
    let mut head = chars(category_emoji(family));
    put(&mut head, " *");
    put(&mut head, family_label(family).as_str());
    put(&mut head, "*");
    push_text(out, from_chars(&head));
    let at = find_positions(&table.families, family);
    proof {
        lemma_positions(row_families(rows@), family@);
        assert(as_ints(at@).len() == at@.len());
        assert forall|k: int| 0 <= k < at@.len() implies (#[trigger] at@[k])
            < table.deviations@.len() by {
            assert(as_ints(at@)[k] == at@[k]);
        }
    }
    let order = rank_at(&table.deviations, &at);
    let ghost before = texts(out@);
    let ghost want = order@.map_values(|p: Placed| forecast_line(rows@[p.at as int]));
    let mut i: usize = 0;
    assert(before + want.take(0) =~= before);
    while i < order.len()
        invariant
            i <= order.len(),
            forecast_fits(rows@),
            table.deviations@ == deviations(rows@),
            want == order@.map_values(|p: Placed| forecast_line(rows@[p.at as int])),
            forall|k: int|
                0 <= k < order@.len() ==> (#[trigger] order@[k]).at < table.deviations@.len(),
            texts(out@) == before + want.take(i as int),
        decreases order.len() - i,
    {
        assert(order@[i as int].at < rows@.len());
        push_text(out, print_forecast_row(&rows[order[i].at]));
        i = i + 1;
        assert(texts(out@) =~= before + want.take(i as int));
    }
    assert(want.take(i as int) =~= want);
    assert(texts(out@) =~= start + forecast_family_lines(rows@, family@));
}

/// The report on the forecast.
pub fn print_forecast_vs_actual_human(
    rows: &Vec<ForecastVsActualRow>,
    month: &Option<String>,
) -> (r: Vec<String>)
    requires
        forecast_fits(rows@),
    ensures
        texts(r@) == forecast_report(rows@, *month),
{
    let first = if rows.len() > 0 {
        Some(rows[0].month_ref.as_str())
    } else {
        None
    };
    let title = glue("Previsto vs Realizado · ", show_month(month, first).as_str());
    let mut out: Vec<String> = Vec::new();
    assert(texts(out@) =~= Seq::<Seq<char>>::empty());
    push_text(&mut out, glue("📊 ", bold(title.as_str()).as_str()));
    if rows.len() == 0 {
        assert(texts(out@) =~= forecast_report(rows@, *month));
        return out;
    }
    push_text(&mut out, "".to_string());
    let table = tabulate_forecast(rows);
    let (names, totals) = total_by_key(&table.families, &table.deviations);
    let order = rank(&totals);
    let ghost head = texts(out@);
    let mut k: usize = 0;
    assert(head + forecast_families_lines(rows@, order@, 0) =~= head);
    while k < order.len()
        invariant
            k <= order.len(),
            forecast_fits(rows@),
            texts(table.families@) == row_families(rows@),
            table.deviations@ == deviations(rows@),
            texts(names@) == sorted_keys(row_families(rows@)),
            names@.len() == totals@.len(),
            forall|j: int| 0 <= j < order@.len() ==> (#[trigger] order@[j]).at < totals@.len(),
            texts(out@) == head + forecast_families_lines(rows@, order@, k as int),
        decreases order.len() - k,
    {
        let p = order[k];
        assert(order@[k as int].at < totals@.len());
        assert(texts(names@)[p.at as int] == names@[p.at as int]@);
        print_forecast_family(&mut out, rows, &table, names[p.at].as_str());
        k = k + 1;
        assert(texts(out@) =~= head + forecast_families_lines(rows@, order@, k as int));
    }
    push_text(&mut out, "".to_string());
    let mut line = chars("*Total*  previsto ");
    put(&mut line, reais(total_of_all(&table.forecasts)).as_str());
    put(&mut line, "  realizado ");
    put(&mut line, reais(total_of_all(&table.actuals)).as_str());
    put(&mut line, "  variação ");
    put(&mut line, brl_signed(total_of_all(&table.variances)).as_str());
    push_text(&mut out, from_chars(&line));
    assert(texts(out@) =~= forecast_report(rows@, *month));
    out
}

} // verus!
