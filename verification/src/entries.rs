//! Plans and budgets as they were typed in.

use crate::amount::{amount_from_text, parsed_decimal, Amount};
use crate::dashboard::ForecastDraft;
use crate::date::{month_start, parse_iso, parse_month_ref, parsed_date, Date};
use crate::text::glue;
use crate::transactions::text_or;
use vstd::prelude::*;

verus! {

/// A plan as it was typed in.
pub struct ForecastEntry {
    pub forecast_id: Option<String>,
    pub date: Option<String>,
    pub description: String,
    pub amount: String,
    pub category_key: Option<String>,
    pub account_id: Option<String>,
    pub status: String,
}

/// Why a plan is refused: its date first, then its amount.
pub open spec fn plan_refusal(entry: ForecastEntry) -> Option<Seq<char>> {
    if entry.date is Some && parsed_date(entry.date->Some_0@) is None {
        Some("date inválida para forecast"@)
    } else if parsed_decimal(entry.amount@) is None {
        Some("valor inválido: "@ + entry.amount@)
    } else {
        None
    }
}

/// Whether a draft holds a plan that was typed in.
pub open spec fn drafts(d: ForecastDraft, entry: ForecastEntry, actor: Seq<char>) -> bool {
    &&& match entry.date {
        Some(t) => d.due_date matches Some(day) && parsed_date(t@) == Some(
            (day.y(), day.m(), day.d()),
        ),
        None => d.due_date is None,
    }
    &&& d.description == entry.description
    &&& parsed_decimal(entry.amount@) == Some((d.amount.sign(), d.amount.units(), d.amount.places()))
    &&& d.category_id == entry.category_key
    &&& d.account_id == entry.account_id
    &&& d.status == entry.status
    &&& d.actor_id@ == actor
}

fn read_due(date: &Option<String>) -> (r: Result<Option<Date>, String>)
    ensures
        match r {
            Ok(due) => match *date {
                Some(t) => due matches Some(d) && parsed_date(t@) == Some((d.y(), d.m(), d.d())),
                None => due is None,
            },
            Err(e) => *date is Some && parsed_date(date->Some_0@) is None && e@
                == "date inválida para forecast"@,
        },
{
    match date {
        None => Ok(None),
        Some(t) => match parse_iso(t.as_str()) {
            Some(d) => Ok(Some(d)),
            None => Err("date inválida para forecast".to_string()),
        },
    }
}

/// Reads a plan: its id, made from the fresh one where none was typed, and what to store.
pub fn read_forecast_entry(entry: ForecastEntry, fresh_id: &str, actor_id: &str) -> (r: Result<
    (String, ForecastDraft),
    String,
>)
    ensures
        match r {
            Ok((id, d)) => plan_refusal(entry) is None && id@ == text_or(
                entry.forecast_id,
                "forecast_"@ + fresh_id@,
            ) && drafts(d, entry, actor_id@),
            Err(e) => plan_refusal(entry) == Some(e@),
        },
{
    let due_date = match read_due(&entry.date) {
        Ok(d) => d,
        Err(e) => {
            return Err(e);
        },
    };
    let amount = match amount_from_text(entry.amount.as_str()) {
        Ok(a) => a,
        Err(e) => {
            return Err(e);
        },
    };
    let id = match entry.forecast_id {
        Some(id) => id,
        None => glue("forecast_", fresh_id),
    };
    let draft = ForecastDraft {
        due_date,
        description: entry.description,
        amount,
        category_id: entry.category_key,
        account_id: entry.account_id,
        status: entry.status,
        actor_id: actor_id.to_string(),
    };
    Ok((id, draft))
}

/// Why a budget is refused: its month first, then its amount.
pub open spec fn budget_refusal(month: Option<String>, amount: Seq<char>) -> Option<Seq<char>> {
    if month is Some && month_start(month->Some_0@) is None {
        Some("month inválido: "@ + month->Some_0@ + " (esperado YYYY-MM)"@)
    } else if parsed_decimal(amount) is None {
        Some("valor inválido: "@ + amount)
    } else {
        None
    }
}

/// Reads the amount of a budget, whose month, where it has one, must be a month.
pub fn read_budget_entry(month: &Option<String>, amount: &str) -> (r: Result<Amount, String>)
    ensures
        match r {
            Ok(a) => budget_refusal(*month, amount@) is None && parsed_decimal(amount@) == Some(
                (a.sign(), a.units(), a.places()),
            ),
            Err(e) => budget_refusal(*month, amount@) == Some(e@),
        },
{
    match month {
        Some(m) => match parse_month_ref(m.as_str()) {
            Ok(_) => {},
            Err(e) => {
                return Err(e);
            },
        },
        None => {},
    }
    amount_from_text(amount)
}

} // verus!
