//! The requests of the dashboard: how they are read, what they do to a template, and how
//! they are answered.

use crate::amount::{parse_amount, parsed_decimal, zero, Amount};
use crate::date::{date_of, parse_iso, parsed_date, Date};
use crate::metadata::{get, member, Json};
use crate::records::opt_text;
use crate::text::{chars, from_chars, glue, put, same};
use vstd::prelude::*;

verus! {

// ---------------------------------------------------------------------------
// Reading

/// A forecast as the dashboard sends it.
pub struct ForecastDraft {
    pub due_date: Option<Date>,
    pub description: String,
    pub amount: Amount,
    pub category_id: Option<String>,
    pub account_id: Option<String>,
    pub status: String,
    pub actor_id: String,
}

/// What the dashboard asks of the store.
pub enum StoreRequest {
    GetChartData(u64, u64),
    ListForecastTemplates(Option<String>, Option<String>),
    AcceptTemplate(String, u32),
    DismissTemplate(String),
    UpsertForecast(ForecastDraft),
    ListForecasts(Option<String>, Option<Date>, Option<Date>),
    GetForecast(String),
    GetCategories,
    GetAccounts,
    GetTransactions(Date, Date),
}

/// The text that a member holds.
pub open spec fn text_in(payload: Json, name: Seq<char>) -> Option<Seq<char>> {
    match member(payload, name) {
        Some(Json::Text(t)) => Some(t@),
        _ => None,
    }
}

/// The number that a member holds, six where it holds none.
pub open spec fn number_in(payload: Json, name: Seq<char>) -> u64 {
    match member(payload, name) {
        Some(Json::Number(n)) => match n.unsigned {
            Some(u) => u,
            None => 6,
        },
        _ => 6,
    }
}

/// The date that a text names.
pub open spec fn date_in(text: Option<Seq<char>>) -> Option<Date> {
    match text {
        Some(t) => match parsed_date(t) {
            Some((y, m, d)) => Some(date_of(y, m, d)),
            None => None,
        },
        None => None,
    }
}

/// The amount that a text names; nothing where it names none.
pub open spec fn amount_in(text: Option<Seq<char>>, a: Amount) -> bool {
    let t = match text {
        Some(t) => t,
        None => "0"@,
    };
    match parsed_decimal(t) {
        Some(parts) => parts == (a.sign(), a.units(), a.places()),
        None => a == zero(),
    }
}

pub open spec fn is_draft(draft: ForecastDraft, payload: Json) -> bool {
    &&& draft.due_date == date_in(text_in(payload, "due_date"@))
    &&& draft.description@ == (match text_in(payload, "description"@) {
        Some(t) => t,
        None => ""@,
    })
    &&& amount_in(text_in(payload, "amount"@), draft.amount)
    &&& opt_text(draft.category_id) == text_in(payload, "category_id"@)
    &&& opt_text(draft.account_id) == text_in(payload, "account_id"@)
    &&& draft.status@ == "ativo"@
    &&& draft.actor_id@ == "serve-dashboard"@
}

/// Why a request for transactions is refused: both ends of the period are needed.
pub open spec fn period_refusal(payload: Json) -> Option<Seq<char>> {
    let from = text_in(payload, "from"@);
    let to = text_in(payload, "to"@);
    if from is None {
        Some("from é obrigatório"@)
    } else if to is None {
        Some("to é obrigatório"@)
    } else if date_in(from) is None {
        Some("from inválido (use YYYY-MM-DD)"@)
    } else if date_in(to) is None {
        Some("to inválido (use YYYY-MM-DD)"@)
    } else {
        None
    }
}

/// Why a request is refused that needs a text.
pub open spec fn missing(payload: Json, name: Seq<char>, message: Seq<char>) -> Option<Seq<char>> {
    if text_in(payload, name) is None {
        Some(message)
    } else {
        None
    }
}

/// Why a request is refused.
pub open spec fn refusal(kind: Seq<char>, payload: Json) -> Option<Seq<char>> {
    if kind == "get_chart_data"@ || kind == "list_forecast_templates"@ {
        None
    } else if kind == "accept_template"@ || kind == "dismiss_template"@ {
        missing(payload, "template_id"@, "template_id é obrigatório"@)
    } else if kind == "upsert_forecast"@ || kind == "list_forecasts"@ {
        None
    } else if kind == "get_forecast"@ {
        missing(payload, "forecast_id"@, "forecast_id é obrigatório"@)
    } else if kind == "get_categories"@ || kind == "get_accounts"@ {
        None
    } else if kind == "get_transactions"@ {
        period_refusal(payload)
    } else {
        Some("tipo desconhecido: "@ + kind)
    }
}

/// Whether a request asks for what a message says.
pub open spec fn asks(r: StoreRequest, kind: Seq<char>, payload: Json) -> bool {
    match r {
        StoreRequest::GetChartData(back, ahead) => kind == "get_chart_data"@ && back == number_in(
            payload,
            "months_back"@,
        ) && ahead == number_in(payload, "months_ahead"@),
        StoreRequest::ListForecastTemplates(k, s) => kind == "list_forecast_templates"@ && opt_text(
            k,
        ) == text_in(payload, "kind"@) && opt_text(s) == text_in(payload, "status"@),
        StoreRequest::AcceptTemplate(id, months) => kind == "accept_template"@ && text_in(
            payload,
            "template_id"@,
        ) == Some(id@) && months == number_in(payload, "materialize_months"@) as u32,
        StoreRequest::DismissTemplate(id) => kind == "dismiss_template"@ && text_in(
            payload,
            "template_id"@,
        ) == Some(id@),
        StoreRequest::UpsertForecast(draft) => kind == "upsert_forecast"@ && is_draft(draft, payload),
        StoreRequest::ListForecasts(s, from, until) => kind == "list_forecasts"@ && opt_text(s)
            == text_in(payload, "status"@) && from == date_in(text_in(payload, "from"@)) && until
            == date_in(text_in(payload, "until"@)),
        StoreRequest::GetForecast(id) => kind == "get_forecast"@ && text_in(
            payload,
            "forecast_id"@,
        ) == Some(id@),
        StoreRequest::GetCategories => kind == "get_categories"@,
        StoreRequest::GetAccounts => kind == "get_accounts"@,
        StoreRequest::GetTransactions(from, to) => kind == "get_transactions"@ && date_in(
            text_in(payload, "from"@),
        ) == Some(from) && date_in(text_in(payload, "to"@)) == Some(to),
    }
}

fn read_text(payload: &Json, name: &str) -> (r: Option<String>)
    ensures
        opt_text(r) == text_in(*payload, name@),
{
    match get(payload, name) {
        Some(Json::Text(t)) => Some(t.clone()),
        _ => None,
    }
}

fn read_number(payload: &Json, name: &str) -> (r: u64)
    ensures
        r == number_in(*payload, name@),
{
    match get(payload, name) {
        Some(Json::Number(n)) => match n.unsigned {
            Some(u) => u,
            None => 6,
        },
        _ => 6,
    }
}

fn read_date(text: &Option<String>) -> (r: Option<Date>)
    ensures
        r == date_in(opt_text(*text)),
{
    match text {
        Some(t) => match parse_iso(t.as_str()) {
            Some(d) => {
                proof {
                    broadcast use crate::date::lemma_date_of;

                    crate::date::lemma_same_date(d, date_of(d.y(), d.m(), d.d()));
                }
                Some(d)
            },
            None => None,
        },
        None => None,
    }
}

fn read_draft(payload: &Json) -> (r: ForecastDraft)
    ensures
        is_draft(r, *payload),
{
    let typed = read_text(payload, "amount");
    let parsed = match &typed {
        Some(t) => parse_amount(t.as_str()),
        None => parse_amount("0"),
    };
    let amount = match parsed {
        Some(a) => a,
        None => Amount::none(),
    };
    let description = match read_text(payload, "description") {
        Some(t) => t,
        None => "".to_string(),
    };
    ForecastDraft {
        due_date: read_date(&read_text(payload, "due_date")),
        description,
        amount,
        category_id: read_text(payload, "category_id"),
        account_id: read_text(payload, "account_id"),
        status: "ativo".to_string(),
        actor_id: "serve-dashboard".to_string(),
    }
}

fn read_period(payload: &Json) -> (r: Result<StoreRequest, String>)
    ensures
        match r {
            Ok(request) => period_refusal(*payload) is None && asks(
                request,
                "get_transactions"@,
                *payload,
            ),
            Err(e) => period_refusal(*payload) == Some(e@),
        },
{
    let from = read_text(payload, "from");
    let to = read_text(payload, "to");
    if from.is_none() {
        return Err("from é obrigatório".to_string());
    }
    if to.is_none() {
        return Err("to é obrigatório".to_string());
    }
    match (read_date(&from), read_date(&to)) {
        (None, _) => Err("from inválido (use YYYY-MM-DD)".to_string()),
        (_, None) => Err("to inválido (use YYYY-MM-DD)".to_string()),
        (Some(a), Some(b)) => Ok(StoreRequest::GetTransactions(a, b)),
    }
}

/// Reads a request of the dashboard.
pub fn read_request(kind: &str, payload: &Json) -> (r: Result<StoreRequest, String>)
    ensures
        match r {
            Ok(request) => refusal(kind@, *payload) is None && asks(request, kind@, *payload),
            Err(e) => refusal(kind@, *payload) == Some(e@),
        },
{
    if same(kind, "get_chart_data") {
        Ok(
            StoreRequest::GetChartData(
                read_number(payload, "months_back"),
                read_number(payload, "months_ahead"),
            ),
        )
    } else if same(kind, "list_forecast_templates") {
        Ok(
            StoreRequest::ListForecastTemplates(
                read_text(payload, "kind"),
                read_text(payload, "status"),
            ),
        )
    } else if same(kind, "accept_template") {
        match read_text(payload, "template_id") {
            Some(id) => Ok(
                StoreRequest::AcceptTemplate(
                    id,
                    #[verifier::truncate]
                    (read_number(payload, "materialize_months") as u32),
                ),
            ),
            None => Err("template_id é obrigatório".to_string()),
        }
    } else if same(kind, "dismiss_template") {
        match read_text(payload, "template_id") {
            Some(id) => Ok(StoreRequest::DismissTemplate(id)),
            None => Err("template_id é obrigatório".to_string()),
        }
    } else if same(kind, "upsert_forecast") {
        Ok(StoreRequest::UpsertForecast(read_draft(payload)))
    } else if same(kind, "list_forecasts") {
        Ok(
            StoreRequest::ListForecasts(
                read_text(payload, "status"),
                read_date(&read_text(payload, "from")),
                read_date(&read_text(payload, "until")),
            ),
        )
    } else if same(kind, "get_forecast") {
        match read_text(payload, "forecast_id") {
            Some(id) => Ok(StoreRequest::GetForecast(id)),
            None => Err("forecast_id é obrigatório".to_string()),
        }
    } else if same(kind, "get_categories") {
        Ok(StoreRequest::GetCategories)
    } else if same(kind, "get_accounts") {
        Ok(StoreRequest::GetAccounts)
    } else if same(kind, "get_transactions") {
        read_period(payload)
    } else {
        Err(glue("tipo desconhecido: ", kind))
    }
}

// ---------------------------------------------------------------------------
// Answering

/// The type of the answer to a request.
pub open spec fn answer_type(r: StoreRequest) -> Seq<char> {
    match r {
        StoreRequest::GetChartData(..) => "chart_data"@,
        StoreRequest::ListForecastTemplates(..) => "forecast_templates"@,
        StoreRequest::AcceptTemplate(..) => "template_accepted"@,
        StoreRequest::DismissTemplate(..) => "template_dismissed"@,
        StoreRequest::UpsertForecast(..) => "forecast_upserted"@,
        StoreRequest::ListForecasts(..) => "forecasts"@,
        StoreRequest::GetForecast(..) => "forecast"@,
        StoreRequest::GetCategories => "categories"@,
        StoreRequest::GetAccounts => "accounts"@,
        StoreRequest::GetTransactions(..) => "transactions"@,
    }
}

/// The type of the answer to a request.
pub fn answer_name(r: &StoreRequest) -> (s: &'static str)
    ensures
        s@ == answer_type(*r),
{
    match r {
        StoreRequest::GetChartData(..) => "chart_data",
        StoreRequest::ListForecastTemplates(..) => "forecast_templates",
        StoreRequest::AcceptTemplate(..) => "template_accepted",
        StoreRequest::DismissTemplate(..) => "template_dismissed",
        StoreRequest::UpsertForecast(..) => "forecast_upserted",
        StoreRequest::ListForecasts(..) => "forecasts",
        StoreRequest::GetForecast(..) => "forecast",
        StoreRequest::GetCategories => "categories",
        StoreRequest::GetAccounts => "accounts",
        StoreRequest::GetTransactions(..) => "transactions",
    }
}

/// An answer, with what it brings or what went wrong.
pub struct WsResponse<P> {
    pub id: String,
    pub msg_type: String,
    pub payload: Option<P>,
    pub error: Option<String>,
}

impl<P> WsResponse<P> {
    pub fn success(id: String, msg_type: &str, payload: P) -> (r: WsResponse<P>)
        ensures
            r.id == id,
            r.msg_type@ == msg_type@,
            r.payload == Some(payload),
            r.error is None,
    {
        WsResponse { id, msg_type: msg_type.to_string(), payload: Some(payload), error: None }
    }

    pub fn error(id: String, msg: &str) -> (r: WsResponse<P>)
        ensures
            r.id == id,
            r.msg_type@ == "error"@,
            r.payload is None,
            opt_text(r.error) == Some(msg@),
    {
        WsResponse {
            id,
            msg_type: "error".to_string(),
            payload: None,
            error: Some(msg.to_string()),
        }
    }
}

/// The member of the payload under which a list is answered; none where the answer is no
/// list.
pub open spec fn list_member(request: StoreRequest) -> Option<Seq<char>> {
    match request {
        StoreRequest::ListForecastTemplates(..) => Some("templates"@),
        StoreRequest::ListForecasts(..) => Some("forecasts"@),
        StoreRequest::GetCategories => Some("categories"@),
        StoreRequest::GetAccounts => Some("accounts"@),
        StoreRequest::GetTransactions(..) => Some("transactions"@),
        _ => None,
    }
}

/// The member of the payload under which a list is answered.
pub fn payload_member(request: &StoreRequest) -> (r: Option<&'static str>)
    ensures
        match r {
            Some(s) => list_member(*request) == Some(s@),
            None => list_member(*request) is None,
        },
{
    match request {
        StoreRequest::ListForecastTemplates(..) => Some("templates"),
        StoreRequest::ListForecasts(..) => Some("forecasts"),
        StoreRequest::GetCategories => Some("categories"),
        StoreRequest::GetAccounts => Some("accounts"),
        StoreRequest::GetTransactions(..) => Some("transactions"),
        _ => None,
    }
}

/// What came back from the store.
pub enum StoreReply<P> {
    /// The store no longer takes requests.
    Gone,
    /// The store took the request and did not answer.
    Silent,
    Failed(String),
    Done(P),
}

/// The answer to a request, given what came back from the store.
pub fn answer<P>(id: String, request: &StoreRequest, reply: StoreReply<P>) -> (r: WsResponse<P>)
    ensures
        r.id == id,
        match reply {
            StoreReply::Gone => r.payload is None && opt_text(r.error) == Some("store actor morreu"@)
                && r.msg_type@ == "error"@,
            StoreReply::Silent => r.payload is None && opt_text(r.error) == Some(
                "store actor não respondeu"@,
            ) && r.msg_type@ == "error"@,
            StoreReply::Failed(e) => r.payload is None && opt_text(r.error) == Some(e@)
                && r.msg_type@ == "error"@,
            StoreReply::Done(p) => r.payload == Some(p) && r.error is None && r.msg_type@
                == answer_type(*request),
        },
{
    match reply {
        StoreReply::Gone => WsResponse::error(id, "store actor morreu"),
        StoreReply::Silent => WsResponse::error(id, "store actor não respondeu"),
        StoreReply::Failed(e) => WsResponse::error(id, e.as_str()),
        StoreReply::Done(p) => WsResponse::success(id, answer_name(request), p),
    }
}

// ---------------------------------------------------------------------------
// Templates

/// Why a template cannot be accepted. Only a proposed one can.
pub open spec fn accept_refusal(id: Seq<char>, status: Option<Seq<char>>) -> Option<Seq<char>> {
    match status {
        None => Some("template não encontrado: "@ + id),
        Some(s) => if s == "proposto"@ {
            None
        } else {
            Some("template "@ + id + " está com status '"@ + s + "' (esperado: 'proposto')"@)
        },
    }
}

/// The status of a template that is accepted, from the status that it has.
pub fn accept_template(id: &str, status: &Option<String>) -> (r: Result<String, String>)
    ensures
        match r {
            Ok(s) => accept_refusal(id@, opt_text(*status)) is None && s@ == "ativo"@,
            Err(e) => accept_refusal(id@, opt_text(*status)) == Some(e@),
        },
{
    match status {
        None => Err(glue("template não encontrado: ", id)),
        Some(s) => if same(s.as_str(), "proposto") {
            Ok("ativo".to_string())
        } else {
            let mut out = chars("template ");
            put(&mut out, id);
            put(&mut out, " está com status '");
            put(&mut out, s.as_str());
            put(&mut out, "' (esperado: 'proposto')");
            Err(from_chars(&out))
        },
    }
}

/// The status of a template that is dismissed, or none where it is dismissed already.
pub fn dismiss_template(id: &str, status: &Option<String>) -> (r: Result<Option<String>, String>)
    ensures
        match opt_text(*status) {
            None => r matches Err(e) && e@ == "template não encontrado: "@ + id@,
            Some(s) => r matches Ok(next) && opt_text(next) == (if s == "descartado"@ {
                None
            } else {
                Some("descartado"@)
            }),
        },
{
    match status {
        None => Err(glue("template não encontrado: ", id)),
        Some(s) => if same(s.as_str(), "descartado") {
            Ok(None)
        } else {
            Ok(Some("descartado".to_string()))
        },
    }
}

/// A template that was accepted, or dismissed, cannot be accepted again.
pub proof fn law_accepted_once(id: Seq<char>)
    ensures
        accept_refusal(id, Some("ativo"@)) is Some,
        accept_refusal(id, Some("descartado"@)) is Some,
{
    reveal_strlit("ativo");
    reveal_strlit("proposto");
    reveal_strlit("descartado");
}

/// Whatever a message says, it is either refused or asks for one thing: no request stands
/// for two kinds of message.
pub proof fn law_requests_apart(r: StoreRequest, a: Seq<char>, b: Seq<char>, x: Json, y: Json)
    requires
        asks(r, a, x),
        asks(r, b, y),
    ensures
        a == b,
{
}

} // verus!
