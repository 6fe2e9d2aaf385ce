//! JSON metadata attached to accounts and transactions, and what is read from it.

use crate::date::{parse_iso, parsed_date};
use crate::description::{extract_installment_marker, marker_of};
use crate::text::{
    all_digits, are_digits, chars, contains, digits_value, has_text, is_blank, lower_ascii,
    parse_digits, same, slice_chars, to_lower_ascii, trimmed,
};
use vstd::prelude::*;

verus! {

/// A JSON number: its value where it is a whole number of 64 bits without sign, and
/// the text that it is written with.
pub struct JsonNumber {
    pub unsigned: Option<u64>,
    pub text: String,
}

/// A member of a JSON object.
pub struct JsonField {
    pub name: String,
    pub value: Json,
}

/// A JSON value.
pub enum Json {
    Null,
    Bool(bool),
    Number(JsonNumber),
    Text(String),
    List(Vec<Json>),
    Object(Vec<JsonField>),
}

/// The first member with that name.
pub open spec fn field_of(fields: Seq<JsonField>, name: Seq<char>) -> Option<Json>
    decreases fields.len(),
{
    if fields.len() == 0 {
        None
    } else if fields[0].name@ == name {
        Some(fields[0].value)
    } else {
        field_of(fields.drop_first(), name)
    }
}

/// The member of an object with that name.
pub open spec fn member(v: Json, name: Seq<char>) -> Option<Json> {
    match v {
        Json::Object(fields) => field_of(fields@, name),
        _ => None,
    }
}

/// What stands at the end of a path of member names.
pub open spec fn at_path(v: Json, path: Seq<Seq<char>>) -> Option<Json>
    decreases path.len(),
{
    if path.len() == 0 {
        Some(v)
    } else {
        match member(v, path[0]) {
            Some(w) => at_path(w, path.drop_first()),
            None => None,
        }
    }
}

pub fn get<'a>(v: &'a Json, name: &str) -> (r: Option<&'a Json>)
    ensures
        match r {
            Some(w) => member(*v, name@) == Some(*w),
            None => member(*v, name@) is None,
        },
{
    match v {
        Json::Object(fields) => {
            let mut i: usize = 0;
            assert(fields@.skip(0) =~= fields@);
            while i < fields.len()
                invariant
                    i <= fields.len(),
                    *v == Json::Object(*fields),
                    field_of(fields@, name@) == field_of(fields@.skip(i as int), name@),
                decreases fields.len() - i,
            {
                if same(fields[i].name.as_str(), name) {
                    return Some(&fields[i].value);
                }
                assert(fields@.skip(i as int).drop_first() =~= fields@.skip(i + 1));
                i = i + 1;
            }
            None
        },
        _ => None,
    }
}

pub open spec fn paths(v: Seq<&str>) -> Seq<Seq<char>> {
    v.map_values(|s: &str| s@)
}

/// What stands at the end of a path of member names.
pub fn metadata_path<'a>(value: &'a Json, path: &[&str]) -> (r: Option<&'a Json>)
    ensures
        match r {
            Some(w) => at_path(*value, paths(path@)) == Some(*w),
            None => at_path(*value, paths(path@)) is None,
        },
{
    let mut current = value;
    let mut i: usize = 0;
    assert(paths(path@).skip(0) =~= paths(path@));
    while i < path.len()
        invariant
            i <= path.len(),
            at_path(*value, paths(path@)) == at_path(*current, paths(path@).skip(i as int)),
        decreases path.len() - i,
    {
        assert(paths(path@).skip(i as int)[0] == path@[i as int]@);
        assert(paths(path@).skip(i as int).drop_first() =~= paths(path@).skip(i + 1));
        match get(current, path[i]) {
            Some(w) => {
                current = w;
            },
            None => {
                return None;
            },
        }
        i = i + 1;
    }
    Some(current)
}

/// The text at a path: a string that is not blank, or a number as it is written.
pub open spec fn text_at(v: Json, path: Seq<Seq<char>>) -> Option<Seq<char>> {
    match at_path(v, path) {
        Some(Json::Text(s)) => if trimmed(s@).len() > 0 {
            Some(s@)
        } else {
            None
        },
        Some(Json::Number(n)) => Some(n.text@),
        _ => None,
    }
}

/// The text at a path.
pub fn metadata_text(value: &Json, path: &[&str]) -> (r: Option<String>)
    ensures
        match r {
            Some(t) => text_at(*value, paths(path@)) == Some(t@),
            None => text_at(*value, paths(path@)) is None,
        },
{
    match metadata_path(value, path) {
        Some(Json::Text(s)) => if is_blank(s.as_str()) {
            None
        } else {
            Some(s.clone())
        },
        Some(Json::Number(n)) => Some(n.text.clone()),
        _ => None,
    }
}

/// The string at a path.
pub open spec fn string_at(v: Json, path: Seq<Seq<char>>) -> Option<Seq<char>> {
    match at_path(v, path) {
        Some(Json::Text(s)) => Some(s@),
        _ => None,
    }
}

pub(crate) fn string_path<'a>(value: &'a Json, path: &[&str]) -> (r: Option<&'a String>)
    ensures
        match r {
            Some(t) => string_at(*value, paths(path@)) == Some(t@),
            None => string_at(*value, paths(path@)) is None,
        },
{
    match metadata_path(value, path) {
        Some(Json::Text(s)) => Some(s),
        _ => None,
    }
}

pub open spec fn unsigned_at(v: Json, path: Seq<Seq<char>>) -> Option<u64> {
    match at_path(v, path) {
        Some(Json::Number(n)) => n.unsigned,
        _ => None,
    }
}

pub(crate) fn unsigned_path(value: &Json, path: &[&str]) -> (r: Option<u64>)
    ensures
        r == unsigned_at(*value, paths(path@)),
{
    match metadata_path(value, path) {
        Some(Json::Number(n)) => n.unsigned,
        _ => None,
    }
}

// ---------------------------------------------------------------------------
// Whole numbers as text

/// The number that Rust reads from the text as a `u32`: digits, with a plus sign
/// before them or not.
pub open spec fn parsed_u32(s: Seq<char>) -> Option<u32> {
    let d = if s.len() > 0 && s[0] == '+' {
        s.skip(1)
    } else {
        s
    };
    if d.len() > 0 && all_digits(d) && digits_value(d) <= u32::MAX {
        Some(digits_value(d) as u32)
    } else {
        None
    }
}

/// The number that Rust reads from the text as a `u64`.
pub open spec fn parsed_u64(s: Seq<char>) -> Option<u64> {
    let d = if s.len() > 0 && s[0] == '+' {
        s.skip(1)
    } else {
        s
    };
    if d.len() > 0 && all_digits(d) && digits_value(d) <= u64::MAX {
        Some(digits_value(d) as u64)
    } else {
        None
    }
}

pub fn parse_u64(s: &str) -> (r: Option<u64>)
    ensures
        r == parsed_u64(s@),
{
    let v = chars(s);
    let d = if v.len() > 0 && v[0] == '+' {
        slice_chars(&v, 1, v.len())
    } else {
        v
    };
    if d.len() == 0 || !are_digits(&d) {
        return None;
    }
    parse_digits(&d)
}

pub fn parse_u32(s: &str) -> (r: Option<u32>)
    ensures
        r == parsed_u32(s@),
{
    let v = chars(s);
    let d = if v.len() > 0 && v[0] == '+' {
        slice_chars(&v, 1, v.len())
    } else {
        v
    };
    if d.len() == 0 || !are_digits(&d) {
        return None;
    }
    match parse_digits(&d) {
        Some(n) => if n <= u32::MAX as u64 {
            Some(n as u32)
        } else {
            None
        },
        None => None,
    }
}

/// The number that Rust reads from the text as an `i32`: digits, with a sign before
/// them or not.
pub open spec fn parsed_i32(s: Seq<char>) -> Option<i32> {
    let signed = s.len() > 0 && (s[0] == '+' || s[0] == '-');
    let d = if signed {
        s.skip(1)
    } else {
        s
    };
    let n = if signed && s[0] == '-' {
        -(digits_value(d) as int)
    } else {
        digits_value(d) as int
    };
    if d.len() > 0 && all_digits(d) && i32::MIN <= n <= i32::MAX {
        Some(n as i32)
    } else {
        None
    }
}

pub fn parse_i32(s: &str) -> (r: Option<i32>)
    ensures
        r == parsed_i32(s@),
{
    let v = chars(s);
    let signed = v.len() > 0 && (v[0] == '+' || v[0] == '-');
    let negative = signed && v[0] == '-';
    let d = if signed {
        slice_chars(&v, 1, v.len())
    } else {
        v
    };
    if d.len() == 0 || !are_digits(&d) {
        return None;
    }
    match parse_digits(&d) {
        Some(n) => {
            if negative && n <= 2_147_483_648 {
                Some((-(n as i64)) as i32)
            } else if !negative && n <= 2_147_483_647 {
                Some(n as i32)
            } else {
                None
            }
        },
        None => None,
    }
}

// ---------------------------------------------------------------------------
// Billing days

pub open spec fn billing_day(n: int) -> bool {
    1 <= n <= 28
}

/// The billing day that a value names, as text or as a number, between 1 and 28.
pub open spec fn day_of_value(v: Option<Json>) -> Option<u32> {
    match v {
        Some(Json::Text(s)) => match parsed_u32(s@) {
            Some(n) => if billing_day(n as int) {
                Some(n)
            } else {
                None
            },
            None => None,
        },
        Some(Json::Number(k)) => match k.unsigned {
            Some(n) => if billing_day(n as int) {
                Some(n as u32)
            } else {
                None
            },
            None => None,
        },
        _ => None,
    }
}

/// The billing day that a value names.
pub fn metadata_billing_day(value: Option<&Json>) -> (r: Option<u32>)
    ensures
        r == day_of_value(
            match value {
                Some(v) => Some(*v),
                None => None,
            },
        ),
{
    match value {
        Some(Json::Text(s)) => match parse_u32(s.as_str()) {
            Some(n) => if n >= 1 && n <= 28 {
                Some(n)
            } else {
                None
            },
            None => None,
        },
        Some(Json::Number(k)) => match k.unsigned {
            Some(n) => if n >= 1 && n <= 28 {
                Some(n as u32)
            } else {
                None
            },
            None => None,
        },
        _ => None,
    }
}

pub open spec fn due_date_path() -> Seq<Seq<char>> {
    seq!["raw"@, "creditData"@, "balanceDueDate"@]
}

/// The day on which bills fall due: the configured one, or that of the due date.
pub open spec fn due_day_of(metadata: Json) -> Option<u32> {
    match day_of_value(member(metadata, "billing_due_day"@)) {
        Some(d) => Some(d),
        None => match string_at(metadata, due_date_path()) {
            Some(t) => match parsed_date(t) {
                Some((y, m, d)) => if billing_day(d) {
                    Some(d as u32)
                } else {
                    None
                },
                None => None,
            },
            None => None,
        },
    }
}

/// The day on which bills fall due.
pub fn metadata_due_day(metadata: &Json) -> (r: Option<u32>)
    ensures
        r == due_day_of(*metadata),
{
    match metadata_billing_day(get(metadata, "billing_due_day")) {
        Some(d) => Some(d),
        None => {
            let path = ["raw", "creditData", "balanceDueDate"];
            assert(paths(path@) =~= due_date_path());
            match string_path(metadata, &path) {
                Some(t) => match parse_iso(t.as_str()) {
                    Some(date) => {
                        let d: u32 = date.day();
                        if d >= 1 && d <= 28 {
                            Some(d)
                        } else {
                            None
                        }
                    },
                    None => None,
                },
                None => None,
            }
        },
    }
}

/// The closing day that goes with a due day: seven days before it, in months of 28.
pub open spec fn closing_before(due: int) -> Option<u32> {
    if billing_day(due) {
        Some(
            (if due > 7 {
                due - 7
            } else {
                due + 21
            }) as u32,
        )
    } else {
        None
    }
}

/// The closing day that goes with a due day.
pub fn closing_day_from_due_day(due_day: u32) -> (r: Option<u32>)
    ensures
        r == closing_before(due_day as int),
{
    if due_day < 1 || due_day > 28 {
        return None;
    }
    Some(
        if due_day > 7 {
            due_day - 7
        } else {
            due_day + 21
        },
    )
}

/// The closing day of an account: the configured one, or the one derived from the
/// due day.
pub open spec fn closing_day_of(metadata: Json) -> Option<u32> {
    match day_of_value(member(metadata, "billing_closing_day"@)) {
        Some(d) => Some(d),
        None => match due_day_of(metadata) {
            Some(d) => closing_before(d as int),
            None => None,
        },
    }
}

/// The closing day of an account.
pub fn parse_closing_day(metadata: &Json) -> (r: Option<u32>)
    ensures
        r == closing_day_of(*metadata),
{
    match metadata_billing_day(get(metadata, "billing_closing_day")) {
        Some(d) => Some(d),
        None => match metadata_due_day(metadata) {
            Some(d) => closing_day_from_due_day(d),
            None => None,
        },
    }
}

/// A closing day is always one that every month has.
pub proof fn law_closing_day_in_range(metadata: Json)
    ensures
        closing_day_of(metadata) matches Some(d) ==> 1 <= d <= 28,
{
}

/// Seven days lie between closing day and due day, in months of 28 days.
pub proof fn law_closing_seven_days_before_due(due: int)
    requires
        billing_day(due),
    ensures
        closing_before(due) matches Some(c) && (c + 7 - due) % 28 == 0,
{
}

// ---------------------------------------------------------------------------
// Bills and installments

pub open spec fn bill_id_path() -> Seq<Seq<char>> {
    seq!["raw"@, "creditCardMetadata"@, "billId"@]
}

/// The identifier of the bill that a transaction is tagged with.
pub fn extract_bill_id(metadata: &Json) -> (r: Option<String>)
    ensures
        match r {
            Some(t) => string_at(*metadata, bill_id_path()) == Some(t@),
            None => string_at(*metadata, bill_id_path()) is None,
        },
{
    let path = ["raw", "creditCardMetadata", "billId"];
    assert(paths(path@) =~= bill_id_path());
    match string_path(metadata, &path) {
        Some(t) => Some(t.clone()),
        None => None,
    }
}

/// Whether metadata speaks of an installment: in a member's name, in a marker, or
/// by the letters `parc` in a text.
pub open spec fn installment_signal(v: Json) -> bool
    decreases v,
{
    match v {
        Json::Object(fields) => exists|i: int|
            0 <= i < fields@.len() && (has_text(
                lower_ascii(#[trigger] fields@[i].name@),
                "installment"@,
            ) || has_text(lower_ascii(fields@[i].name@), "parcela"@) || installment_signal(
                fields@[i].value,
            )),
        Json::List(items) => exists|i: int|
            0 <= i < items@.len() && installment_signal(#[trigger] items@[i]),
        Json::Text(s) => marker_of(s@) is Some || has_text(lower_ascii(s@), "parc"@),
        _ => false,
    }
}

/// Whether metadata speaks of an installment.
pub fn metadata_contains_installment_signal(value: &Json) -> (r: bool)
    ensures
        r == installment_signal(*value),
    decreases value,
{
    match value {
        Json::Object(fields) => {
            let mut i: usize = 0;
            while i < fields.len()
                invariant
                    i <= fields.len(),
                    *value == Json::Object(*fields),
                    forall|j: int|
                        0 <= j < i ==> !(has_text(
                            lower_ascii(#[trigger] fields@[j].name@),
                            "installment"@,
                        ) || has_text(lower_ascii(fields@[j].name@), "parcela"@)
                            || installment_signal(fields@[j].value)),
                decreases fields.len() - i,
            {
                let key = to_lower_ascii(fields[i].name.as_str());
                assert(decreases_to!(*value => value->Object_0));
                assert(decreases_to!(value->Object_0 => fields@));
                assert(decreases_to!(fields@ => fields@[i as int]));
                if contains(key.as_str(), "installment") || contains(key.as_str(), "parcela")
                    || metadata_contains_installment_signal(&fields[i].value) {
                    return true;
                }
                i = i + 1;
            }
            false
        },
        Json::List(items) => {
            let mut i: usize = 0;
            while i < items.len()
                invariant
                    i <= items.len(),
                    *value == Json::List(*items),
                    forall|j: int| 0 <= j < i ==> !installment_signal(#[trigger] items@[j]),
                decreases items.len() - i,
            {
                assert(decreases_to!(*value => value->List_0));
                assert(decreases_to!(value->List_0 => items@));
                assert(decreases_to!(items@ => items@[i as int]));
                if metadata_contains_installment_signal(&items[i]) {
                    return true;
                }
                i = i + 1;
            }
            false
        },
        Json::Text(s) => {
            let low = to_lower_ascii(s.as_str());
            extract_installment_marker(s.as_str()).is_some() || contains(low.as_str(), "parc")
        },
        _ => false,
    }
}

// ---------------------------------------------------------------------------
// Copies and additions

/// Whether two values are the same, down to every text and member.
pub open spec fn alike(a: Json, b: Json) -> bool
    decreases a,
{
    match (a, b) {
        (Json::Null, Json::Null) => true,
        (Json::Bool(x), Json::Bool(y)) => x == y,
        (Json::Number(x), Json::Number(y)) => x.unsigned == y.unsigned && x.text@ == y.text@,
        (Json::Text(x), Json::Text(y)) => x@ == y@,
        (Json::List(x), Json::List(y)) => x@.len() == y@.len() && forall|i: int|
            0 <= i < x@.len() ==> alike(#[trigger] x@[i], y@[i]),
        (Json::Object(x), Json::Object(y)) => x@.len() == y@.len() && forall|i: int|
            0 <= i < x@.len() ==> (#[trigger] x@[i]).name@ == y@[i].name@ && alike(
                x@[i].value,
                y@[i].value,
            ),
        _ => false,
    }
}

/// Two values that are both alike to a third are alike.
pub proof fn law_alike_through(a: Json, b: Json, v: Json)
    requires
        alike(a, v),
        alike(b, v),
    ensures
        alike(a, b),
    decreases v,
{
    match v {
        Json::List(z) => {
            let (x, y) = (a->List_0, b->List_0);
            assert forall|i: int| 0 <= i < x@.len() implies alike(#[trigger] x@[i], y@[i]) by {
                assert(decreases_to!(v => v->List_0));
                assert(decreases_to!(v->List_0 => z@));
                assert(decreases_to!(z@ => z@[i]));
                law_alike_through(x@[i], y@[i], z@[i]);
            }
        },
        Json::Object(z) => {
            let (x, y) = (a->Object_0, b->Object_0);
            assert forall|i: int| 0 <= i < x@.len() implies (#[trigger] x@[i]).name@ == y@[i].name@
                && alike(x@[i].value, y@[i].value) by {
                assert(decreases_to!(v => v->Object_0));
                assert(decreases_to!(v->Object_0 => z@));
                assert(decreases_to!(z@ => z@[i]));
                law_alike_through(x@[i].value, y@[i].value, z@[i].value);
            }
        },
        _ => {},
    }
}

/// A copy of the value.
pub fn copy_json(value: &Json) -> (r: Json)
    ensures
        alike(*value, r),
    decreases value,
{
    match value {
        Json::Null => Json::Null,
        Json::Bool(b) => Json::Bool(*b),
        Json::Number(n) => Json::Number(
            JsonNumber { unsigned: n.unsigned, text: n.text.clone() },
        ),
        Json::Text(t) => Json::Text(t.clone()),
        Json::List(items) => {
            let mut out: Vec<Json> = Vec::new();
            let mut i: usize = 0;
            while i < items.len()
                invariant
                    i <= items.len(),
                    *value == Json::List(*items),
                    out@.len() == i,
                    forall|j: int| 0 <= j < i ==> alike(#[trigger] items@[j], out@[j]),
                decreases items.len() - i,
            {
                assert(decreases_to!(*value => value->List_0));
                assert(decreases_to!(value->List_0 => items@));
                assert(decreases_to!(items@ => items@[i as int]));
                out.push(copy_json(&items[i]));
                i = i + 1;
            }
            Json::List(out)
        },
        Json::Object(fields) => {
            let mut out: Vec<JsonField> = Vec::new();
            let mut i: usize = 0;
            while i < fields.len()
                invariant
                    i <= fields.len(),
                    *value == Json::Object(*fields),
                    out@.len() == i,
                    forall|j: int|
                        0 <= j < i ==> (#[trigger] fields@[j]).name@ == out@[j].name@ && alike(
                            fields@[j].value,
                            out@[j].value,
                        ),
                decreases fields.len() - i,
            {
                assert(decreases_to!(*value => value->Object_0));
                assert(decreases_to!(value->Object_0 => fields@));
                assert(decreases_to!(fields@ => fields@[i as int]));
                out.push(
                    JsonField {
                        name: fields[i].name.clone(),
                        value: copy_json(&fields[i].value),
                    },
                );
                i = i + 1;
            }
            Json::Object(out)
        },
    }
}

proof fn lemma_field_of_push(fields: Seq<JsonField>, f: JsonField, name: Seq<char>)
    ensures
        field_of(fields.push(f), name) == (if field_of(fields, name) is Some {
            field_of(fields, name)
        } else if f.name@ == name {
            Some(f.value)
        } else {
            None
        }),
    decreases fields.len(),
{
    reveal_with_fuel(field_of, 2);
    if fields.len() == 0 {
        assert(fields.push(f).drop_first() =~= fields);
    } else {
        assert(fields.push(f).drop_first() =~= fields.drop_first().push(f));
        lemma_field_of_push(fields.drop_first(), f, name);
    }
}

/// Adds a member to an object that has none with that name; a null becomes an object.
fn add_member(meta: &mut Json, name: &str, value: Json)
    requires
        *old(meta) is Object || *old(meta) is Null,
        member(*old(meta), name@) is None,
    ensures
        *final(meta) is Object,
        member(*final(meta), name@) == Some(value),
        forall|n: Seq<char>|
            n != name@ ==> #[trigger] member(*final(meta), n) == member(*old(meta), n),
{
    let field = JsonField { name: name.to_string(), value };
    let mut fields: Vec<JsonField> = Vec::new();
    match meta {
        Json::Object(f) => {
            std::mem::swap(f, &mut fields);
        },
        _ => {},
    }
    let ghost before = fields@;
    fields.push(field);
    *meta = Json::Object(fields);
    proof {
        assert forall|n: Seq<char>| n != name@ implies #[trigger] member(*meta, n) == member(
            *old(meta),
            n,
        ) by {
            lemma_field_of_push(before, field, n);
        }
        lemma_field_of_push(before, field, name@);
    }
}

pub open spec fn is_billing_key(name: Seq<char>) -> bool {
    name == "billing_closing_day"@ || name == "billing_due_day"@
}

/// Whether the member is a billing key that an account lost and still had before.
pub open spec fn is_carried(new_meta: Json, existing: Json, name: Seq<char>) -> bool {
    is_billing_key(name) && member(new_meta, name) is None && member(existing, name) is Some
}

fn carry_over(new_meta: &mut Json, existing_meta: &Json, name: &str)
    requires
        is_billing_key(name@),
        is_carried(*old(new_meta), *existing_meta, name@) ==> *old(new_meta) is Object
            || *old(new_meta) is Null,
    ensures
        !is_carried(*old(new_meta), *existing_meta, name@) ==> *final(new_meta) == *old(new_meta),
        is_carried(*old(new_meta), *existing_meta, name@) ==> *final(new_meta) is Object && member(
            *final(new_meta),
            name@,
        ) is Some && alike(
            member(*existing_meta, name@)->0,
            member(*final(new_meta), name@)->0,
        ),
        forall|n: Seq<char>|
            n != name@ ==> #[trigger] member(*final(new_meta), n) == member(*old(new_meta), n),
{
    if get(new_meta, name).is_none() {
        match get(existing_meta, name) {
            Some(v) => {
                add_member(new_meta, name, copy_json(v));
            },
            None => {},
        }
    }
}

/// Whether the billing keys can be added: the fresh metadata can take members, or there
/// are none to add.
pub open spec fn takes_billing(new_meta: Json, existing: Json) -> bool {
    new_meta is Object || new_meta is Null || (member(existing, "billing_closing_day"@) is None
        && member(existing, "billing_due_day"@) is None)
}

/// Copies the billing keys that the fresh metadata of an account lacks from its
/// stored metadata, so that what was set by hand survives.
pub fn merge_billing_metadata(new_meta: &mut Json, existing_meta: &Json)
    requires
        takes_billing(*old(new_meta), *existing_meta),
    ensures
        forall|n: Seq<char>|
            !is_carried(*old(new_meta), *existing_meta, n) ==> #[trigger] member(
                *final(new_meta),
                n,
            ) == member(*old(new_meta), n),
        forall|n: Seq<char>| #[trigger]
            is_carried(*old(new_meta), *existing_meta, n) ==> member(*final(new_meta), n) is Some
                && alike(member(*existing_meta, n)->0, member(*final(new_meta), n)->0),
        (forall|n: Seq<char>| !#[trigger] is_carried(*old(new_meta), *existing_meta, n))
            ==> *final(new_meta) == *old(new_meta),
{
    let ghost first = *new_meta;
    proof {
        reveal_strlit("billing_closing_day");
        reveal_strlit("billing_due_day");
        assert("billing_closing_day"@.len() != "billing_due_day"@.len());
        assert(is_carried(first, *existing_meta, "billing_closing_day"@) ==> first is Object
            || first is Null);
    }
    carry_over(new_meta, existing_meta, "billing_closing_day");
    carry_over(new_meta, existing_meta, "billing_due_day");
}

} // verus!
