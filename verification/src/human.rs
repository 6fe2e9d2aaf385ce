//! How amounts, dates and categories read to people.

use crate::amount::{fixed_text, lemma_rounded, rounded, Amount};
use crate::date::{month_abbreviation, month_short, month_start, parse_month_ref, two_digits, Date};
use crate::money::{brl_abs, brl_abs_text};
use crate::text::{
    append_chars, chars, find_char, first_index, from_chars, glue, glue3, is_blank, join, joined,
    padded_digits, put, replace_char, replaced, same, slice_chars, split_at_char, split_once,
    split_whitespace, texts, trimmed, upper, words,
};
use vstd::prelude::*;

verus! {

/// The text between asterisks.
pub open spec fn bold_text(s: Seq<char>) -> Seq<char> {
    "*"@ + s + "*"@
}

/// The text between asterisks.
pub fn bold(s: &str) -> (r: String)
    ensures
        r@ == bold_text(s@),
{
    glue3("*", s, "*")
}

/// The amount in reais, with a sign only where it is negative: `R$ 1.200,00`.
pub open spec fn reais_text(a: Amount) -> Seq<char> {
    (if a.sign() {
        "-"@
    } else {
        ""@
    }) + brl_abs_text(a)
}

/// The amount in reais, with a sign only where it is negative.
pub fn reais(a: Amount) -> (r: String)
    ensures
        r@ == reais_text(a),
{
    glue(
        if a.is_sign_negative() {
            "-"
        } else {
            ""
        },
        brl_abs(a).as_str(),
    )
}

/// The amount rounded to a whole number.
pub open spec fn whole_number_text(a: Amount) -> Seq<char> {
    fixed_text(rounded(a, 0), 0)
}

/// The amount rounded to a whole number.
pub fn whole_number(a: Amount) -> (r: String)
    ensures
        r@ == whole_number_text(a),
{
    a.known();
    proof {
        lemma_rounded(a, 0);
    }
    a.round_dp(0).fixed(0)
}

/// Day and month in digits: `13/05`.
pub open spec fn day_month_text(d: Date) -> Seq<char> {
    two_digits(d.d()) + "/"@ + two_digits(d.m())
}

/// Day and month in digits.
pub fn day_month(date: &Date) -> (r: String)
    ensures
        r@ == day_month_text(*date),
{
    date.known();
    let mut out = padded_digits(date.day() as u128, 2);
    put(&mut out, "/");
    append_chars(&mut out, &padded_digits(date.month() as u128, 2));
    assert(out@ =~= day_month_text(*date));
    from_chars(&out)
}

/// Day and month: `13/mai`.
pub open spec fn short_date_text(d: Date) -> Seq<char> {
    two_digits(d.d()) + "/"@ + month_abbreviation(d.m())
}

/// Day and month.
pub fn short_date(date: &Date) -> (r: String)
    ensures
        r@ == short_date_text(*date),
{
    date.known();
    let mut out = padded_digits(date.day() as u128, 2);
    put(&mut out, "/");
    put(&mut out, month_short(date.month()));
    from_chars(&out)
}

/// The first `n` characters; where the text is longer, the last of them is an
/// ellipsis.
pub open spec fn truncated(s: Seq<char>, n: nat) -> Seq<char> {
    if s.len() <= n {
        s
    } else if n == 0 {
        Seq::empty()
    } else {
        s.take(n - 1) + seq!['…']
    }
}

/// Shortens a text to at most `max` characters.
pub fn truncate_with_ellipsis(s: &str, max: usize) -> (r: String)
    ensures
        r@ == truncated(s@, max as nat),
        r@.len() <= max || r@ == s@,
{
    let v = chars(s);
    if v.len() <= max {
        return s.to_string();
    }
    if max == 0 {
        let none: Vec<char> = Vec::new();
        assert(none@ =~= Seq::<char>::empty());
        return from_chars(&none);
    }
    let mut out = slice_chars(&v, 0, max - 1);
    out.push('…');
    assert(out@ =~= truncated(s@, max as nat));
    from_chars(&out)
}

// ---------------------------------------------------------------------------
// Capital letters

/// What `char::to_uppercase` makes of a character.
pub uninterp spec fn uppercase_chars(c: char) -> Seq<char>;

/// `char::to_uppercase`. An ASCII character gives one character, a small letter its
/// capital.
#[verifier::external_body]
fn uppercase(c: char) -> (r: Vec<char>)
    ensures
        r@ == uppercase_chars(c),
        c as u32 <= 127 ==> r@ == seq![upper(c)],
{
    c.to_uppercase().collect()
}

/// The capital of a character: of an ASCII one its own, of another what
/// `char::to_uppercase` makes of it.
pub open spec fn capital(c: char) -> Seq<char> {
    if (c as u32) < 128 {
        seq![upper(c)]
    } else {
        uppercase_chars(c)
    }
}

/// The text with a capital at its start.
pub open spec fn capitalized(s: Seq<char>) -> Seq<char> {
    if s.len() == 0 {
        s
    } else {
        capital(s[0]) + s.skip(1)
    }
}

/// Gives a text a capital at its start.
pub fn capitalize(s: &str) -> (r: String)
    ensures
        r@ == capitalized(s@),
{
    let v = chars(s);
    if v.len() == 0 {
        return s.to_string();
    }
    let mut out = uppercase(v[0]);
    append_chars(&mut out, &slice_chars(&v, 1, v.len()));
    from_chars(&out)
}

/// The words of a text with a capital each, and one space between them.
pub open spec fn capitalized_words(s: Seq<char>) -> Seq<char> {
    joined(words(s).map_values(|w: Seq<char>| capitalized(w)), " "@)
}

/// Gives each word of a text a capital.
pub fn capitalize_words(s: &str) -> (r: String)
    ensures
        r@ == capitalized_words(s@),
{
    let parts = split_whitespace(s);
    let ghost want = words(s@).map_values(|w: Seq<char>| capitalized(w));
    let mut out: Vec<String> = Vec::new();
    let mut i: usize = 0;
    while i < parts.len()
        invariant
            i <= parts.len(),
            texts(parts@) == words(s@),
            want == words(s@).map_values(|w: Seq<char>| capitalized(w)),
            out@.len() == i,
            forall|j: int| 0 <= j < i ==> (#[trigger] out@[j])@ == want[j],
        decreases parts.len() - i,
    {
        assert(texts(parts@)[i as int] == parts@[i as int]@);
        out.push(capitalize(parts[i].as_str()));
        i = i + 1;
    }
    assert(texts(out@) =~= want);
    join(&out, " ")
}

// ---------------------------------------------------------------------------
// Categories

/// The family of a category: what stands before the first colon; none of a blank one.
pub open spec fn family_of(id: Seq<char>) -> Option<Seq<char>> {
    if trimmed(id).len() == 0 {
        None
    } else {
        match split_at_char(id, ':') {
            Some((family, _)) => Some(family),
            None => Some(id),
        }
    }
}

/// The family of a category.
pub fn category_family(category_id: &str) -> (r: Option<String>)
    ensures
        match r {
            Some(f) => family_of(category_id@) == Some(f@),
            None => family_of(category_id@) is None,
        },
{
    if is_blank(category_id) {
        return None;
    }
    match split_once(category_id, ':') {
        Some((family, _)) => Some(family),
        None => Some(category_id.to_string()),
    }
}

/// How a family reads.
pub open spec fn label_of_family(family: Seq<char>) -> Seq<char> {
    if family == "alimentacao"@ {
        "Alimentação"@
    } else if family == "saude"@ {
        "Saúde"@
    } else if family == "educacao"@ {
        "Educação"@
    } else if family == "salario"@ {
        "Salário"@
    } else {
        capitalized(replaced(family, '-', " "@))
    }
}

/// How a family reads.
pub fn family_label(family: &str) -> (r: String)
    ensures
        r@ == label_of_family(family@),
{
    if same(family, "alimentacao") {
        "Alimentação".to_string()
    } else if same(family, "saude") {
        "Saúde".to_string()
    } else if same(family, "educacao") {
        "Educação".to_string()
    } else if same(family, "salario") {
        "Salário".to_string()
    } else {
        capitalize(replace_char(family, '-', " ").as_str())
    }
}

/// The picture of a category, by its family.
pub open spec fn emoji_of(id: Seq<char>) -> Seq<char> {
    match family_of(id) {
        Some(f) => if f == "alimentacao"@ {
            "🍽️"@
        } else if f == "moradia"@ {
            "🏠"@
        } else if f == "receitas"@ || f == "salario"@ {
            "💰"@
        } else {
            "🏷️"@
        },
        None => "🏷️"@,
    }
}

/// The picture of a category.
pub fn category_emoji(category_id: &str) -> (r: &'static str)
    ensures
        r@ == emoji_of(category_id@),
{
    match category_family(category_id) {
        Some(f) => {
            if same(f.as_str(), "alimentacao") {
                "🍽️"
            } else if same(f.as_str(), "moradia") {
                "🏠"
            } else if same(f.as_str(), "receitas") || same(f.as_str(), "salario") {
                "💰"
            } else {
                "🏷️"
            }
        },
        None => "🏷️",
    }
}

/// The second part of a category: what stands between its first and second colon.
pub open spec fn second_part(id: Seq<char>) -> Option<Seq<char>> {
    match split_at_char(id, ':') {
        Some((_, rest)) => Some(rest.take(first_index(rest, ':'))),
        None => None,
    }
}

/// How a category reads: the family and the second part, as far as there are any.
pub open spec fn pretty_label(id: Seq<char>) -> Seq<char> {
    let family = match family_of(id) {
        Some(f) => label_of_family(f),
        None => Seq::empty(),
    };
    let sub = match second_part(id) {
        Some(s) => capitalized_words(replaced(s, '-', " "@)),
        None => Seq::empty(),
    };
    if family.len() > 0 && sub.len() > 0 {
        family + " · "@ + sub
    } else if family.len() > 0 {
        family
    } else if sub.len() > 0 {
        sub
    } else {
        id
    }
}

/// How a category reads.
pub fn pretty_category_label(category_id: &str) -> (r: String)
    ensures
        r@ == pretty_label(category_id@),
{
    let family = match category_family(category_id) {
        Some(f) => family_label(f.as_str()),
        None => String::new(),
    };
    let sub = match split_once(category_id, ':') {
        Some((_, rest)) => {
            let v = chars(rest.as_str());
            let at = find_char(&v, ':');
            let part = from_chars(&slice_chars(&v, 0, at));
            capitalize_words(replace_char(part.as_str(), '-', " ").as_str())
        },
        None => String::new(),
    };
    let has_family = !family.as_str().is_empty();
    let has_sub = !sub.as_str().is_empty();
    if has_family && has_sub {
        glue3(family.as_str(), " · ", sub.as_str())
    } else if has_family {
        family
    } else if has_sub {
        sub
    } else {
        category_id.to_string()
    }
}

/// How a month reference reads: `mai/2026`. What is no month stays as it is.
pub open spec fn month_name(month: Seq<char>) -> Seq<char> {
    match month_start(month) {
        Some((y, m, _)) => month_abbreviation(m) + "/"@ + crate::date::year_text(y),
        None => month,
    }
}

/// How a month reference reads.
pub fn month_label(month: &str) -> (r: String)
    ensures
        r@ == month_name(month@),
{
    match parse_month_ref(month) {
        Ok(d) => {
            d.known();
            let mut out = chars(month_short(d.month()));
            put(&mut out, "/");
            append_chars(&mut out, &crate::date::year_chars(d.year()));
            from_chars(&out)
        },
        Err(_) => month.to_string(),
    }
}

/// How many of the ten cells of a bar are full.
pub open spec fn full_cells(percent: int) -> int {
    if percent <= 0 {
        0
    } else if percent >= 100 {
        10
    } else {
        percent / 10
    }
}

/// A bar of ten cells.
pub open spec fn bar_text(percent: int) -> Seq<char> {
    Seq::new(
        10,
        |i: int|
            if i < full_cells(percent) {
                '█'
            } else {
                '░'
            },
    )
}

/// A bar of ten cells for a percentage.
pub fn progress_bar(percent: i64) -> (r: String)
    ensures
        r@ == bar_text(percent as int),
{
    let full: usize = if percent <= 0 {
        0
    } else if percent >= 100 {
        10
    } else {
        (percent / 10) as usize
    };
    let mut out: Vec<char> = Vec::new();
    let mut i: usize = 0;
    while i < 10
        invariant
            i <= 10,
            full == full_cells(percent as int),
            out@ == bar_text(percent as int).take(i as int),
        decreases 10 - i,
    {
        out.push(
            if i < full {
                '█'
            } else {
                '░'
            },
        );
        i = i + 1;
        assert(out@ =~= bar_text(percent as int).take(i as int));
    }
    assert(out@ =~= bar_text(percent as int));
    from_chars(&out)
}

} // verus!
