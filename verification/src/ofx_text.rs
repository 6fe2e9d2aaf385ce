//! The comparison of a statement with the stored transactions, in words.

use crate::date::{signed_number, signed_text};
use crate::money::{brl, brl_text};
use crate::ofx::{OfxConsistencyDbOnly, OfxConsistencyMatch, OfxConsistencyOutput};
use crate::text::{digits, glue, glue3, join, number, push_text, same, texts};
use crate::transactions::{barred, get_or, text_or};
use vstd::prelude::*;

verus! {

/// The fields that each line starts with.
pub open spec fn match_fields(m: OfxConsistencyMatch, mark: Seq<char>) -> Seq<Seq<char>> {
    seq![mark + m.ofx_date@, brl_text(m.ofx_amount), m.ofx_description@]
}

pub open spec fn day_difference(m: OfxConsistencyMatch) -> int {
    match m.date_diff_days {
        Some(d) => d as int,
        None => 0,
    }
}

/// A transaction of the statement on one line: matched, nearly matched, or not.
pub open spec fn match_line(m: OfxConsistencyMatch) -> Seq<char> {
    let id = text_or(m.transaction_id, "sem-id"@);
    if m.status@ == "matched"@ {
        barred(match_fields(m, "✅ "@).push(id))
    } else if m.status@ == "matched-near"@ {
        barred(
            match_fields(m, "⚠️ "@).push("match aproximado "@ + id).push(
                "delta-data "@ + signed_text(day_difference(m)) + "d"@,
            ),
        )
    } else {
        barred(match_fields(m, "❌ "@).push("sem match"@))
    }
}

fn make_fields(m: &OfxConsistencyMatch, mark: &str) -> (r: Vec<String>)
    ensures
        texts(r@) == match_fields(*m, mark@),
{
    let mut parts: Vec<String> = Vec::new();
    assert(texts(parts@) =~= Seq::<Seq<char>>::empty());
    push_text(&mut parts, glue(mark, m.ofx_date.as_str()));
    push_text(&mut parts, brl(m.ofx_amount));
    push_text(&mut parts, m.ofx_description.clone());
    assert(texts(parts@) =~= match_fields(*m, mark@));
    parts
}

fn make_match_line(m: &OfxConsistencyMatch) -> (r: String)
    ensures
        r@ == match_line(*m),
{
    let id = get_or(&m.transaction_id, "sem-id");
    if same(m.status.as_str(), "matched") {
        let mut parts = make_fields(m, "✅ ");
        push_text(&mut parts, id.to_string());
        join(&parts, " | ")
    } else if same(m.status.as_str(), "matched-near") {
        let days: i64 = match m.date_diff_days {
            Some(d) => d,
            None => 0,
        };
        let mut parts = make_fields(m, "⚠️ ");
        push_text(&mut parts, glue("match aproximado ", id));
        push_text(&mut parts, glue3("delta-data ", signed_number(days).as_str(), "d"));
        join(&parts, " | ")
    } else {
        let mut parts = make_fields(m, "❌ ");
        push_text(&mut parts, "sem match".to_string());
        join(&parts, " | ")
    }
}

pub open spec fn extra_line(e: OfxConsistencyDbOnly) -> Seq<char> {
    barred(seq![e.transaction_date@, brl_text(e.amount), e.description@, e.transaction_id@])
}

fn make_extra_line(e: &OfxConsistencyDbOnly) -> (r: String)
    ensures
        r@ == extra_line(*e),
{
    let mut parts: Vec<String> = Vec::new();
    assert(texts(parts@) =~= Seq::<Seq<char>>::empty());
    push_text(&mut parts, e.transaction_date.clone());
    push_text(&mut parts, brl(e.amount));
    push_text(&mut parts, e.description.clone());
    push_text(&mut parts, e.transaction_id.clone());
    assert(texts(parts@) =~= seq![
        e.transaction_date@,
        brl_text(e.amount),
        e.description@,
        e.transaction_id@,
    ]);
    join(&parts, " | ")
}

/// The counts of the comparison.
pub open spec fn counts_text(x: OfxConsistencyOutput, path: Seq<char>) -> Seq<Seq<char>> {
    seq![
        "🧪 OFX consistency check"@,
        "- arquivo: "@ + path,
        "- período OFX: "@ + x.range_start@ + " -> "@ + x.range_end@,
    ] + (match x.account_filter {
        Some(f) => seq!["- filtro de conta: "@ + f@],
        None => Seq::empty(),
    }) + seq![
        "- tolerância de data: "@ + signed_text(x.date_tolerance_days as int) + " dias"@,
        "- transações OFX: "@ + digits(x.ofx_transactions as nat),
        "- transações base (janela): "@ + digits(x.db_candidates as nat),
        "- casadas: "@ + digits(x.matched as nat),
        "- faltando na base: "@ + digits(x.missing_in_finance as nat),
        "- sobrando na base: "@ + digits(x.extra_in_finance as nat),
        "- consistente: "@ + (if x.consistent {
            "sim"@
        } else {
            "não"@
        }),
    ]
}

fn tell_counts(x: &OfxConsistencyOutput, path: &str) -> (r: Vec<String>)
    ensures
        texts(r@) == counts_text(*x, path@),
{
    let mut out: Vec<String> = Vec::new();
    assert(texts(out@) =~= Seq::<Seq<char>>::empty());
    push_text(&mut out, "🧪 OFX consistency check".to_string());
    push_text(&mut out, glue("- arquivo: ", path));
    let period = glue3(x.range_start.as_str(), " -> ", x.range_end.as_str());
    assert("- período OFX: "@ + period@ =~= "- período OFX: "@ + x.range_start@ + " -> "@
        + x.range_end@);
    push_text(&mut out, glue("- período OFX: ", period.as_str()));
    match &x.account_filter {
        Some(f) => {
            push_text(&mut out, glue("- filtro de conta: ", f.as_str()));
        },
        None => {},
    }
    push_text(
        &mut out,
        glue3("- tolerância de data: ", signed_number(x.date_tolerance_days).as_str(), " dias"),
    );
    push_text(&mut out, glue("- transações OFX: ", number(x.ofx_transactions as u64).as_str()));
    push_text(
        &mut out,
        glue("- transações base (janela): ", number(x.db_candidates as u64).as_str()),
    );
    push_text(&mut out, glue("- casadas: ", number(x.matched as u64).as_str()));
    push_text(&mut out, glue("- faltando na base: ", number(x.missing_in_finance as u64).as_str()));
    push_text(&mut out, glue("- sobrando na base: ", number(x.extra_in_finance as u64).as_str()));
    push_text(
        &mut out,
        glue(
            "- consistente: ",
            if x.consistent {
                "sim"
            } else {
                "não"
            },
        ),
    );
    assert(texts(out@) =~= counts_text(*x, path@));
    out
}

/// The comparison in words.
pub open spec fn consistency_text(x: OfxConsistencyOutput, path: Seq<char>) -> Seq<Seq<char>> {
    counts_text(x, path) + seq![""@, "Comparação transação a transação:"@] + x.matches@.map_values(
        |m: OfxConsistencyMatch| match_line(m),
    ) + seq![""@, "Extras na base (sem par no OFX):"@] + (if x.extra_transactions@.len() == 0 {
        seq!["Nenhum extra detectado."@]
    } else {
        x.extra_transactions@.map_values(|e: OfxConsistencyDbOnly| extra_line(e))
    })
}

/// The comparison in words.
pub fn tell_consistency(x: &OfxConsistencyOutput, path: &str) -> (r: Vec<String>)
    ensures
        texts(r@) == consistency_text(*x, path@),
{
    let mut out = tell_counts(x, path);
    push_text(&mut out, "".to_string());
    push_text(&mut out, "Comparação transação a transação:".to_string());
    let ghost head = texts(out@);
    let ghost want = x.matches@.map_values(|m: OfxConsistencyMatch| match_line(m));
    let mut i: usize = 0;
    assert(head + want.take(0) =~= head);
    while i < x.matches.len()
        invariant
            i <= x.matches.len(),
            want == x.matches@.map_values(|m: OfxConsistencyMatch| match_line(m)),
            texts(out@) == head + want.take(i as int),
        decreases x.matches.len() - i,
    {
        push_text(&mut out, make_match_line(&x.matches[i]));
        i = i + 1;
        assert(texts(out@) =~= head + want.take(i as int));
    }
    assert(want.take(i as int) =~= want);
    push_text(&mut out, "".to_string());
    push_text(&mut out, "Extras na base (sem par no OFX):".to_string());
    if x.extra_transactions.len() == 0 {
        push_text(&mut out, "Nenhum extra detectado.".to_string());
    } else {
        let ghost start = texts(out@);
        let ghost rest = x.extra_transactions@.map_values(|e: OfxConsistencyDbOnly| extra_line(e));
        let mut k: usize = 0;
        assert(start + rest.take(0) =~= start);
        while k < x.extra_transactions.len()
            invariant
                k <= x.extra_transactions.len(),
                rest == x.extra_transactions@.map_values(|e: OfxConsistencyDbOnly| extra_line(e)),
                texts(out@) == start + rest.take(k as int),
            decreases x.extra_transactions.len() - k,
        {
            push_text(&mut out, make_extra_line(&x.extra_transactions[k]));
            k = k + 1;
            assert(texts(out@) =~= start + rest.take(k as int));
        }
        assert(rest.take(k as int) =~= rest);
    }
    assert(texts(out@) =~= consistency_text(*x, path@));
    out
}

} // verus!
