//! Bank statements in OFX: reading them, and matching them with stored transactions.

use crate::amount::{
    abs, from_signed, limit, magnitude, minus, parse_amount, parsed_decimal, Amount,
};
use crate::date::{compact_date, in_calendar, iso, iso_text, parse_compact, Date};
use crate::description::{description_distance, distance, normalize_inline_text};
use crate::metadata::{paths, string_at, string_path};
use crate::order::{distinct, group_by_key, positions, sort, sorted, sorted_keys, Ranked};
use crate::records::{is_text, opt_clone, opt_text, TransactionRecord};
use crate::text::{
    all_digits, ascii_digit, chars, find_char, first_index, from_chars, glue, is_ascii_digit, join,
    joined, lemma_precedes_asymmetric, lemma_precedes_total, lemma_precedes_transitive, less,
    lines, lines_of, lower_ascii, lower_chars, precedes, replace_char, replaced, same, same_chars,
    same_ignoring_case, slice_chars, texts, trim, trim_chars, trimmed, words,
};
use vstd::prelude::*;

verus! {

// ---------------------------------------------------------------------------
// Reading

/// The value behind the tag at the beginning of a line: what stands between the tag
/// and the next angle bracket, without white space around it.
pub open spec fn tag_value(line: Seq<char>, tag: Seq<char>) -> Option<Seq<char>> {
    let s = trimmed(line);
    let open_tag = seq!['<'] + tag + seq!['>'];
    if s.len() >= open_tag.len() && lower_ascii(s.take(open_tag.len() as int)) == lower_ascii(
        open_tag,
    ) {
        let tail = trimmed(s.skip(open_tag.len() as int));
        let value = trimmed(tail.take(first_index(tail, '<')));
        if value.len() == 0 {
            None
        } else {
            Some(value)
        }
    } else {
        None
    }
}

/// The value behind the tag at the beginning of a line.
pub fn extract_ofx_tag_value_from_line(line: &str, tag: &str) -> (r: Option<String>)
    ensures
        match r {
            Some(v) => tag_value(line@, tag@) == Some(v@),
            None => tag_value(line@, tag@) is None,
        },
{
    let s = trim_chars(&chars(line));
    let mut open_tag: Vec<char> = Vec::new();
    open_tag.push('<');
    crate::text::append_chars(&mut open_tag, &chars(tag));
    open_tag.push('>');
    assert(open_tag@ =~= seq!['<'] + tag@ + seq!['>']);
    if s.len() < open_tag.len() {
        return None;
    }
    let prefix = slice_chars(&s, 0, open_tag.len());
    if !same_chars(&lower_chars(&prefix), &lower_chars(&open_tag)) {
        return None;
    }
    let tail = trim_chars(&slice_chars(&s, open_tag.len(), s.len()));
    let end = find_char(&tail, '<');
    let value = trim_chars(&slice_chars(&tail, 0, end));
    if value.len() == 0 {
        None
    } else {
        Some(from_chars(&value))
    }
}

/// The values behind the tag on the lines that begin with it, in their order.
pub open spec fn tag_values(lines: Seq<Seq<char>>, tag: Seq<char>) -> Seq<Seq<char>>
    decreases lines.len(),
{
    if lines.len() == 0 {
        Seq::empty()
    } else {
        let before = tag_values(lines.drop_last(), tag);
        match tag_value(lines.last(), tag) {
            Some(v) => before.push(v),
            None => before,
        }
    }
}

/// The values behind a tag.
pub fn parse_ofx_tag_values(raw: &str, tag: &str) -> (r: Vec<String>)
    ensures
        texts(r@) == tag_values(lines_of(raw@), tag@),
{
    let rows = lines(raw);
    let mut out: Vec<String> = Vec::new();
    let mut i: usize = 0;
    let ghost all = lines_of(raw@);
    assert(texts(out@) =~= tag_values(all.take(0), tag@));
    while i < rows.len()
        invariant
            i <= rows.len(),
            texts(rows@) == all,
            texts(out@) == tag_values(all.take(i as int), tag@),
        decreases rows.len() - i,
    {
        assert(all.take(i + 1).drop_last() =~= all.take(i as int));
        assert(all[i as int] == rows@[i as int]@);
        let ghost before = texts(out@);
        match extract_ofx_tag_value_from_line(rows[i].as_str(), tag) {
            Some(v) => {
                out.push(v);
                assert(texts(out@) =~= before.push(v@));
            },
            None => {},
        }
        i = i + 1;
    }
    assert(all.take(i as int) =~= all);
    out
}

/// The first eight digits of a text, or all of them where there are fewer.
pub open spec fn eight_digits(s: Seq<char>) -> Seq<char>
    decreases s.len(),
{
    if s.len() == 0 {
        Seq::empty()
    } else {
        let before = eight_digits(s.drop_last());
        if ascii_digit(s.last()) && before.len() < 8 {
            before.push(s.last())
        } else {
            before
        }
    }
}

/// The date that an OFX value names with its first eight digits.
pub open spec fn ofx_date(value: Seq<char>) -> Option<Date> {
    let d = eight_digits(value);
    if d.len() == 8 {
        compact_date(d)
    } else {
        None
    }
}

/// Reads an OFX date.
pub fn parse_ofx_date(value: &str) -> (r: Result<Date, String>)
    ensures
        match r {
            Ok(d) => ofx_date(value@) == Some(d),
            Err(e) => ofx_date(value@) is None && e@ == (if eight_digits(value@).len() != 8 {
                "Data OFX inválida: "@
            } else {
                "Falha ao parsear data OFX "@
            }) + value@,
        },
{
    let v = chars(value);
    let mut digits: Vec<char> = Vec::new();
    let mut i: usize = 0;
    while i < v.len()
        invariant
            i <= v.len(),
            digits@ == eight_digits(v@.take(i as int)),
            digits@.len() <= 8,
            all_digits(digits@),
        decreases v.len() - i,
    {
        assert(v@.take(i + 1).drop_last() =~= v@.take(i as int));
        if is_ascii_digit(v[i]) && digits.len() < 8 {
            digits.push(v[i]);
        }
        i = i + 1;
    }
    assert(v@.take(i as int) =~= v@);
    if digits.len() != 8 {
        return Err(glue("Data OFX inválida: ", value));
    }
    match parse_compact(from_chars(&digits).as_str()) {
        Some(d) => Ok(d),
        None => Err(glue("Falha ao parsear data OFX ", value)),
    }
}

/// The text in which an OFX amount is read: a decimal comma counts as a point.
pub open spec fn ofx_amount_text(value: Seq<char>) -> Seq<char> {
    replaced(trimmed(value), ',', "."@)
}

/// Reads an OFX amount.
pub fn parse_ofx_amount(value: &str) -> (r: Result<Amount, String>)
    ensures
        match r {
            Ok(a) => a.in_range() && parsed_decimal(ofx_amount_text(value@)) == Some(
                (a.sign(), a.units(), a.places()),
            ),
            Err(e) => parsed_decimal(ofx_amount_text(value@)) is None && e@
                == "Valor OFX inválido: "@ + value@,
        },
{
    let normalized = replace_char(trim(value).as_str(), ',', ".");
    match parse_amount(normalized.as_str()) {
        Some(a) => Ok(a),
        None => Err(glue("Valor OFX inválido: ", value)),
    }
}

/// A transaction of a statement.
pub struct OfxTransaction {
    pub fit_id: Option<String>,
    pub transaction_date: Date,
    pub amount: Amount,
    pub description: String,
}

/// How far the reading of a statement has come: the blocks that are complete, the
/// lines of the block that is open, and whether one is open.
pub struct BlockState {
    pub blocks: Seq<Seq<char>>,
    pub current: Seq<Seq<char>>,
    pub open: bool,
}

pub open spec fn is_open_tag(line: Seq<char>) -> bool {
    lower_ascii(trimmed(line)) == lower_ascii("<STMTTRN>"@)
}

pub open spec fn is_close_tag(line: Seq<char>) -> bool {
    lower_ascii(trimmed(line)) == lower_ascii("</STMTTRN>"@)
}

/// What one more line does. An opening tag begins a block, and ends an open one that
/// has lines; a closing tag ends the open block; any other line belongs to it.
pub open spec fn block_step(s: BlockState, line: Seq<char>) -> BlockState {
    if is_open_tag(line) {
        if s.open && s.current.len() > 0 {
            BlockState {
                blocks: s.blocks.push(joined(s.current, "\n"@)),
                current: Seq::empty(),
                open: true,
            }
        } else {
            BlockState { blocks: s.blocks, current: s.current, open: true }
        }
    } else if is_close_tag(line) {
        if s.open {
            BlockState {
                blocks: s.blocks.push(joined(s.current, "\n"@)),
                current: Seq::empty(),
                open: false,
            }
        } else {
            s
        }
    } else if s.open {
        BlockState { blocks: s.blocks, current: s.current.push(trimmed(line)), open: true }
    } else {
        s
    }
}

pub open spec fn block_state(lines: Seq<Seq<char>>) -> BlockState
    decreases lines.len(),
{
    if lines.len() == 0 {
        BlockState { blocks: Seq::empty(), current: Seq::empty(), open: false }
    } else {
        block_step(block_state(lines.drop_last()), lines.last())
    }
}

/// The blocks of a statement; an open block with lines counts at the end.
pub open spec fn blocks_of(lines: Seq<Seq<char>>) -> Seq<Seq<char>> {
    let s = block_state(lines);
    if s.open && s.current.len() > 0 {
        s.blocks.push(joined(s.current, "\n"@))
    } else {
        s.blocks
    }
}

fn statement_blocks(raw: &str) -> (r: Vec<String>)
    ensures
        texts(r@) == blocks_of(lines_of(raw@)),
{
    let rows = lines(raw);
    let mut blocks: Vec<String> = Vec::new();
    let mut current: Vec<String> = Vec::new();
    let mut open = false;
    let mut i: usize = 0;
    let ghost all = lines_of(raw@);
    assert(texts(blocks@) =~= Seq::<Seq<char>>::empty());
    assert(texts(current@) =~= Seq::<Seq<char>>::empty());
    while i < rows.len()
        invariant
            i <= rows.len(),
            texts(rows@) == all,
            texts(blocks@) == block_state(all.take(i as int)).blocks,
            texts(current@) == block_state(all.take(i as int)).current,
            open == block_state(all.take(i as int)).open,
        decreases rows.len() - i,
    {
        assert(all.take(i + 1).drop_last() =~= all.take(i as int));
        assert(all[i as int] == rows@[i as int]@);
        let ghost b = texts(blocks@);
        let ghost c = texts(current@);
        let line = trim(rows[i].as_str());
        if same_ignoring_case(line.as_str(), "<STMTTRN>") {
            if open && current.len() > 0 {
                blocks.push(join(&current, "\n"));
                assert(texts(blocks@) =~= b.push(joined(c, "\n"@)));
                current = Vec::new();
                assert(texts(current@) =~= Seq::<Seq<char>>::empty());
            }
            open = true;
        } else if same_ignoring_case(line.as_str(), "</STMTTRN>") {
            if open {
                blocks.push(join(&current, "\n"));
                assert(texts(blocks@) =~= b.push(joined(c, "\n"@)));
                current = Vec::new();
                assert(texts(current@) =~= Seq::<Seq<char>>::empty());
                open = false;
            }
        } else if open {
            current.push(line);
            assert(texts(current@) =~= c.push(line@));
        }
        i = i + 1;
    }
    assert(all.take(i as int) =~= all);
    if open && current.len() > 0 {
        let ghost b = texts(blocks@);
        blocks.push(join(&current, "\n"));
        assert(texts(blocks@) =~= b.push(joined(texts(current@), "\n"@)));
    }
    blocks
}

/// The first value behind the tag in a block.
pub open spec fn first_value(block: Seq<char>, tag: Seq<char>) -> Option<Seq<char>> {
    let v = tag_values(lines_of(block), tag);
    if v.len() > 0 {
        Some(v[0])
    } else {
        None
    }
}

fn first_tag_value(block: &str, tag: &str) -> (r: Option<String>)
    ensures
        match r {
            Some(v) => first_value(block@, tag@) == Some(v@),
            None => first_value(block@, tag@) is None,
        },
{
    let mut v = parse_ofx_tag_values(block, tag);
    if v.len() > 0 {
        assert(texts(v@)[0] == v@[0]@);
        Some(v.remove(0))
    } else {
        None
    }
}

/// The description of a block: its memo, its name, its payee, or a stand-in.
pub open spec fn block_description(block: Seq<char>) -> Seq<char> {
    if first_value(block, "MEMO"@) is Some {
        first_value(block, "MEMO"@)->0
    } else if first_value(block, "NAME"@) is Some {
        first_value(block, "NAME"@)->0
    } else if first_value(block, "PAYEE"@) is Some {
        first_value(block, "PAYEE"@)->0
    } else {
        "sem-descricao"@
    }
}

/// Why a block cannot be read: date missing, amount missing, date or amount
/// unreadable, in this order.
pub open spec fn block_error(block: Seq<char>) -> Option<Seq<char>> {
    match (first_value(block, "DTPOSTED"@), first_value(block, "TRNAMT"@)) {
        (None, _) => Some("Transação OFX sem DTPOSTED"@),
        (Some(_), None) => Some("Transação OFX sem TRNAMT"@),
        (Some(date), Some(amount)) => if ofx_date(date) is None {
            Some(
                (if eight_digits(date).len() != 8 {
                    "Data OFX inválida: "@
                } else {
                    "Falha ao parsear data OFX "@
                }) + date,
            )
        } else if parsed_decimal(ofx_amount_text(amount)) is None {
            Some("Valor OFX inválido: "@ + amount)
        } else {
            None
        },
    }
}

/// Whether the row is what a readable block says.
pub open spec fn reads_block(row: OfxTransaction, block: Seq<char>) -> bool {
    &&& block_error(block) is None
    &&& opt_text(row.fit_id) == first_value(block, "FITID"@)
    &&& Some(row.transaction_date) == ofx_date(first_value(block, "DTPOSTED"@)->0)
    &&& row.amount.in_range()
    &&& parsed_decimal(ofx_amount_text(first_value(block, "TRNAMT"@)->0)) == Some(
        (row.amount.sign(), row.amount.units(), row.amount.places()),
    )
    &&& row.description@ == joined(words(block_description(block)), seq![' '])
}

fn read_block(block: &str) -> (r: Result<OfxTransaction, String>)
    ensures
        match r {
            Ok(row) => reads_block(row, block@),
            Err(e) => block_error(block@) == Some(e@),
        },
{
    let date_raw = match first_tag_value(block, "DTPOSTED") {
        Some(v) => v,
        None => {
            return Err("Transação OFX sem DTPOSTED".to_string());
        },
    };
    let amount_raw = match first_tag_value(block, "TRNAMT") {
        Some(v) => v,
        None => {
            return Err("Transação OFX sem TRNAMT".to_string());
        },
    };
    let fit_id = first_tag_value(block, "FITID");
    let description = match first_tag_value(block, "MEMO") {
        Some(v) => v,
        None => match first_tag_value(block, "NAME") {
            Some(v) => v,
            None => match first_tag_value(block, "PAYEE") {
                Some(v) => v,
                None => "sem-descricao".to_string(),
            },
        },
    };
    let transaction_date = match parse_ofx_date(date_raw.as_str()) {
        Ok(d) => d,
        Err(e) => {
            return Err(e);
        },
    };
    let amount = match parse_ofx_amount(amount_raw.as_str()) {
        Ok(a) => a,
        Err(e) => {
            return Err(e);
        },
    };
    Ok(
        OfxTransaction {
            fit_id,
            transaction_date,
            amount,
            description: normalize_inline_text(description.as_str()),
        },
    )
}

/// The first block that cannot be read says why the statement cannot.
pub open spec fn first_error(blocks: Seq<Seq<char>>) -> Option<Seq<char>>
    decreases blocks.len(),
{
    if blocks.len() == 0 {
        None
    } else if block_error(blocks[0]) is Some {
        block_error(blocks[0])
    } else {
        first_error(blocks.drop_first())
    }
}

/// Reads the transactions of a statement.
pub fn parse_ofx_transactions(raw: &str) -> (r: Result<Vec<OfxTransaction>, String>)
    ensures
        match r {
            Ok(rows) => first_error(blocks_of(lines_of(raw@))) is None && rows@.len() == blocks_of(
                lines_of(raw@),
            ).len() && forall|i: int|
                0 <= i < rows@.len() ==> reads_block(
                    #[trigger] rows@[i],
                    blocks_of(lines_of(raw@))[i],
                ),
            Err(e) => first_error(blocks_of(lines_of(raw@))) == Some(e@),
        },
{
    let blocks = statement_blocks(raw);
    let ghost all = blocks_of(lines_of(raw@));
    let mut rows: Vec<OfxTransaction> = Vec::new();
    let mut i: usize = 0;
    assert(all.skip(0) =~= all);
    while i < blocks.len()
        invariant
            i <= blocks.len(),
            all == blocks_of(lines_of(raw@)),
            texts(blocks@) == all,
            rows@.len() == i,
            first_error(all) == first_error(all.skip(i as int)),
            forall|j: int| 0 <= j < i ==> reads_block(#[trigger] rows@[j], all[j]),
        decreases blocks.len() - i,
    {
        assert(all[i as int] == blocks@[i as int]@);
        assert(all.skip(i as int).drop_first() =~= all.skip(i + 1));
        match read_block(blocks[i].as_str()) {
            Ok(row) => {
                rows.push(row);
            },
            Err(e) => {
                return Err(e);
            },
        }
        i = i + 1;
    }
    Ok(rows)
}

// ---------------------------------------------------------------------------
// Finding the account

/// Whether `id` stands most often in the list, the smallest of those that do.
pub open spec fn most_common(keys: Seq<Seq<char>>, id: Seq<char>) -> bool {
    &&& positions(keys, id).len() > 0
    &&& forall|k: Seq<char>|
        (#[trigger] positions(keys, k)).len() < positions(keys, id).len() || (positions(
            keys,
            k,
        ).len() == positions(keys, id).len() && (k == id || precedes(id, k)))
}

fn find_most_common(keys: &Vec<String>) -> (r: Option<String>)
    ensures
        match r {
            Some(id) => most_common(texts(keys@), id@),
            None => keys@.len() == 0,
        },
{
    let groups = group_by_key(keys);
    let ghost all = texts(keys@);
    if groups.len() == 0 {
        proof {
            if keys@.len() > 0 {
                let p = all[0];
                assert(exists|i: int| 0 <= i < groups@.len() && (#[trigger] groups@[i]).key@ == all[0]);
            }
        }
        return None;
    }
    let mut best: usize = 0;
    let mut i: usize = 1;
    while i < groups.len()
        invariant
            best < i <= groups.len(),
            forall|j: int|
                0 <= j < i ==> (#[trigger] groups@[j]).members@.len() < groups@[best as int].members@.len()
                    || (groups@[j].members@.len() == groups@[best as int].members@.len() && best <= j),
        decreases groups.len() - i,
    {
        if groups[i].members.len() > groups[best].members.len() {
            best = i;
        }
        i = i + 1;
    }
    proof {
        let id = groups@[best as int].key@;
        assert forall|k: Seq<char>|
            (#[trigger] positions(all, k)).len() < positions(all, id).len() || (positions(all, k).len()
                == positions(all, id).len() && (k == id || precedes(id, k))) by {
            crate::order::lemma_positions(all, k);
            if positions(all, k).len() > 0 {
                let p = positions(all, k)[0];
                assert(all[p] == k);
                let j = choose|j: int| 0 <= j < groups@.len() && (#[trigger] groups@[j]).key@ == all[p];
                assert(crate::order::as_ints(groups@[j].members@).len() == groups@[j].members@.len());
                assert(crate::order::as_ints(groups@[best as int].members@).len()
                    == groups@[best as int].members@.len());
            }
        }
    }
    Some(groups[best].key.clone())
}

/// Whether the identifier is that of a statement transaction.
pub open spec fn has_fit_id(rows: Seq<OfxTransaction>, id: Seq<char>) -> bool {
    exists|i: int| 0 <= i < rows.len() && opt_text((#[trigger] rows[i]).fit_id) == Some(id)
}

fn holds_fit_id(rows: &Vec<OfxTransaction>, id: &str) -> (r: bool)
    ensures
        r == has_fit_id(rows@, id@),
{
    let mut i: usize = 0;
    while i < rows.len()
        invariant
            i <= rows.len(),
            forall|j: int| 0 <= j < i ==> opt_text((#[trigger] rows@[j]).fit_id) != Some(id@),
        decreases rows.len() - i,
    {
        if is_text(&rows[i].fit_id, id) {
            return true;
        }
        i = i + 1;
    }
    false
}

/// The accounts of the stored transactions that a statement names by identifier.
pub open spec fn fit_accounts(rows: Seq<OfxTransaction>, db: Seq<TransactionRecord>) -> Seq<
    Seq<char>,
>
    decreases db.len(),
{
    if db.len() == 0 {
        Seq::empty()
    } else {
        let before = fit_accounts(rows, db.drop_last());
        match opt_text(db.last().account_id) {
            Some(a) if has_fit_id(rows, db.last().transaction_id@) => before.push(a),
            _ => before,
        }
    }
}

/// The account that most of the transactions named by identifier belong to.
pub fn infer_account_id_from_fit_ids(
    ofx_rows: &Vec<OfxTransaction>,
    db_rows: &Vec<TransactionRecord>,
) -> (r: Option<String>)
    ensures
        match r {
            Some(id) => most_common(fit_accounts(ofx_rows@, db_rows@), id@),
            None => fit_accounts(ofx_rows@, db_rows@).len() == 0,
        },
{
    let mut keys: Vec<String> = Vec::new();
    let mut i: usize = 0;
    assert(texts(keys@) =~= fit_accounts(ofx_rows@, db_rows@.take(0)));
    while i < db_rows.len()
        invariant
            i <= db_rows.len(),
            texts(keys@) == fit_accounts(ofx_rows@, db_rows@.take(i as int)),
        decreases db_rows.len() - i,
    {
        assert(db_rows@.take(i + 1).drop_last() =~= db_rows@.take(i as int));
        let ghost before = texts(keys@);
        if holds_fit_id(ofx_rows, db_rows[i].transaction_id.as_str()) {
            match &db_rows[i].account_id {
                Some(a) => {
                    keys.push(a.clone());
                    assert(texts(keys@) =~= before.push(a@));
                },
                None => {},
            }
        }
        i = i + 1;
    }
    assert(db_rows@.take(i as int) =~= db_rows@);
    find_most_common(&keys)
}

/// The difference of two amounts without its sign.
pub open spec fn amount_gap(a: TransactionRecord, b: OfxTransaction) -> Amount {
    magnitude(minus(a.amount, b.amount))
}

/// The days between two transactions.
pub open spec fn day_gap(a: TransactionRecord, b: OfxTransaction) -> int {
    abs(a.transaction_date.number() - b.transaction_date.number())
}

/// Whether the difference of the two amounts is within the range of amounts.
pub open spec fn gap_fits(a: TransactionRecord, b: OfxTransaction) -> bool {
    abs(a.amount.scaled() - b.amount.scaled()) <= limit()
}

pub open spec fn gaps_fit(db: Seq<TransactionRecord>, rows: Seq<OfxTransaction>) -> bool {
    forall|i: int, j: int|
        0 <= i < db.len() && 0 <= j < rows.len() ==> gap_fits(
            #[trigger] db[i],
            #[trigger] rows[j],
        )
}

/// Whether a stored transaction and one of a statement agree: the amounts differ by
/// at most a cent, and the days by no more than the tolerance.
pub open spec fn agrees(a: TransactionRecord, b: OfxTransaction, tolerance: int) -> bool {
    amount_gap(a, b).scaled() <= from_signed(1, 2).scaled() && day_gap(a, b) <= tolerance
}

fn gap_between(a: &TransactionRecord, b: &OfxTransaction) -> (r: Amount)
    requires
        gap_fits(*a, *b),
    ensures
        r == amount_gap(*a, *b),
{
    a.amount.subtracted(&b.amount).abs()
}

fn days_between(a: &TransactionRecord, b: &OfxTransaction) -> (r: i64)
    ensures
        r == day_gap(*a, *b),
{
    let d: i64 = a.transaction_date.days_since(&b.transaction_date);
    if d < 0 {
        -d
    } else {
        d
    }
}

fn rows_agree(a: &TransactionRecord, b: &OfxTransaction, tolerance: i64) -> (r: bool)
    requires
        gap_fits(*a, *b),
    ensures
        r == agrees(*a, *b, tolerance as int),
{
    let cent = Amount::new(1, 2);
    let gap = gap_between(a, b);
    !cent.is_less(&gap) && days_between(a, b) <= tolerance
}

/// Whether the stored transaction agrees with some transaction of the statement.
pub open spec fn agrees_with_some(
    a: TransactionRecord,
    rows: Seq<OfxTransaction>,
    tolerance: int,
) -> bool {
    exists|j: int| 0 <= j < rows.len() && agrees(a, #[trigger] rows[j], tolerance)
}

/// The accounts of the stored transactions that agree with some of the statement.
pub open spec fn overlap_accounts(
    rows: Seq<OfxTransaction>,
    db: Seq<TransactionRecord>,
    tolerance: int,
) -> Seq<Seq<char>>
    decreases db.len(),
{
    if db.len() == 0 {
        Seq::empty()
    } else {
        let before = overlap_accounts(rows, db.drop_last(), tolerance);
        match opt_text(db.last().account_id) {
            Some(a) if agrees_with_some(db.last(), rows, tolerance) => before.push(a),
            _ => before,
        }
    }
}

fn agrees_with_any(a: &TransactionRecord, rows: &Vec<OfxTransaction>, tolerance: i64) -> (r: bool)
    requires
        forall|j: int| 0 <= j < rows@.len() ==> gap_fits(*a, #[trigger] rows@[j]),
    ensures
        r == agrees_with_some(*a, rows@, tolerance as int),
{
    let mut j: usize = 0;
    while j < rows.len()
        invariant
            j <= rows.len(),
            forall|k: int| 0 <= k < rows@.len() ==> gap_fits(*a, #[trigger] rows@[k]),
            forall|k: int| 0 <= k < j ==> !agrees(*a, #[trigger] rows@[k], tolerance as int),
        decreases rows.len() - j,
    {
        if rows_agree(a, &rows[j], tolerance) {
            return true;
        }
        j = j + 1;
    }
    false
}

/// The account that most of the agreeing transactions belong to.
pub fn infer_account_id_from_overlap(
    ofx_rows: &Vec<OfxTransaction>,
    db_rows: &Vec<TransactionRecord>,
    date_tolerance_days: i64,
) -> (r: Option<String>)
    requires
        gaps_fit(db_rows@, ofx_rows@),
    ensures
        match r {
            Some(id) => most_common(
                overlap_accounts(ofx_rows@, db_rows@, date_tolerance_days as int),
                id@,
            ),
            None => overlap_accounts(ofx_rows@, db_rows@, date_tolerance_days as int).len() == 0,
        },
{
    let mut keys: Vec<String> = Vec::new();
    let mut i: usize = 0;
    let ghost tol = date_tolerance_days as int;
    assert(texts(keys@) =~= overlap_accounts(ofx_rows@, db_rows@.take(0), tol));
    while i < db_rows.len()
        invariant
            i <= db_rows.len(),
            gaps_fit(db_rows@, ofx_rows@),
            tol == date_tolerance_days,
            texts(keys@) == overlap_accounts(ofx_rows@, db_rows@.take(i as int), tol),
        decreases db_rows.len() - i,
    {
        assert(db_rows@.take(i + 1).drop_last() =~= db_rows@.take(i as int));
        let ghost before = texts(keys@);
        match &db_rows[i].account_id {
            Some(a) => {
                if agrees_with_any(&db_rows[i], ofx_rows, date_tolerance_days) {
                    keys.push(a.clone());
                    assert(texts(keys@) =~= before.push(a@));
                }
            },
            None => {},
        }
        i = i + 1;
    }
    assert(db_rows@.take(i as int) =~= db_rows@);
    find_most_common(&keys)
}

// ---------------------------------------------------------------------------
// The best match

/// Whether the stored transaction at `i` can be matched: not used, and agreeing.
pub open spec fn candidate(
    row: OfxTransaction,
    db: Seq<TransactionRecord>,
    used: Seq<bool>,
    tolerance: int,
    i: int,
) -> bool {
    !(i < used.len() && used[i]) && agrees(db[i], row, tolerance)
}

/// Whether `a` is closer to the statement transaction than `b`: by amount, then by
/// day, then by description.
pub open spec fn closer(row: OfxTransaction, a: TransactionRecord, b: TransactionRecord) -> bool {
    let x = amount_gap(a, row).scaled();
    let y = amount_gap(b, row).scaled();
    ||| x < y
    ||| x == y && day_gap(a, row) < day_gap(b, row)
    ||| x == y && day_gap(a, row) == day_gap(b, row) && distance(
        row.description@,
        a.raw_description@,
    ) < distance(row.description@, b.raw_description@)
}

/// The closest candidate among the first `n`, the earliest of several.
pub open spec fn best_among(
    row: OfxTransaction,
    db: Seq<TransactionRecord>,
    used: Seq<bool>,
    tolerance: int,
    n: int,
) -> Option<int>
    decreases n,
{
    if n <= 0 {
        None
    } else {
        let before = best_among(row, db, used, tolerance, n - 1);
        if !candidate(row, db, used, tolerance, n - 1) {
            before
        } else {
            match before {
                Some(b) => if closer(row, db[n - 1], db[b]) {
                    Some(n - 1)
                } else {
                    before
                },
                None => Some(n - 1),
            }
        }
    }
}

/// The best match for a transaction of a statement: its position, and how far its
/// amount, day and description are.
pub fn find_best_ofx_match(
    ofx_tx: &OfxTransaction,
    db_rows: &Vec<TransactionRecord>,
    used_rows: &Vec<bool>,
    date_tolerance_days: i64,
) -> (r: Option<(usize, Amount, i64, usize)>)
    requires
        forall|i: int| 0 <= i < db_rows@.len() ==> gap_fits(#[trigger] db_rows@[i], *ofx_tx),
    ensures
        match r {
            Some((idx, gap, days, dist)) => best_among(
                *ofx_tx,
                db_rows@,
                used_rows@,
                date_tolerance_days as int,
                db_rows@.len() as int,
            ) == Some(idx as int) && gap == amount_gap(db_rows@[idx as int], *ofx_tx) && days
                == day_gap(db_rows@[idx as int], *ofx_tx) && dist == distance(
                ofx_tx.description@,
                db_rows@[idx as int].raw_description@,
            ),
            None => best_among(
                *ofx_tx,
                db_rows@,
                used_rows@,
                date_tolerance_days as int,
                db_rows@.len() as int,
            ) is None,
        },
{
    let mut best: Option<(usize, Amount, i64, usize)> = None;
    let mut idx: usize = 0;
    let ghost tol = date_tolerance_days as int;
    let cent = Amount::new(1, 2);
    while idx < db_rows.len()
        invariant
            idx <= db_rows.len(),
            tol == date_tolerance_days,
            cent == from_signed(1, 2),
            forall|i: int| 0 <= i < db_rows@.len() ==> gap_fits(#[trigger] db_rows@[i], *ofx_tx),
            match best {
                Some((b, gap, days, dist)) => b < idx && best_among(
                    *ofx_tx,
                    db_rows@,
                    used_rows@,
                    tol,
                    idx as int,
                ) == Some(b as int) && gap == amount_gap(db_rows@[b as int], *ofx_tx) && days
                    == day_gap(db_rows@[b as int], *ofx_tx) && dist == distance(
                    ofx_tx.description@,
                    db_rows@[b as int].raw_description@,
                ),
                None => best_among(*ofx_tx, db_rows@, used_rows@, tol, idx as int) is None,
            },
        decreases db_rows.len() - idx,
    {
        let used = idx < used_rows.len() && used_rows[idx];
        if !used {
            let gap = gap_between(&db_rows[idx], ofx_tx);
            if !cent.is_less(&gap) {
                let days: i64 = days_between(&db_rows[idx], ofx_tx);
                if days <= date_tolerance_days {
                    let dist: usize = description_distance(
                        ofx_tx.description.as_str(),
                        db_rows[idx].raw_description.as_str(),
                    );
                    let replace = match &best {
                        None => true,
                        Some((_, best_gap, best_days, best_dist)) => gap.is_less(best_gap) || (
                        gap.is_same(best_gap) && (days < *best_days || (days == *best_days && dist
                            < *best_dist))),
                    };
                    if replace {
                        best = Some((idx, gap, days, dist));
                    }
                }
            }
        }
        idx = idx + 1;
    }
    best
}

/// The best match is a candidate, and no candidate is closer.
pub proof fn law_best_match_is_closest(
    row: OfxTransaction,
    db: Seq<TransactionRecord>,
    used: Seq<bool>,
    tolerance: int,
    n: int,
)
    requires
        0 <= n <= db.len(),
    ensures
        match best_among(row, db, used, tolerance, n) {
            Some(b) => 0 <= b < n && candidate(row, db, used, tolerance, b) && forall|i: int|
                0 <= i < n && candidate(row, db, used, tolerance, i) ==> !closer(
                    row,
                    #[trigger] db[i],
                    db[b],
                ),
            None => forall|i: int|
                0 <= i < n ==> !candidate(row, db, used, tolerance, i),
        },
    decreases n,
{
    if n > 0 {
        law_best_match_is_closest(row, db, used, tolerance, n - 1);
    }
}

// ---------------------------------------------------------------------------
// Statement order

/// A total preorder by day, then by amount, then by text.
pub open spec fn day_amount_text_le(
    da: Date,
    xa: Amount,
    ta: Seq<char>,
    db: Date,
    xb: Amount,
    tb: Seq<char>,
) -> bool {
    da.before(db) || (!db.before(da) && (xa.scaled() < xb.scaled() || (xa.scaled() == xb.scaled()
        && !precedes(tb, ta))))
}

fn day_amount_text_first(
    da: &Date,
    xa: &Amount,
    ta: &str,
    db: &Date,
    xb: &Amount,
    tb: &str,
) -> (r: bool)
    ensures
        r == day_amount_text_le(*da, *xa, ta@, *db, *xb, tb@),
{
    da.is_before(db) || (!db.is_before(da) && (xa.is_less(xb) || (!xb.is_less(xa) && !less(
        tb,
        ta,
    ))))
}

proof fn lemma_texts_transitive(a: Seq<char>, b: Seq<char>, c: Seq<char>)
    requires
        !precedes(b, a),
        !precedes(c, b),
    ensures
        !precedes(c, a),
{
    lemma_precedes_total(a, b);
    lemma_precedes_total(b, c);
    if precedes(c, a) {
        if a == b {
        } else if b == c {
        } else {
            lemma_precedes_transitive(a, b, c);
            lemma_precedes_asymmetric(a, c);
        }
    }
}

impl Ranked for OfxTransaction {
    open spec fn le(a: Self, b: Self) -> bool {
        day_amount_text_le(
            a.transaction_date,
            a.amount,
            a.description@,
            b.transaction_date,
            b.amount,
            b.description@,
        )
    }

    proof fn le_total(a: Self, b: Self) {
        if precedes(b.description@, a.description@) {
            lemma_precedes_asymmetric(b.description@, a.description@);
        }
    }

    proof fn le_transitive(a: Self, b: Self, c: Self) {
        if !precedes(b.description@, a.description@) && !precedes(c.description@, b.description@) {
            lemma_texts_transitive(a.description@, b.description@, c.description@);
        }
    }

    fn may_precede(&self, other: &Self) -> (r: bool) {
        day_amount_text_first(
            &self.transaction_date,
            &self.amount,
            self.description.as_str(),
            &other.transaction_date,
            &other.amount,
            other.description.as_str(),
        )
    }
}

/// A stored transaction, ranked by day, amount and identifier.
pub struct StoredRow {
    pub row: TransactionRecord,
}

impl Ranked for StoredRow {
    open spec fn le(a: Self, b: Self) -> bool {
        day_amount_text_le(
            a.row.transaction_date,
            a.row.amount,
            a.row.transaction_id@,
            b.row.transaction_date,
            b.row.amount,
            b.row.transaction_id@,
        )
    }

    proof fn le_total(a: Self, b: Self) {
        if precedes(b.row.transaction_id@, a.row.transaction_id@) {
            lemma_precedes_asymmetric(b.row.transaction_id@, a.row.transaction_id@);
        }
    }

    proof fn le_transitive(a: Self, b: Self, c: Self) {
        if !precedes(b.row.transaction_id@, a.row.transaction_id@) && !precedes(
            c.row.transaction_id@,
            b.row.transaction_id@,
        ) {
            lemma_texts_transitive(
                a.row.transaction_id@,
                b.row.transaction_id@,
                c.row.transaction_id@,
            );
        }
    }

    fn may_precede(&self, other: &Self) -> (r: bool) {
        day_amount_text_first(
            &self.row.transaction_date,
            &self.row.amount,
            self.row.transaction_id.as_str(),
            &other.row.transaction_date,
            &other.row.amount,
            other.row.transaction_id.as_str(),
        )
    }
}

pub open spec fn stored(db: Seq<TransactionRecord>) -> Seq<StoredRow> {
    db.map_values(|r: TransactionRecord| StoredRow { row: r })
}

pub open spec fn unstored(rows: Seq<StoredRow>) -> Seq<TransactionRecord> {
    rows.map_values(|r: StoredRow| r.row)
}

/// The stored transactions in the order of day, amount and identifier.
pub open spec fn sorted_rows(db: Seq<TransactionRecord>) -> Seq<TransactionRecord> {
    unstored(sorted(stored(db)))
}

fn sort_rows(db_rows: Vec<TransactionRecord>) -> (r: Vec<TransactionRecord>)
    ensures
        r@ == sorted_rows(db_rows@),
        r@.len() == db_rows@.len(),
{
    let mut rest = db_rows;
    let mut wrapped: Vec<StoredRow> = Vec::new();
    let n: usize = rest.len();
    let mut i: usize = 0;
    while i < n
        invariant
            i <= n,
            n == db_rows.len(),
            rest@ == db_rows@.skip(i as int),
            wrapped@ == stored(db_rows@.take(i as int)),
        decreases n - i,
    {
        let row = rest.remove(0);
        wrapped.push(StoredRow { row });
        i = i + 1;
        assert(wrapped@ =~= stored(db_rows@.take(i as int)));
        assert(rest@ =~= db_rows@.skip(i as int));
    }
    assert(db_rows@.take(n as int) =~= db_rows@);
    let mut ordered = sort(wrapped);
    let ghost all = ordered@;
    let mut out: Vec<TransactionRecord> = Vec::new();
    let mut k: usize = 0;
    while k < n
        invariant
            k <= n,
            n == all.len(),
            ordered@ == all.skip(k as int),
            out@ == unstored(all.take(k as int)),
        decreases n - k,
    {
        let s = ordered.remove(0);
        out.push(s.row);
        k = k + 1;
        assert(out@ =~= unstored(all.take(k as int)));
        assert(ordered@ =~= all.skip(k as int));
    }
    assert(all.take(n as int) =~= all);
    out
}

// ---------------------------------------------------------------------------
// What to look for

/// A statement ready to be compared: its transactions in order, the days that it
/// covers, the days to look at, and the accounts that it names.
pub struct OfxQuery {
    pub rows: Vec<OfxTransaction>,
    pub range_start: Date,
    pub range_end: Date,
    pub since: Date,
    pub until: Date,
    pub account_ids: Vec<String>,
    pub date_tolerance_days: i64,
}

/// The values of the account tag that are not blank.
pub open spec fn named_accounts(values: Seq<Seq<char>>) -> Seq<Seq<char>>
    decreases values.len(),
{
    if values.len() == 0 {
        Seq::empty()
    } else if trimmed(values.last()).len() > 0 {
        named_accounts(values.drop_last()).push(values.last())
    } else {
        named_accounts(values.drop_last())
    }
}

/// Whether the transactions are those of a readable statement, in order.
pub open spec fn statement_rows(rows: Seq<OfxTransaction>, raw: Seq<char>) -> bool {
    let blocks = blocks_of(lines_of(raw));
    exists|unsorted: Seq<OfxTransaction>|
        #![trigger sorted(unsorted)]
        unsorted.len() == blocks.len() && (forall|i: int|
            0 <= i < unsorted.len() ==> reads_block(#[trigger] unsorted[i], blocks[i])) && rows
            == sorted(unsorted)
}

/// Whether the query is what the statement asks for.
pub open spec fn asks_for(q: OfxQuery, raw: Seq<char>, tolerance: int) -> bool {
    &&& q.date_tolerance_days == tolerance
    &&& statement_rows(q.rows@, raw)
    &&& q.rows@.len() > 0
    &&& q.range_start == q.rows@[0].transaction_date
    &&& q.range_end == q.rows@.last().transaction_date
    &&& q.since.number() == q.range_start.number() - tolerance
    &&& q.until.number() == q.range_end.number() + tolerance
    &&& texts(q.account_ids@) == sorted_keys(named_accounts(tag_values(lines_of(raw), "ACCTID"@)))
}

fn named_account_values(raw: &str) -> (r: Vec<String>)
    ensures
        texts(r@) == named_accounts(tag_values(lines_of(raw@), "ACCTID"@)),
{
    let values = parse_ofx_tag_values(raw, "ACCTID");
    let ghost all = tag_values(lines_of(raw@), "ACCTID"@);
    let mut out: Vec<String> = Vec::new();
    let mut i: usize = 0;
    assert(texts(out@) =~= named_accounts(all.take(0)));
    while i < values.len()
        invariant
            i <= values.len(),
            texts(values@) == all,
            texts(out@) == named_accounts(all.take(i as int)),
        decreases values.len() - i,
    {
        assert(all.take(i + 1).drop_last() =~= all.take(i as int));
        assert(all[i as int] == values@[i as int]@);
        let ghost before = texts(out@);
        if !crate::text::is_blank(values[i].as_str()) {
            out.push(values[i].clone());
            assert(texts(out@) =~= before.push(all[i as int]));
        }
        i = i + 1;
    }
    assert(all.take(i as int) =~= all);
    out
}

/// Reads a statement and says which stored transactions to compare it with. It is
/// an error where the window leaves the calendar.
pub fn prepare_ofx(raw: &str, date_tolerance_days: i64) -> (r: Result<OfxQuery, String>)
    requires
        date_tolerance_days <= crate::date::MOST_DAYS,
    ensures
        match r {
            Ok(q) => date_tolerance_days >= 0 && first_error(blocks_of(lines_of(raw@))) is None
                && asks_for(q, raw@, date_tolerance_days as int),
            Err(e) => if date_tolerance_days < 0 {
                e@ == "date_tolerance_days deve ser >= 0"@
            } else if first_error(blocks_of(lines_of(raw@))) is Some {
                Some(e@) == first_error(blocks_of(lines_of(raw@)))
            } else if blocks_of(lines_of(raw@)).len() == 0 {
                e@ == "Nenhuma transação <STMTTRN> encontrada no OFX"@
            } else {
                exists|rows: Seq<OfxTransaction>| #[trigger]
                    statement_rows(rows, raw@) && (if !in_calendar(
                        rows[0].transaction_date.number() - date_tolerance_days,
                    ) {
                        e@ == "Falha ao calcular início da janela de busca"@
                    } else {
                        !in_calendar(rows.last().transaction_date.number() + date_tolerance_days)
                            && e@ == "Falha ao calcular fim da janela de busca"@
                    })
            },
        },
{
    if date_tolerance_days < 0 {
        return Err("date_tolerance_days deve ser >= 0".to_string());
    }
    let parsed = match parse_ofx_transactions(raw) {
        Ok(rows) => rows,
        Err(e) => {
            return Err(e);
        },
    };
    if parsed.len() == 0 {
        return Err("Nenhuma transação <STMTTRN> encontrada no OFX".to_string());
    }
    let ghost unsorted = parsed@;
    let rows = sort(parsed);
    assert(rows@ == sorted(unsorted));
    assert(statement_rows(rows@, raw@));
    let range_start = rows[0].transaction_date;
    let range_end = rows[rows.len() - 1].transaction_date;
    let since = match range_start.plus_days(-date_tolerance_days) {
        Some(d) => d,
        None => {
            return Err("Falha ao calcular início da janela de busca".to_string());
        },
    };
    proof {
        crate::date::lemma_day_in_calendar(since);
    }
    let until = match range_end.plus_days(date_tolerance_days) {
        Some(d) => d,
        None => {
            return Err("Falha ao calcular fim da janela de busca".to_string());
        },
    };
    let account_ids = distinct(&named_account_values(raw));
    Ok(OfxQuery { rows, range_start, range_end, since, until, account_ids, date_tolerance_days })
}

// ---------------------------------------------------------------------------
// Comparing

/// The stored transactions of one account.
pub open spec fn of_account(db: Seq<TransactionRecord>, id: Seq<char>) -> Seq<TransactionRecord> {
    db.filter(|r: TransactionRecord| opt_text(r.account_id) == Some(id))
}

fn keep_account(db_rows: Vec<TransactionRecord>, id: &str) -> (r: Vec<TransactionRecord>)
    ensures
        r@ == of_account(db_rows@, id@),
{
    let mut rest = db_rows;
    let n: usize = rest.len();
    let mut out: Vec<TransactionRecord> = Vec::new();
    let mut i: usize = 0;
    let ghost f = |r: TransactionRecord| opt_text(r.account_id) == Some(id@);
    reveal(Seq::filter);
    assert(out@ =~= db_rows@.take(0).filter(f));
    while i < n
        invariant
            i <= n,
            n == db_rows.len(),
            f == (|r: TransactionRecord| opt_text(r.account_id) == Some(id@)),
            rest@ == db_rows@.skip(i as int),
            out@ == db_rows@.take(i as int).filter(f),
        decreases n - i,
    {
        reveal(Seq::filter);
        let row = rest.remove(0);
        assert(db_rows@.take(i + 1).drop_last() =~= db_rows@.take(i as int));
        if is_text(&row.account_id, id) {
            out.push(row);
        }
        i = i + 1;
        assert(rest@ =~= db_rows@.skip(i as int));
    }
    assert(db_rows@.take(n as int) =~= db_rows@);
    out
}

/// The account that the bank's feed attached to a transaction.
pub open spec fn feed_account(row: TransactionRecord) -> Option<Seq<char>> {
    if string_at(row.metadata_json, seq!["pluggy_account_id"@]) is Some {
        string_at(row.metadata_json, seq!["pluggy_account_id"@])
    } else {
        string_at(row.metadata_json, seq!["raw"@, "accountId"@])
    }
}

/// The account that the bank's feed attached to a transaction.
pub fn metadata_pluggy_account_id(row: &TransactionRecord) -> (r: Option<&String>)
    ensures
        match r {
            Some(t) => feed_account(*row) == Some(t@),
            None => feed_account(*row) is None,
        },
{
    let direct = ["pluggy_account_id"];
    assert(paths(direct@) =~= seq!["pluggy_account_id"@]);
    match string_path(&row.metadata_json, &direct) {
        Some(t) => Some(t),
        None => {
            let raw = ["raw", "accountId"];
            assert(paths(raw@) =~= seq!["raw"@, "accountId"@]);
            string_path(&row.metadata_json, &raw)
        },
    }
}

pub open spec fn fed_by(ids: Seq<Seq<char>>) -> spec_fn(TransactionRecord) -> bool {
    |r: TransactionRecord| feed_account(r) is Some && ids.contains(feed_account(r)->0)
}

fn holds(list: &Vec<String>, s: &str) -> (r: bool)
    ensures
        r == texts(list@).contains(s@),
{
    let mut i: usize = 0;
    while i < list.len()
        invariant
            i <= list.len(),
            forall|j: int| 0 <= j < i ==> (#[trigger] list@[j])@ != s@,
        decreases list.len() - i,
    {
        if same(list[i].as_str(), s) {
            assert(texts(list@)[i as int] == s@);
            return true;
        }
        i = i + 1;
    }
    proof {
        if texts(list@).contains(s@) {
            let j = choose|j: int| 0 <= j < texts(list@).len() && texts(list@)[j] == s@;
            assert(list@[j]@ == s@);
        }
    }
    false
}

fn is_fed_by(row: &TransactionRecord, ids: &Vec<String>) -> (r: bool)
    ensures
        r == fed_by(texts(ids@))(*row),
{
    match metadata_pluggy_account_id(row) {
        Some(t) => holds(ids, t.as_str()),
        None => false,
    }
}

fn any_fed_by(db_rows: &Vec<TransactionRecord>, ids: &Vec<String>) -> (r: bool)
    ensures
        r == (db_rows@.filter(fed_by(texts(ids@))).len() > 0),
{
    let ghost f = fed_by(texts(ids@));
    let mut i: usize = 0;
    reveal(Seq::filter);
    assert(db_rows@.take(0).filter(f).len() == 0);
    while i < db_rows.len()
        invariant
            i <= db_rows.len(),
            f == fed_by(texts(ids@)),
            db_rows@.take(i as int).filter(f).len() == 0,
        decreases db_rows.len() - i,
    {
        reveal(Seq::filter);
        assert(db_rows@.take(i + 1).drop_last() =~= db_rows@.take(i as int));
        if is_fed_by(&db_rows[i], ids) {
            proof {
                let hit = db_rows@[i as int];
                assert(f(hit));
                db_rows@.lemma_filter_contains_rev(f, hit);
                assert(db_rows@.contains(hit));
                assert(db_rows@.filter(f).contains(hit));
            }
            return true;
        }
        i = i + 1;
    }
    assert(db_rows@.take(i as int) =~= db_rows@);
    false
}

fn keep_fed(db_rows: Vec<TransactionRecord>, ids: &Vec<String>) -> (r: Vec<TransactionRecord>)
    ensures
        r@ == db_rows@.filter(fed_by(texts(ids@))),
{
    let mut rest = db_rows;
    let n: usize = rest.len();
    let mut out: Vec<TransactionRecord> = Vec::new();
    let mut i: usize = 0;
    let ghost f = fed_by(texts(ids@));
    reveal(Seq::filter);
    assert(out@ =~= db_rows@.take(0).filter(f));
    while i < n
        invariant
            i <= n,
            n == db_rows.len(),
            f == fed_by(texts(ids@)),
            rest@ == db_rows@.skip(i as int),
            out@ == db_rows@.take(i as int).filter(f),
        decreases n - i,
    {
        reveal(Seq::filter);
        let row = rest.remove(0);
        assert(db_rows@.take(i + 1).drop_last() =~= db_rows@.take(i as int));
        if is_fed_by(&row, ids) {
            out.push(row);
        }
        i = i + 1;
        assert(rest@ =~= db_rows@.skip(i as int));
    }
    assert(db_rows@.take(n as int) =~= db_rows@);
    out
}

/// Which stored transactions a statement is compared with, and how that was decided:
/// those of the given account; else of the account that most transactions named by
/// identifier, or most agreeing ones, belong to; else those that the feed attached
/// to an account of the statement, where there are any; else all.
pub open spec fn selected(
    q: OfxQuery,
    db: Seq<TransactionRecord>,
    account: Option<Seq<char>>,
    filter: Option<Seq<char>>,
    rows: Seq<TransactionRecord>,
) -> bool {
    let by_id = fit_accounts(q.rows@, db);
    let by_overlap = overlap_accounts(q.rows@, db, q.date_tolerance_days as int);
    let ids = texts(q.account_ids@);
    match account {
        Some(a) => filter == Some("account_id:"@ + a) && rows == of_account(db, a),
        None => if by_id.len() > 0 {
            exists|id: Seq<char>| #[trigger]
                most_common(by_id, id) && filter == Some("inferred_account_id:"@ + id) && rows
                    == of_account(db, id)
        } else if by_overlap.len() > 0 {
            exists|id: Seq<char>| #[trigger]
                most_common(by_overlap, id) && filter == Some("inferred_account_id:"@ + id) && rows
                    == of_account(db, id)
        } else if ids.len() > 0 && db.filter(fed_by(ids)).len() > 0 {
            filter == Some("pluggy_account_id:"@ + joined(ids, ","@)) && rows == db.filter(
                fed_by(ids),
            )
        } else {
            filter is None && rows == db
        },
    }
}

fn select_rows(
    query: &OfxQuery,
    db_rows: Vec<TransactionRecord>,
    account_id: &Option<String>,
) -> (r: (Option<String>, Vec<TransactionRecord>))
    requires
        gaps_fit(db_rows@, query.rows@),
    ensures
        selected(*query, db_rows@, opt_text(*account_id), opt_text(r.0), r.1@),
{
    match account_id {
        Some(a) => {
            let kept = keep_account(db_rows, a.as_str());
            return (Some(glue("account_id:", a.as_str())), kept);
        },
        None => {},
    }
    let by_id = infer_account_id_from_fit_ids(&query.rows, &db_rows);
    match by_id {
        Some(id) => {
            let kept = keep_account(db_rows, id.as_str());
            return (Some(glue("inferred_account_id:", id.as_str())), kept);
        },
        None => {},
    }
    let by_overlap = infer_account_id_from_overlap(
        &query.rows,
        &db_rows,
        query.date_tolerance_days,
    );
    match by_overlap {
        Some(id) => {
            let kept = keep_account(db_rows, id.as_str());
            return (Some(glue("inferred_account_id:", id.as_str())), kept);
        },
        None => {},
    }
    if query.account_ids.len() > 0 && any_fed_by(&db_rows, &query.account_ids) {
        let kept = keep_fed(db_rows, &query.account_ids);
        let list = join(&query.account_ids, ",");
        return (Some(glue("pluggy_account_id:", list.as_str())), kept);
    }
    (None, db_rows)
}

/// Which of `n` rows the pairs use.
pub open spec fn taken(pairs: Seq<Option<int>>, n: nat) -> Seq<bool> {
    Seq::new(n, |i: int| pairs.contains(Some(i)))
}

/// The pairing: each transaction of the statement, in its order, takes the best match
/// that is left.
pub open spec fn pairing(
    rows: Seq<OfxTransaction>,
    db: Seq<TransactionRecord>,
    tolerance: int,
) -> Seq<Option<int>>
    decreases rows.len(),
{
    if rows.len() == 0 {
        Seq::empty()
    } else {
        let before = pairing(rows.drop_last(), db, tolerance);
        before.push(
            best_among(
                rows.last(),
                db,
                taken(before, db.len()),
                tolerance,
                db.len() as int,
            ),
        )
    }
}

/// No stored transaction is matched twice, and only agreeing ones are matched.
pub proof fn law_pairing_is_one_to_one(
    rows: Seq<OfxTransaction>,
    db: Seq<TransactionRecord>,
    tolerance: int,
)
    ensures
        pairing(rows, db, tolerance).len() == rows.len(),
        forall|i: int|
            0 <= i < rows.len() ==> match #[trigger] pairing(rows, db, tolerance)[i] {
                Some(p) => 0 <= p < db.len() && agrees(db[p], rows[i], tolerance),
                None => true,
            },
        forall|i: int, j: int|
            0 <= i < j < rows.len() && pairing(rows, db, tolerance)[i] is Some ==> pairing(
                rows,
                db,
                tolerance,
            )[i] != pairing(rows, db, tolerance)[j],
    decreases rows.len(),
{
    if rows.len() > 0 {
        let t = rows.drop_last();
        law_pairing_is_one_to_one(t, db, tolerance);
        let before = pairing(t, db, tolerance);
        let used = taken(before, db.len());
        law_best_match_is_closest(rows.last(), db, used, tolerance, db.len() as int);
        let all = pairing(rows, db, tolerance);
        assert forall|i: int, j: int| 0 <= i < j < rows.len() && all[i] is Some implies all[i]
            != all[j] by {
            if j == rows.len() - 1 {
                assert(before[i] == all[i]);
                if all[j] == all[i] {
                    let p = all[i]->0;
                    assert(before.contains(Some(p)));
                    assert(used[p]);
                    assert(candidate(rows.last(), db, used, tolerance, p));
                }
            } else {
                assert(before[i] == all[i] && before[j] == all[j]);
            }
        }
        assert forall|i: int| 0 <= i < rows.len() implies match #[trigger] all[i] {
            Some(p) => 0 <= p < db.len() && agrees(db[p], rows[i], tolerance),
            None => true,
        } by {
            if i < t.len() {
                assert(before[i] == all[i]);
                assert(t[i] == rows[i]);
            }
        }
    }
}

/// How many transactions of the statement are matched.
pub open spec fn matched_count(pairs: Seq<Option<int>>) -> nat
    decreases pairs.len(),
{
    if pairs.len() == 0 {
        0
    } else {
        matched_count(pairs.drop_last()) + (if pairs.last() is Some {
            1nat
        } else {
            0
        })
    }
}

/// The positions, in ascending order, that are not marked.
pub open spec fn unmarked(marks: Seq<bool>) -> Seq<int>
    decreases marks.len(),
{
    if marks.len() == 0 {
        Seq::empty()
    } else if marks.last() {
        unmarked(marks.drop_last())
    } else {
        unmarked(marks.drop_last()).push(marks.len() - 1)
    }
}

/// A transaction of the statement, and what it was matched with.
pub struct OfxConsistencyMatch {
    pub status: String,
    pub ofx_fit_id: Option<String>,
    pub ofx_date: String,
    pub ofx_amount: Amount,
    pub ofx_description: String,
    pub transaction_id: Option<String>,
    pub account_id: Option<String>,
    pub transaction_date: Option<String>,
    pub transaction_amount: Option<Amount>,
    pub transaction_description: Option<String>,
    pub date_diff_days: Option<i64>,
}

/// A stored transaction that the statement does not have.
pub struct OfxConsistencyDbOnly {
    pub transaction_id: String,
    pub transaction_date: String,
    pub amount: Amount,
    pub description: String,
    pub account_id: Option<String>,
}

/// The comparison of a statement with the stored transactions.
pub struct OfxConsistencyOutput {
    pub account_filter: Option<String>,
    pub range_start: String,
    pub range_end: String,
    pub date_tolerance_days: i64,
    pub ofx_transactions: usize,
    pub db_candidates: usize,
    pub matched: usize,
    pub missing_in_finance: usize,
    pub extra_in_finance: usize,
    pub consistent: bool,
    pub matches: Vec<OfxConsistencyMatch>,
    pub extra_transactions: Vec<OfxConsistencyDbOnly>,
}

/// Whether the match is exact: same amount, same day, and one description in the other.
pub open spec fn exact_match(a: TransactionRecord, b: OfxTransaction) -> bool {
    amount_gap(a, b).scaled() == 0 && day_gap(a, b) == 0 && distance(
        b.description@,
        a.raw_description@,
    ) <= 1
}

/// Whether the line says of the statement's transaction what it was matched with.
pub open spec fn describes_match(
    m: OfxConsistencyMatch,
    row: OfxTransaction,
    hit: Option<TransactionRecord>,
) -> bool {
    &&& opt_text(m.ofx_fit_id) == opt_text(row.fit_id)
    &&& m.ofx_date@ == iso_text(row.transaction_date)
    &&& m.ofx_amount == row.amount
    &&& m.ofx_description@ == row.description@
    &&& match hit {
        Some(db) => {
            &&& m.status@ == (if exact_match(db, row) {
                "matched"@
            } else {
                "matched-near"@
            })
            &&& opt_text(m.transaction_id) == Some(db.transaction_id@)
            &&& opt_text(m.account_id) == opt_text(db.account_id)
            &&& opt_text(m.transaction_date) == Some(iso_text(db.transaction_date))
            &&& m.transaction_amount == Some(db.amount)
            &&& opt_text(m.transaction_description) == Some(joined(words(db.shown()), seq![' ']))
            &&& m.date_diff_days == Some(day_gap(db, row) as i64)
        },
        None => {
            &&& m.status@ == "missing-in-finance"@
            &&& m.transaction_id is None
            &&& m.account_id is None
            &&& m.transaction_date is None
            &&& m.transaction_amount is None
            &&& m.transaction_description is None
            &&& m.date_diff_days is None
        },
    }
}

pub open spec fn describes_extra(e: OfxConsistencyDbOnly, db: TransactionRecord) -> bool {
    &&& e.transaction_id@ == db.transaction_id@
    &&& e.transaction_date@ == iso_text(db.transaction_date)
    &&& e.amount == db.amount
    &&& e.description@ == joined(words(db.shown()), seq![' '])
    &&& opt_text(e.account_id) == opt_text(db.account_id)
}

/// What the pair at position `i` points to.
pub open spec fn hit_of(pairs: Seq<Option<int>>, db: Seq<TransactionRecord>, i: int) -> Option<
    TransactionRecord,
> {
    match pairs[i] {
        Some(p) => Some(db[p]),
        None => None,
    }
}

/// Whether the output is the comparison of the query with these stored transactions,
/// given in the order of day, amount and identifier.
pub open spec fn compares(
    out: OfxConsistencyOutput,
    q: OfxQuery,
    rows: Seq<TransactionRecord>,
) -> bool {
    let pairs = pairing(q.rows@, rows, q.date_tolerance_days as int);
    let extras = unmarked(taken(pairs, rows.len()));
    &&& out.range_start@ == iso_text(q.range_start)
    &&& out.range_end@ == iso_text(q.range_end)
    &&& out.date_tolerance_days == q.date_tolerance_days
    &&& out.ofx_transactions == q.rows@.len()
    &&& out.db_candidates == rows.len()
    &&& out.matched == matched_count(pairs)
    &&& out.missing_in_finance == q.rows@.len() - matched_count(pairs)
    &&& out.extra_in_finance == extras.len()
    &&& out.consistent == (out.missing_in_finance == 0 && out.extra_in_finance == 0)
    &&& out.matches@.len() == q.rows@.len()
    &&& forall|i: int|
        0 <= i < q.rows@.len() ==> describes_match(
            #[trigger] out.matches@[i],
            q.rows@[i],
            hit_of(pairs, rows, i),
        )
    &&& out.extra_transactions@.len() == extras.len()
    &&& forall|i: int|
        0 <= i < extras.len() ==> describes_extra(
            #[trigger] out.extra_transactions@[i],
            rows[extras[i]],
        )
}

fn describe_match(
    row: &OfxTransaction,
    db: &TransactionRecord,
    gap: &Amount,
    days: i64,
    dist: usize,
) -> (r: OfxConsistencyMatch)
    requires
        *gap == amount_gap(*db, *row),
        days == day_gap(*db, *row),
        dist == distance(row.description@, db.raw_description@),
    ensures
        describes_match(r, *row, Some(*db)),
{
    let none = Amount::none();
    proof {
        broadcast use crate::amount::lemma_made;

        crate::amount::lemma_zero_scaled(none);
    }
    let exact = gap.is_same(&none) && days == 0 && dist <= 1;
    OfxConsistencyMatch {
        status: if exact {
            "matched".to_string()
        } else {
            "matched-near".to_string()
        },
        ofx_fit_id: opt_clone(&row.fit_id),
        ofx_date: iso(&row.transaction_date),
        ofx_amount: row.amount,
        ofx_description: row.description.clone(),
        transaction_id: Some(db.transaction_id.clone()),
        account_id: opt_clone(&db.account_id),
        transaction_date: Some(iso(&db.transaction_date)),
        transaction_amount: Some(db.amount),
        transaction_description: Some(normalize_inline_text(db.display_description())),
        date_diff_days: Some(days),
    }
}

fn describe_missing(row: &OfxTransaction) -> (r: OfxConsistencyMatch)
    ensures
        describes_match(r, *row, None),
{
    OfxConsistencyMatch {
        status: "missing-in-finance".to_string(),
        ofx_fit_id: opt_clone(&row.fit_id),
        ofx_date: iso(&row.transaction_date),
        ofx_amount: row.amount,
        ofx_description: row.description.clone(),
        transaction_id: None,
        account_id: None,
        transaction_date: None,
        transaction_amount: None,
        transaction_description: None,
        date_diff_days: None,
    }
}

proof fn lemma_matched_count(pairs: Seq<Option<int>>)
    ensures
        matched_count(pairs) <= pairs.len(),
    decreases pairs.len(),
{
    if pairs.len() > 0 {
        lemma_matched_count(pairs.drop_last());
    }
}

fn false_flags(n: usize) -> (r: Vec<bool>)
    ensures
        r@ == Seq::new(n as nat, |i: int| false),
{
    let mut out: Vec<bool> = Vec::new();
    while out.len() < n
        invariant
            out.len() <= n,
            out@ == Seq::new(out@.len(), |i: int| false),
        decreases n - out.len(),
    {
        out.push(false);
        assert(out@ =~= Seq::new(out@.len(), |i: int| false));
    }
    out
}

fn extra_rows(rows: &Vec<TransactionRecord>, used: &Vec<bool>) -> (r: Vec<OfxConsistencyDbOnly>)
    requires
        rows@.len() == used@.len(),
    ensures
        r@.len() == unmarked(used@).len(),
        forall|i: int|
            0 <= i < r@.len() ==> describes_extra(#[trigger] r@[i], rows@[unmarked(used@)[i]]),
{
    let mut out: Vec<OfxConsistencyDbOnly> = Vec::new();
    let mut i: usize = 0;
    while i < rows.len()
        invariant
            i <= rows.len(),
            rows@.len() == used@.len(),
            out@.len() == unmarked(used@.take(i as int)).len(),
            forall|k: int|
                0 <= k < out@.len() ==> describes_extra(
                    #[trigger] out@[k],
                    rows@[unmarked(used@.take(i as int))[k]],
                ),
        decreases rows.len() - i,
    {
        assert(used@.take(i + 1).drop_last() =~= used@.take(i as int));
        if !used[i] {
            let row = &rows[i];
            out.push(
                OfxConsistencyDbOnly {
                    transaction_id: row.transaction_id.clone(),
                    transaction_date: iso(&row.transaction_date),
                    amount: row.amount,
                    description: normalize_inline_text(row.display_description()),
                    account_id: opt_clone(&row.account_id),
                },
            );
        }
        i = i + 1;
    }
    assert(used@.take(i as int) =~= used@);
    out
}

fn compare_rows(query: &OfxQuery, rows: &Vec<TransactionRecord>, filter: Option<String>) -> (r:
    OfxConsistencyOutput)
    requires
        gaps_fit(rows@, query.rows@),
    ensures
        compares(r, *query, rows@),
        r.account_filter == filter,
{
    let mut used = false_flags(rows.len());
    let mut matches: Vec<OfxConsistencyMatch> = Vec::new();
    let mut matched: usize = 0;
    let mut i: usize = 0;
    let ghost tol = query.date_tolerance_days as int;
    let ghost all = query.rows@;
    assert(used@ =~= taken(pairing(all.take(0), rows@, tol), rows@.len()));
    while i < query.rows.len()
        invariant
            i <= query.rows.len(),
            all == query.rows@,
            tol == query.date_tolerance_days,
            gaps_fit(rows@, query.rows@),
            used@ == taken(pairing(all.take(i as int), rows@, tol), rows@.len()),
            pairing(all.take(i as int), rows@, tol).len() == i,
            matched == matched_count(pairing(all.take(i as int), rows@, tol)),
            matched <= i,
            matches@.len() == i,
            forall|k: int|
                0 <= k < i ==> describes_match(
                    #[trigger] matches@[k],
                    all[k],
                    hit_of(pairing(all.take(i as int), rows@, tol), rows@, k),
                ),
        decreases query.rows.len() - i,
    {
        let ghost before = pairing(all.take(i as int), rows@, tol);
        let ghost after = pairing(all.take(i + 1), rows@, tol);
        proof {
            assert(all.take(i + 1).drop_last() =~= all.take(i as int));
            assert(after.drop_last() =~= before);
            assert forall|k: int| 0 <= k < i implies hit_of(after, rows@, k) == hit_of(
                before,
                rows@,
                k,
            ) by {
                assert(after[k] == before[k]);
            }
        }
        let best = find_best_ofx_match(&query.rows[i], rows, &used, query.date_tolerance_days);
        match best {
            Some((idx, gap, days, dist)) => {
                proof {
                    law_best_match_is_closest(
                        all[i as int],
                        rows@,
                        used@,
                        tol,
                        rows@.len() as int,
                    );
                }
                used.set(idx, true);
                matched = matched + 1;
                matches.push(describe_match(&query.rows[i], &rows[idx], &gap, days, dist));
                proof {
                    assert(used@ =~= taken(after, rows@.len())) by {
                        assert forall|k: int| 0 <= k < rows@.len() implies used@[k] == taken(
                            after,
                            rows@.len(),
                        )[k] by {
                            if before.contains(Some(k)) {
                                let j = choose|j: int|
                                    0 <= j < before.len() && before[j] == Some(k);
                                assert(after[j] == Some(k));
                            }
                            if after.contains(Some(k)) {
                                let j = choose|j: int|
                                    0 <= j < after.len() && after[j] == Some(k);
                                if j < i {
                                    assert(before[j] == Some(k));
                                }
                            }
                            if k == idx {
                                assert(after[i as int] == Some(k));
                            }
                        }
                    }
                }
            },
            None => {
                matches.push(describe_missing(&query.rows[i]));
                proof {
                    assert(used@ =~= taken(after, rows@.len())) by {
                        assert forall|k: int| 0 <= k < rows@.len() implies used@[k] == taken(
                            after,
                            rows@.len(),
                        )[k] by {
                            if before.contains(Some(k)) {
                                let j = choose|j: int|
                                    0 <= j < before.len() && before[j] == Some(k);
                                assert(after[j] == Some(k));
                            }
                            if after.contains(Some(k)) {
                                let j = choose|j: int|
                                    0 <= j < after.len() && after[j] == Some(k);
                                assert(before[j] == Some(k));
                            }
                        }
                    }
                }
            },
        }
        i = i + 1;
    }
    assert(all.take(i as int) =~= all);
    let extra_transactions = extra_rows(rows, &used);
    let missing: usize = query.rows.len() - matched;
    let extra: usize = extra_transactions.len();
    OfxConsistencyOutput {
        account_filter: filter,
        range_start: iso(&query.range_start),
        range_end: iso(&query.range_end),
        date_tolerance_days: query.date_tolerance_days,
        ofx_transactions: query.rows.len(),
        db_candidates: rows.len(),
        matched,
        missing_in_finance: missing,
        extra_in_finance: extra,
        consistent: missing == 0 && extra == 0,
        matches,
        extra_transactions,
    }
}

/// Compares a statement with the stored transactions of its days.
pub fn ofx_consistency(
    query: &OfxQuery,
    db_rows: Vec<TransactionRecord>,
    account_id: &Option<String>,
) -> (r: OfxConsistencyOutput)
    requires
        gaps_fit(db_rows@, query.rows@),
    ensures
        exists|chosen: Seq<TransactionRecord>|
            #![trigger sorted_rows(chosen)]
            selected(*query, db_rows@, opt_text(*account_id), opt_text(r.account_filter), chosen)
                && compares(r, *query, sorted_rows(chosen)),
{
    let ghost db = db_rows@;
    let (filter, kept) = select_rows(query, db_rows, account_id);
    let ghost chosen = kept@;
    proof {
        lemma_selected_fit(*query, db, opt_text(*account_id), opt_text(filter), chosen);
    }
    let rows = sort_rows(kept);
    proof {
        lemma_sorted_fit(chosen, query.rows@);
    }
    compare_rows(query, &rows, filter)
}

proof fn lemma_filter_fit(
    db: Seq<TransactionRecord>,
    f: spec_fn(TransactionRecord) -> bool,
    rows: Seq<OfxTransaction>,
)
    requires
        gaps_fit(db, rows),
    ensures
        gaps_fit(db.filter(f), rows),
{
    assert forall|i: int, j: int| 0 <= i < db.filter(f).len() && 0 <= j < rows.len() implies gap_fits(
        #[trigger] db.filter(f)[i],
        #[trigger] rows[j],
    ) by {
        crate::order::lemma_kept(db, f, i);
        let k = choose|k: int| 0 <= k < db.len() && db[k] == db.filter(f)[i];
        assert(gap_fits(db[k], rows[j]));
    }
}

proof fn lemma_selected_fit(
    q: OfxQuery,
    db: Seq<TransactionRecord>,
    account: Option<Seq<char>>,
    filter: Option<Seq<char>>,
    rows: Seq<TransactionRecord>,
)
    requires
        gaps_fit(db, q.rows@),
        selected(q, db, account, filter, rows),
    ensures
        gaps_fit(rows, q.rows@),
{
    assert forall|id: Seq<char>| gaps_fit(#[trigger] of_account(db, id), q.rows@) by {
        lemma_filter_fit(
            db,
            |r: TransactionRecord| opt_text(r.account_id) == Some(id),
            q.rows@,
        );
    }
    lemma_filter_fit(db, fed_by(texts(q.account_ids@)), q.rows@);
}

proof fn lemma_sorted_fit(db: Seq<TransactionRecord>, rows: Seq<OfxTransaction>)
    requires
        gaps_fit(db, rows),
    ensures
        gaps_fit(sorted_rows(db), rows),
{
    broadcast use vstd::seq_lib::group_to_multiset_ensures;

    crate::order::law_sorted(stored(db));
    let s = sorted(stored(db));
    assert forall|i: int, j: int| 0 <= i < sorted_rows(db).len() && 0 <= j < rows.len() implies gap_fits(
        #[trigger] sorted_rows(db)[i],
        #[trigger] rows[j],
    ) by {
        assert(s.contains(s[i]));
        assert(s.to_multiset().count(s[i]) > 0);
        assert(stored(db).to_multiset().count(s[i]) > 0);
        assert(stored(db).contains(s[i]));
        let k = choose|k: int| 0 <= k < stored(db).len() && stored(db)[k] == s[i];
        assert(gap_fits(db[k], rows[j]));
    }
}

/// A statement is consistent exactly where each of its transactions is matched and
/// every stored one was used.
pub proof fn law_consistent_means_complete(
    out: OfxConsistencyOutput,
    q: OfxQuery,
    rows: Seq<TransactionRecord>,
)
    requires
        compares(out, q, rows),
    ensures
        out.matched + out.missing_in_finance == out.ofx_transactions,
        out.consistent <==> (out.matched == out.ofx_transactions
            && out.extra_transactions@.len() == 0),
{
}

} // verus!
