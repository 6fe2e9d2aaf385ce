//! What reading a statement, a description and an account's settings promise.

use crate::amount::lemma_padded;
use crate::date::{date_of, lemma_date_of, two_digits, Date};
use crate::description::{marker_at, stripped};
use crate::human::{family_of, truncated};
use crate::metadata::{
    closing_day_of, day_of_value, field_of, member, parsed_i32, parsed_u32, parsed_u64, Json,
    JsonField,
};
use crate::ofx::{
    block_state, blocks_of, eight_digits, is_close_tag, is_open_tag, ofx_date, tag_value,
    BlockState,
};
use crate::text::{
    all_digits, digits, joined, lemma_digits, lemma_digits_value, lemma_first_index_unique, lower,
    lower_ascii, trimmed, white_space, zero_padded,
};
use vstd::prelude::*;

verus! {

// ---------------------------------------------------------------------------
// Statements

/// Whether a text is a value: it has characters, no white space at its ends, and no angle
/// bracket.
pub open spec fn is_value(s: Seq<char>) -> bool {
    &&& s.len() > 0
    &&& !white_space(s[0])
    &&& !white_space(s.last())
    &&& forall|i: int| 0 <= i < s.len() ==> #[trigger] s[i] != '<'
}

/// What stands behind a tag is its value, whether or not the tag is closed on the line, and
/// whatever the case of the tag's letters.
pub proof fn law_tag_value_is_read(tag: Seq<char>, value: Seq<char>)
    requires
        is_value(value),
    ensures
        tag_value(seq!['<'] + tag + seq!['>'] + value, tag) == Some(value),
        tag_value(
            seq!['<'] + tag + seq!['>'] + value + seq!['<', '/'] + tag + seq!['>'],
            tag,
        ) == Some(value),
        tag_value(seq!['<'] + tag + seq!['>'] + value, lower_ascii(tag)) == Some(value),
{
    let open = seq!['<'] + tag + seq!['>'];
    let n = open.len() as int;
    let line = open + value;
    assert(trimmed(line) =~= line);
    assert(line.take(n) =~= open);
    assert(line.skip(n) =~= value);
    assert(trimmed(value) =~= value);
    lemma_first_index_unique(value, '<', value.len() as int);
    assert(value.take(value.len() as int) =~= value);
    let close = seq!['<', '/'] + tag + seq!['>'];
    let longer = line + seq!['<', '/'] + tag + seq!['>'];
    assert(longer =~= line + close);
    assert(longer.last() == '>');
    assert(trimmed(longer) =~= longer);
    assert(longer.take(n) =~= open);
    let tail = value + close;
    assert(longer.skip(n) =~= tail);
    assert(tail.last() == '>');
    assert(trimmed(tail) =~= tail);
    assert(tail[value.len() as int] == '<');
    lemma_first_index_unique(tail, '<', value.len() as int);
    assert(tail.take(value.len() as int) =~= value);
    let small = seq!['<'] + lower_ascii(tag) + seq!['>'];
    assert(lower_ascii(small) =~= lower_ascii(open)) by {
        assert forall|i: int| 0 <= i < small.len() implies #[trigger] lower(small[i]) == lower(
            open[i],
        ) by {
            if 0 < i <= tag.len() {
                assert(small[i] == lower(tag[i - 1]));
            }
        }
    }
    assert(small.len() == open.len());
}

/// A date written as `YYYYMMDD` is read as that date, whatever follows it.
pub proof fn law_statement_date_is_read(date: Date, rest: Seq<char>)
    requires
        date.valid(),
        0 <= date.y() <= 9999,
    ensures
        ofx_date(
            zero_padded(digits(date.y() as nat), 4) + two_digits(date.m()) + two_digits(date.d())
                + rest,
        ) == Some(date),
{
    let (y, m, d) = (date.y(), date.m(), date.d());
    let (a, b, c) = (zero_padded(digits(y as nat), 4), two_digits(m), two_digits(d));
    assert(crate::amount::pow10(4) == 10000 && crate::amount::pow10(2) == 100) by {
        reveal_with_fuel(crate::amount::pow10, 5);
    }
    lemma_padded(y as nat, 4);
    lemma_padded(m as nat, 2);
    lemma_padded(d as nat, 2);
    let s = a + b + c;
    assert(all_digits(s));
    lemma_eight(s, rest);
    assert(s.take(4) =~= a);
    assert(s.subrange(4, 6) =~= b);
    assert(s.subrange(6, 8) =~= c);
    lemma_date_of(y, m, d);
    crate::date::lemma_same_date(date, date_of(y, m, d));
}

proof fn lemma_eight(s: Seq<char>, rest: Seq<char>)
    requires
        s.len() == 8,
        all_digits(s),
    ensures
        eight_digits(s + rest) == s,
    decreases rest.len(),
{
    if rest.len() == 0 {
        assert(s + rest =~= s);
        lemma_up_to_eight(s);
    } else {
        lemma_eight(s, rest.drop_last());
        assert((s + rest).drop_last() =~= s + rest.drop_last());
    }
}

proof fn lemma_up_to_eight(s: Seq<char>)
    requires
        s.len() <= 8,
        all_digits(s),
    ensures
        eight_digits(s) == s,
    decreases s.len(),
{
    if s.len() > 0 {
        lemma_up_to_eight(s.drop_last());
        assert(s.last() == s[s.len() - 1]);
        assert(eight_digits(s) =~= s);
    }
}

/// Whether no line opens or closes a transaction.
pub open spec fn plain_lines(lines: Seq<Seq<char>>) -> bool {
    forall|i: int|
        0 <= i < lines.len() ==> !is_open_tag(#[trigger] lines[i]) && !is_close_tag(lines[i])
}

/// The lines between an opening and a closing tag are one block, and leave those before
/// them as they were.
pub proof fn law_block_is_taken(
    before: Seq<Seq<char>>,
    open: Seq<char>,
    lines: Seq<Seq<char>>,
    close: Seq<char>,
)
    requires
        !block_state(before).open,
        block_state(before).current.len() == 0,
        is_open_tag(open),
        is_close_tag(close),
        !is_open_tag(close),
        plain_lines(lines),
    ensures
        blocks_of(before + seq![open] + lines + seq![close]) == blocks_of(before).push(
            joined(lines.map_values(|l: Seq<char>| trimmed(l)), "\n"@),
        ),
        !block_state(before + seq![open] + lines + seq![close]).open,
        block_state(before + seq![open] + lines + seq![close]).current.len() == 0,
{
    let start = before + seq![open];
    assert(start.drop_last() =~= before);
    let s = block_state(start);
    assert(s.open && s.blocks == block_state(before).blocks);
    assert(s.current =~= Seq::<Seq<char>>::empty());
    lemma_inside(start, lines);
    let all = start + lines + seq![close];
    assert(all.drop_last() =~= start + lines);
}

proof fn lemma_inside(start: Seq<Seq<char>>, lines: Seq<Seq<char>>)
    requires
        block_state(start).open,
        block_state(start).current.len() == 0,
        plain_lines(lines),
    ensures
        block_state(start + lines) == (BlockState {
            blocks: block_state(start).blocks,
            current: lines.map_values(|l: Seq<char>| trimmed(l)),
            open: true,
        }),
    decreases lines.len(),
{
    let texts = lines.map_values(|l: Seq<char>| trimmed(l));
    if lines.len() == 0 {
        assert(start + lines =~= start);
        assert(texts =~= block_state(start).current);
    } else {
        let t = lines.drop_last();
        assert forall|i: int| 0 <= i < t.len() implies !is_open_tag(#[trigger] t[i])
            && !is_close_tag(t[i]) by {
            assert(t[i] == lines[i]);
        }
        lemma_inside(start, t);
        assert((start + lines).drop_last() =~= start + t);
        assert(lines[lines.len() - 1] == lines.last());
        assert(texts =~= t.map_values(|l: Seq<char>| trimmed(l)).push(trimmed(lines.last())));
    }
}

// ---------------------------------------------------------------------------
// Numbers and settings

/// A number written in digits is read as that number.
pub proof fn law_numbers_are_read_back(n: u32, k: u64)
    ensures
        parsed_u32(digits(n as nat)) == Some(n),
        parsed_u64(digits(k as nat)) == Some(k),
        n <= i32::MAX ==> parsed_i32(digits(n as nat)) == Some(n as i32),
        n <= i32::MAX ==> parsed_i32(seq!['-'] + digits(n as nat)) == Some((-n) as i32),
{
    lemma_digits(n as nat);
    lemma_digits_value(n as nat);
    lemma_digits(k as nat);
    lemma_digits_value(k as nat);
    let s = digits(n as nat);
    assert(s[0] != '+' && s[0] != '-');
    assert(digits(k as nat)[0] != '+');
    assert((seq!['-'] + s).skip(1) =~= s);
}

/// A configured closing day counts as it is written, where every month has it; one that
/// not every month has does not count.
pub proof fn law_configured_closing_day(metadata: Json, day: String, n: u32)
    requires
        member(metadata, "billing_closing_day"@) == Some(Json::Text(day)),
        day@ == digits(n as nat),
    ensures
        1 <= n <= 28 ==> closing_day_of(metadata) == Some(n),
        !(1 <= n <= 28) ==> day_of_value(member(metadata, "billing_closing_day"@)) is None,
{
    law_numbers_are_read_back(n, 0);
}

/// Of the members with one name the first counts.
pub proof fn law_first_member_counts(fields: Seq<JsonField>, name: Seq<char>)
    ensures
        match field_of(fields, name) {
            Some(v) => exists|i: int|
                {
                    &&& 0 <= i < fields.len()
                    &&& (#[trigger] fields[i]).name@ == name
                    &&& fields[i].value == v
                    &&& forall|j: int| 0 <= j < i ==> (#[trigger] fields[j]).name@ != name
                },
            None => forall|i: int| 0 <= i < fields.len() ==> (#[trigger] fields[i]).name@ != name,
        },
    decreases fields.len(),
{
    if fields.len() > 0 && fields[0].name@ != name {
        let t = fields.drop_first();
        law_first_member_counts(t, name);
        match field_of(t, name) {
            Some(v) => {
                let i = choose|i: int|
                    {
                        &&& 0 <= i < t.len()
                        &&& (#[trigger] t[i]).name@ == name
                        &&& t[i].value == v
                        &&& forall|j: int| 0 <= j < i ==> (#[trigger] t[j]).name@ != name
                    };
                assert(fields[i + 1] == t[i]);
                assert forall|j: int| 0 <= j < i + 1 implies (#[trigger] fields[j]).name@ != name by {
                    if j > 0 {
                        assert(t[j - 1] == fields[j]);
                    }
                }
            },
            None => {
                assert forall|j: int| 0 <= j < fields.len() implies (#[trigger] fields[j]).name@
                    != name by {
                    if j > 0 {
                        assert(t[j - 1] == fields[j]);
                    }
                }
            },
        }
    } else if fields.len() > 0 {
        assert(fields[0].name@ == name);
    }
}

// ---------------------------------------------------------------------------
// Descriptions

/// Two numbers with a slash between them mark an installment.
pub proof fn law_fraction_marks_installment(tokens: Seq<Seq<char>>, i: int, a: nat, b: nat)
    requires
        0 <= i < tokens.len(),
        tokens[i] == digits(a) + seq!['/'] + digits(b),
    ensures
        marker_at(tokens, i) == Some(tokens[i]),
{
    let (x, y) = (digits(a), digits(b));
    let s = tokens[i];
    lemma_digits(a);
    lemma_digits(b);
    assert(s[0] == x[0]);
    assert(s.last() == y[y.len() - 1]);
    assert(stripped(s, true) == s);
    assert(s[x.len() as int] == '/');
    assert forall|j: int| 0 <= j < x.len() implies s[j] != '/' by {
        assert(s[j] == x[j]);
    }
    lemma_first_index_unique(s, '/', x.len() as int);
    assert(s.take(x.len() as int) =~= x);
    assert(s.skip(x.len() as int + 1) =~= y);
}

/// The family of a category is what stands before its first colon.
pub proof fn law_family_stands_before_colon(family: Seq<char>, rest: Seq<char>)
    requires
        !family.contains(':'),
        family.len() > 0,
        !white_space(family[0]),
    ensures
        family_of(family + seq![':'] + rest) == Some(family),
        family_of(family) == Some(family),
{
    let s = family + seq![':'] + rest;
    assert(s[0] == family[0]);
    lemma_not_blank(s);
    lemma_not_blank(family);
    assert(s[family.len() as int] == ':');
    assert forall|j: int| 0 <= j < family.len() implies s[j] != ':' by {
        assert(s[j] == family[j]);
        assert(family.contains(family[j]));
    }
    lemma_first_index_unique(s, ':', family.len() as int);
    assert(s.take(family.len() as int) =~= family);
    assert forall|j: int| 0 <= j < family.len() implies family[j] != ':' by {
        assert(family.contains(family[j]));
    }
    lemma_first_index_unique(family, ':', family.len() as int);
}

proof fn lemma_not_blank(s: Seq<char>)
    requires
        s.len() > 0,
        !white_space(s[0]),
    ensures
        trimmed(s).len() > 0,
    decreases s.len(),
{
    if white_space(s.last()) {
        assert(s.len() > 1);
        lemma_not_blank(s.drop_last());
        assert(trimmed(s) == trimmed(s.drop_last())) by {
            assert(s.drop_last()[0] == s[0]);
        }
    }
}

/// A shortened text has no more characters than asked for, begins as the text does, and
/// ends with an ellipsis exactly where something was left out.
pub proof fn law_truncated(s: Seq<char>, n: nat)
    requires
        n > 0,
    ensures
        truncated(s, n).len() <= n,
        s.len() <= n ==> truncated(s, n) == s,
        s.len() > n ==> truncated(s, n).len() == n && truncated(s, n).last() == '…' && truncated(
            s,
            n,
        ).drop_last() == s.take(n - 1),
{
    if s.len() > n {
        assert(truncated(s, n).drop_last() =~= s.take(n - 1));
    }
}

} // verus!
