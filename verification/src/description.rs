//! Statement descriptions: normal form, installment markers and likeness.

use crate::text::{
    all_digits, append_chars, are_digits, ascii_alphanumeric, ascii_digit, chars, find_char,
    first_index, from_chars, glue, has_prefix, has_text, is_ascii_alphanumeric, is_ascii_digit,
    contains_chars, join, joined, lower, lower_char, same_chars, slice_chars, split_whitespace,
    lemma_trim_start, lemma_word_len, texts, trim_start, upper, upper_ascii, white_space, word_len,
    words,
};
use vstd::prelude::*;

verus! {

// ---------------------------------------------------------------------------
// Normal form

/// The characters that Unicode's lower-case mapping gives for `c`.
pub uninterp spec fn lowercase_chars(c: char) -> Seq<char>;

/// `char::to_lowercase`. An ASCII capital becomes its small letter, and any other
/// ASCII character stays. No character in lower case is an ASCII capital.
#[verifier::external_body]
pub(crate) fn lowercase(c: char) -> (r: Vec<char>)
    ensures
        r@ == lowercase_chars(c),
        (c as u32) < 128 ==> r@ == seq![lower(c)],
        forall|i: int| 0 <= i < r@.len() ==> !('A' <= #[trigger] r@[i] <= 'Z'),
{
    c.to_lowercase().collect()
}

/// The character in lower case: an ASCII character as its small letter, any other as
/// Unicode has it.
pub open spec fn small(c: char) -> Seq<char> {
    if (c as u32) < 128 {
        seq![lower(c)]
    } else {
        lowercase_chars(c)
    }
}

/// Each character in lower case.
pub open spec fn lowered(s: Seq<char>) -> Seq<char>
    decreases s.len(),
{
    if s.len() == 0 {
        Seq::empty()
    } else {
        lowered(s.drop_last()) + small(s.last())
    }
}

/// A small ASCII letter or a digit.
pub open spec fn is_plain(c: char) -> bool {
    'a' <= c <= 'z' || ascii_digit(c)
}

/// Everything but small ASCII letters and digits replaced by a space.
pub open spec fn spaced(s: Seq<char>) -> Seq<char> {
    s.map_values(
        |c: char|
            if is_plain(c) {
                c
            } else {
                ' '
            },
    )
}

/// The words of small letters and digits in the text, with one space between them.
pub open spec fn normalized(s: Seq<char>) -> Seq<char> {
    joined(words(spaced(lowered(s))), seq![' '])
}

fn lowered_chars(v: &Vec<char>) -> (r: Vec<char>)
    ensures
        r@ == lowered(v@),
        forall|k: int| 0 <= k < r@.len() ==> !('A' <= #[trigger] r@[k] <= 'Z'),
{
    let mut out: Vec<char> = Vec::new();
    let mut i: usize = 0;
    while i < v.len()
        invariant
            i <= v.len(),
            out@ == lowered(v@.take(i as int)),
            forall|k: int| 0 <= k < out@.len() ==> !('A' <= #[trigger] out@[k] <= 'Z'),
        decreases v.len() - i,
    {
        append_chars(&mut out, &lowercase(v[i]));
        i = i + 1;
        assert(v@.take(i as int).drop_last() =~= v@.take(i - 1));
    }
    assert(v@.take(i as int) =~= v@);
    out
}

fn spaced_chars(v: &Vec<char>) -> (r: Vec<char>)
    requires
        forall|k: int| 0 <= k < v@.len() ==> !('A' <= #[trigger] v@[k] <= 'Z'),
    ensures
        r@ == spaced(v@),
{
    let mut out: Vec<char> = Vec::new();
    let mut i: usize = 0;
    while i < v.len()
        invariant
            i <= v.len(),
            out@ == spaced(v@.take(i as int)),
            forall|k: int| 0 <= k < v@.len() ==> !('A' <= #[trigger] v@[k] <= 'Z'),
        decreases v.len() - i,
    {
        out.push(
            if is_ascii_alphanumeric(v[i]) {
                v[i]
            } else {
                ' '
            },
        );
        i = i + 1;
        assert(out@ =~= spaced(v@.take(i as int)));
    }
    assert(v@.take(i as int) =~= v@);
    out
}

/// Brings a description to its normal form.
pub fn normalize_description(value: &str) -> (r: String)
    ensures
        r@ == normalized(value@),
{
    let plain = spaced_chars(&lowered_chars(&chars(value)));
    let parts = split_whitespace(from_chars(&plain).as_str());
    proof {
        reveal_strlit(" ");
        assert(" "@ =~= seq![' ']);
    }
    join(&parts, " ")
}

/// Small letters and digits only, in words with one space between each two.
pub open spec fn tidy(s: Seq<char>) -> bool {
    &&& forall|i: int| 0 <= i < s.len() ==> is_plain(#[trigger] s[i]) || s[i] == ' '
    &&& s.len() > 0 ==> s[0] != ' ' && s.last() != ' '
    &&& forall|i: int| 0 < i < s.len() && #[trigger] s[i] == ' ' ==> s[i - 1] != ' '
}

/// A word of small letters and digits.
spec fn plain_word(w: Seq<char>) -> bool {
    w.len() > 0 && forall|i: int| 0 <= i < w.len() ==> is_plain(#[trigger] w[i])
}

proof fn lemma_plain_words(s: Seq<char>)
    requires
        forall|i: int| 0 <= i < s.len() ==> is_plain(#[trigger] s[i]) || s[i] == ' ',
    ensures
        forall|k: int| 0 <= k < words(s).len() ==> plain_word(#[trigger] words(s)[k]),
    decreases s.len(),
{
    let t = trim_start(s);
    lemma_trim_start(s);
    lemma_word_len(t);
    let n = word_len(t);
    let d = s.len() - t.len();
    if t.len() > 0 {
        let rest = t.skip(n);
        assert forall|i: int| 0 <= i < rest.len() implies is_plain(#[trigger] rest[i]) || rest[i]
            == ' ' by {
            assert(rest[i] == s[d + n + i]);
        }
        lemma_plain_words(rest);
        let w = t.take(n);
        assert(n > 0);
        assert forall|i: int| 0 <= i < w.len() implies is_plain(#[trigger] w[i]) by {
            assert(w[i] == t[i] && t[i] == s[d + i]);
            assert(!white_space(t[i]));
        }
        assert forall|k: int| 0 <= k < words(s).len() implies plain_word(#[trigger] words(s)[k]) by {
            if k > 0 {
                assert(words(s)[k] == words(rest)[k - 1]);
            }
        }
    }
}

proof fn lemma_trim_ahead(a: Seq<char>, x: Seq<char>)
    ensures
        trim_start(a).len() > 0 ==> trim_start(a + x) == trim_start(a) + x,
        trim_start(a).len() == 0 ==> trim_start(a + x) == trim_start(x),
    decreases a.len(),
{
    if a.len() == 0 {
        assert(a + x =~= x);
    } else if white_space(a[0]) {
        lemma_trim_ahead(a.drop_first(), x);
        assert((a + x).drop_first() =~= a.drop_first() + x);
    }
}

proof fn lemma_word_ahead(t: Seq<char>, x: Seq<char>)
    requires
        x.len() > 0,
        white_space(x[0]),
    ensures
        word_len(t + x) == word_len(t),
    decreases t.len(),
{
    if t.len() == 0 {
        assert(t + x =~= x);
    } else if !white_space(t[0]) {
        lemma_word_ahead(t.drop_first(), x);
        assert((t + x).drop_first() =~= t.drop_first() + x);
    }
}

proof fn lemma_one_word(w: Seq<char>)
    requires
        plain_word(w),
    ensures
        words(w) == seq![w],
{
    assert(!white_space(w[0])) by {
        assert(is_plain(w[0]));
    }
    lemma_word_len(w);
    assert(word_len(w) == w.len()) by {
        if word_len(w) < w.len() {
            assert(is_plain(w[word_len(w)]));
        }
    }
    assert(w.take(word_len(w)) =~= w);
    assert(w.skip(word_len(w)) =~= Seq::<char>::empty());
    assert(words(Seq::<char>::empty()) =~= Seq::<Seq<char>>::empty());
}

/// A word behind a space is the last word.
proof fn lemma_last_word(a: Seq<char>, w: Seq<char>)
    requires
        plain_word(w),
    ensures
        words(a + seq![' '] + w) == words(a).push(w),
    decreases a.len(),
{
    let x = seq![' '] + w;
    let s = a + x;
    assert(a + seq![' '] + w =~= s);
    lemma_trim_ahead(a, x);
    lemma_trim_start(a);
    let t = trim_start(a);
    if t.len() == 0 {
        assert(x.drop_first() =~= w);
        assert(is_plain(w[0]));
        assert(trim_start(w) == w);
        assert(x[0] == ' ');
        assert(trim_start(x) == w);
        lemma_one_word(w);
        assert(words(s) == words(w));
        assert(words(a).push(w) =~= seq![w]);
    } else {
        lemma_word_ahead(t, x);
        lemma_word_len(t);
        let n = word_len(t);
        assert((t + x).take(n) =~= t.take(n));
        assert((t + x).skip(n) =~= t.skip(n) + x);
        lemma_last_word(t.skip(n), w);
        assert(t.skip(n) + seq![' '] + w =~= t.skip(n) + x);
        assert(words(s) =~= words(a).push(w));
    }
}

/// Plain words joined by spaces are tidy, and come apart again.
proof fn lemma_joined_words(parts: Seq<Seq<char>>)
    requires
        forall|k: int| 0 <= k < parts.len() ==> plain_word(#[trigger] parts[k]),
    ensures
        tidy(joined(parts, seq![' '])),
        parts.len() > 0 ==> joined(parts, seq![' ']).len() > 0,
        words(joined(parts, seq![' '])) == parts,
    decreases parts.len(),
{
    let sep = seq![' '];
    if parts.len() == 0 {
        assert(words(joined(parts, sep)) =~= parts);
    } else if parts.len() == 1 {
        let w = parts[0];
        assert(plain_word(w));
        assert(is_plain(w[0]) && is_plain(w.last()));
        lemma_one_word(w);
        assert(words(w) =~= parts);
        assert(tidy(w)) by {
            assert forall|i: int| 0 <= i < w.len() implies is_plain(#[trigger] w[i]) by {}
        }
    } else {
        let w = parts.last();
        let head = joined(parts.drop_last(), sep);
        assert forall|k: int| 0 <= k < parts.drop_last().len() implies plain_word(
            #[trigger] parts.drop_last()[k],
        ) by {
            assert(parts.drop_last()[k] == parts[k]);
        }
        lemma_joined_words(parts.drop_last());
        assert(plain_word(w));
        lemma_last_word(head, w);
        assert(words(head).push(w) =~= parts);
        let s = head + sep + w;
        let n = head.len() as int;
        assert(head.last() == head[n - 1]);
        assert(tidy(s)) by {
            assert forall|i: int| 0 <= i < s.len() implies is_plain(#[trigger] s[i]) || s[i]
                == ' ' by {
                if i < n {
                    assert(s[i] == head[i]);
                } else if i > n {
                    assert(s[i] == w[i - n - 1]);
                }
            }
            assert(s[0] == head[0]);
            assert(s.last() == w.last());
            assert(is_plain(w[w.len() - 1]));
            assert forall|i: int| 0 < i < s.len() && #[trigger] s[i] == ' ' implies s[i - 1]
                != ' ' by {
                if i < n {
                    assert(s[i] == head[i] && s[i - 1] == head[i - 1]);
                } else if i == n {
                    assert(s[i - 1] == head[n - 1]);
                } else {
                    assert(is_plain(w[i - n - 1]));
                }
            }
        }
    }
}

proof fn lemma_tidy_stays(s: Seq<char>)
    requires
        forall|i: int| 0 <= i < s.len() ==> is_plain(#[trigger] s[i]) || s[i] == ' ',
    ensures
        spaced(lowered(s)) == s,
{
    lemma_plain_stays(s);
    assert(spaced(s) =~= s);
}

proof fn lemma_plain_stays(s: Seq<char>)
    requires
        forall|i: int| 0 <= i < s.len() ==> is_plain(#[trigger] s[i]) || s[i] == ' ',
    ensures
        lowered(s) == s,
    decreases s.len(),
{
    if s.len() > 0 {
        let head = s.drop_last();
        assert forall|i: int| 0 <= i < head.len() implies is_plain(#[trigger] head[i]) || head[i]
            == ' ' by {
            assert(head[i] == s[i]);
        }
        lemma_plain_stays(head);
        assert(is_plain(s[s.len() - 1]) || s[s.len() - 1] == ' ');
        assert(small(s.last()) =~= seq![s.last()]);
        assert(lowered(s) =~= s);
    } else {
        assert(lowered(s) =~= s);
    }
}

proof fn lemma_case_is_lost(s: Seq<char>)
    ensures
        lowered(upper_ascii(s)) == lowered(s),
    decreases s.len(),
{
    if s.len() > 0 {
        lemma_case_is_lost(s.drop_last());
        assert(upper_ascii(s).drop_last() =~= upper_ascii(s.drop_last()));
        assert(upper_ascii(s).last() == upper(s.last()));
        assert(small(upper(s.last())) == small(s.last()));
    }
}

/// The normal form of a description holds only small letters, digits and single spaces
/// between words; it is its own normal form; and it does not depend on the case of
/// ASCII letters.
pub proof fn law_normal_form(value: Seq<char>)
    ensures
        tidy(normalized(value)),
        normalized(normalized(value)) == normalized(value),
        normalized(upper_ascii(value)) == normalized(value),
{
    let s = spaced(lowered(value));
    lemma_plain_words(s);
    lemma_joined_words(words(s));
    lemma_tidy_stays(normalized(value));
    lemma_case_is_lost(value);
}

/// The text with one space between its words and none at its ends.
pub fn normalize_inline_text(value: &str) -> (r: String)
    ensures
        r@ == joined(words(value@), seq![' ']),
{
    let parts = split_whitespace(value);
    proof {
        reveal_strlit(" ");
        assert(" "@ =~= seq![' ']);
    }
    join(&parts, " ")
}

// ---------------------------------------------------------------------------
// Installment markers

/// The ASCII letters and digits of the text, in small letters.
pub open spec fn compact(s: Seq<char>) -> Seq<char>
    decreases s.len(),
{
    if s.len() == 0 {
        Seq::empty()
    } else if ascii_alphanumeric(s.last()) {
        compact(s.drop_last()).push(lower(s.last()))
    } else {
        compact(s.drop_last())
    }
}

/// The ASCII letters and digits of a token, in small letters.
pub fn compact_token_ascii(value: &str) -> (r: String)
    ensures
        r@ == compact(value@),
{
    from_chars(&compact_chars(&chars(value)))
}

fn compact_chars(v: &Vec<char>) -> (r: Vec<char>)
    ensures
        r@ == compact(v@),
{
    let mut out: Vec<char> = Vec::new();
    let mut i: usize = 0;
    while i < v.len()
        invariant
            i <= v.len(),
            out@ == compact(v@.take(i as int)),
        decreases v.len() - i,
    {
        if is_ascii_alphanumeric(v[i]) {
            out.push(lower_char(v[i]));
        }
        i = i + 1;
        assert(v@.take(i as int).drop_last() =~= v@.take(i - 1));
    }
    assert(v@.take(i as int) =~= v@);
    out
}

/// The characters that a marker may hold at its ends: digits, and a slash where
/// `slash` is set.
pub open spec fn marker_char(c: char, slash: bool) -> bool {
    ascii_digit(c) || (slash && c == '/')
}

pub open spec fn strip_start(s: Seq<char>, slash: bool) -> Seq<char>
    decreases s.len(),
{
    if s.len() > 0 && !marker_char(s[0], slash) {
        strip_start(s.drop_first(), slash)
    } else {
        s
    }
}

pub open spec fn strip_end(s: Seq<char>, slash: bool) -> Seq<char>
    decreases s.len(),
{
    if s.len() > 0 && !marker_char(s.last(), slash) {
        strip_end(s.drop_last(), slash)
    } else {
        s
    }
}

/// The token from its first marker character to its last.
pub open spec fn stripped(s: Seq<char>, slash: bool) -> Seq<char> {
    strip_end(strip_start(s, slash), slash)
}

fn is_marker_char(c: char, slash: bool) -> (r: bool)
    ensures
        r == marker_char(c, slash),
{
    is_ascii_digit(c) || (slash && c == '/')
}

pub(crate) fn strip_token(v: &Vec<char>, slash: bool) -> (r: Vec<char>)
    ensures
        r@ == stripped(v@, slash),
{
    let mut i: usize = 0;
    assert(v@.skip(0) =~= v@);
    while i < v.len() && !is_marker_char(v[i], slash)
        invariant
            i <= v.len(),
            strip_start(v@, slash) == strip_start(v@.skip(i as int), slash),
        decreases v.len() - i,
    {
        assert(v@.skip(i as int).drop_first() =~= v@.skip(i + 1));
        i = i + 1;
    }
    let w = slice_chars(v, i, v.len());
    let mut n: usize = w.len();
    assert(w@.take(n as int) =~= w@);
    while n > 0 && !is_marker_char(w[n - 1], slash)
        invariant
            n <= w.len(),
            strip_end(w@, slash) == strip_end(w@.take(n as int), slash),
        decreases n,
    {
        assert(w@.take(n as int).drop_last() =~= w@.take(n - 1));
        n = n - 1;
    }
    slice_chars(&w, 0, n)
}

/// Whether the text is two runs of digits with one slash between them.
pub open spec fn is_fraction(s: Seq<char>) -> bool {
    let i = first_index(s, '/');
    &&& 0 < i < s.len() - 1
    &&& all_digits(s.take(i))
    &&& all_digits(s.skip(i + 1))
}

fn check_fraction(v: &Vec<char>) -> (r: bool)
    ensures
        r == is_fraction(v@),
{
    let i = find_char(v, '/');
    if i == 0 || i >= v.len() - 1 {
        return false;
    }
    are_digits(&slice_chars(v, 0, i)) && are_digits(&slice_chars(v, i + 1, v.len()))
}

/// What is left of a compacted token behind `parcela` or `parc`.
pub open spec fn after_parcela(s: Seq<char>) -> Option<Seq<char>> {
    if has_prefix(s, "parcela"@) {
        Some(s.skip(7))
    } else if has_prefix(s, "parc"@) {
        Some(s.skip(4))
    } else {
        None
    }
}

fn behind_parcela(v: &Vec<char>) -> (r: Option<Vec<char>>)
    ensures
        match r {
            Some(w) => after_parcela(v@) == Some(w@),
            None => after_parcela(v@) is None,
        },
{
    proof {
        reveal_strlit("parcela");
        reveal_strlit("parc");
    }
    let long = chars("parcela");
    let short = chars("parc");
    if v.len() >= 7 && same_chars(&slice_chars(v, 0, 7), &long) {
        return Some(slice_chars(v, 7, v.len()));
    }
    if v.len() >= 4 && same_chars(&slice_chars(v, 0, 4), &short) {
        return Some(slice_chars(v, 4, v.len()));
    }
    None
}

/// The installment marker at a token: `n/m` where the token holds that fraction,
/// `parcela-n` where it is `parcela` or `parc` with a number directly behind it or
/// in the next token.
pub open spec fn marker_at(tokens: Seq<Seq<char>>, idx: int) -> Option<Seq<char>> {
    if !(0 <= idx < tokens.len()) {
        None
    } else {
        let cleaned = stripped(tokens[idx], true);
        if is_fraction(cleaned) {
            Some(cleaned)
        } else {
            match after_parcela(compact(tokens[idx])) {
                None => None,
                Some(number) => if number.len() > 0 {
                    if all_digits(number) {
                        Some("parcela-"@ + number)
                    } else {
                        None
                    }
                } else if idx + 1 < tokens.len() {
                    let next = stripped(tokens[idx + 1], false);
                    if next.len() > 0 && all_digits(next) {
                        Some("parcela-"@ + next)
                    } else {
                        None
                    }
                } else {
                    None
                },
            }
        }
    }
}

/// The installment marker at one of the tokens.
pub fn extract_installment_marker_from_tokens(tokens: &Vec<String>, idx: usize) -> (r: Option<
    String,
>)
    ensures
        match r {
            Some(m) => marker_at(texts(tokens@), idx as int) == Some(m@),
            None => marker_at(texts(tokens@), idx as int) is None,
        },
{
    if idx >= tokens.len() {
        return None;
    }
    assert(texts(tokens@)[idx as int] == tokens@[idx as int]@);
    let token = chars(tokens[idx].as_str());
    let cleaned = strip_token(&token, true);
    if check_fraction(&cleaned) {
        return Some(from_chars(&cleaned));
    }
    match behind_parcela(&compact_chars(&token)) {
        None => None,
        Some(number) => {
            if number.len() > 0 {
                if are_digits(&number) {
                    return Some(glue("parcela-", from_chars(&number).as_str()));
                }
                return None;
            }
            if idx + 1 >= tokens.len() {
                return None;
            }
            assert(texts(tokens@)[idx + 1] == tokens@[idx + 1]@);
            let next = strip_token(&chars(tokens[idx + 1].as_str()), false);
            if next.len() > 0 && are_digits(&next) {
                return Some(glue("parcela-", from_chars(&next).as_str()));
            }
            None
        },
    }
}

/// The first marker among the tokens from `idx` on.
pub open spec fn first_marker(tokens: Seq<Seq<char>>, idx: int) -> Option<Seq<char>>
    decreases tokens.len() - idx,
{
    if idx >= tokens.len() {
        None
    } else if marker_at(tokens, idx) is Some {
        marker_at(tokens, idx)
    } else {
        first_marker(tokens, idx + 1)
    }
}

/// The installment marker of a description.
pub open spec fn marker_of(s: Seq<char>) -> Option<Seq<char>> {
    first_marker(words(s), 0)
}

/// The first installment marker in a description.
pub fn extract_installment_marker(value: &str) -> (r: Option<String>)
    ensures
        match r {
            Some(m) => marker_of(value@) == Some(m@),
            None => marker_of(value@) is None,
        },
{
    let tokens = split_whitespace(value);
    let mut idx: usize = 0;
    while idx < tokens.len()
        invariant
            idx <= tokens.len(),
            texts(tokens@) == words(value@),
            marker_of(value@) == first_marker(words(value@), idx as int),
        decreases tokens.len() - idx,
    {
        let found = extract_installment_marker_from_tokens(&tokens, idx);
        if found.is_some() {
            return found;
        }
        idx = idx + 1;
    }
    None
}

/// How many tokens a marker at this token takes: two where the token is the bare
/// word and another follows.
pub open spec fn marker_width(tokens: Seq<Seq<char>>, idx: int) -> int {
    let c = compact(tokens[idx]);
    if (c == "parcela"@ || c == "parc"@) && idx + 1 < tokens.len() {
        2
    } else {
        1
    }
}

/// The tokens from `idx` on that are not part of a marker.
pub open spec fn unmarked(tokens: Seq<Seq<char>>, idx: int) -> Seq<Seq<char>>
    decreases tokens.len() - idx,
{
    if idx >= tokens.len() {
        Seq::empty()
    } else if marker_at(tokens, idx) is Some {
        unmarked(tokens, idx + marker_width(tokens, idx))
    } else {
        seq![tokens[idx]] + unmarked(tokens, idx + 1)
    }
}

/// The description without its installment markers.
pub open spec fn without_markers(s: Seq<char>) -> Seq<char> {
    joined(unmarked(words(s), 0), seq![' '])
}

/// Takes the installment markers out of a description.
pub fn strip_installment_marker(value: &str) -> (r: String)
    ensures
        r@ == without_markers(value@),
{
    let tokens = split_whitespace(value);
    let mut kept: Vec<String> = Vec::new();
    let mut idx: usize = 0;
    let ghost all = words(value@);
    assert(texts(kept@) + unmarked(all, 0) =~= unmarked(all, 0));
    let long = chars("parcela");
    let short = chars("parc");
    while idx < tokens.len()
        invariant
            idx <= tokens.len(),
            all == words(value@),
            texts(tokens@) == all,
            long@ == "parcela"@,
            short@ == "parc"@,
            texts(kept@) + unmarked(all, idx as int) == unmarked(all, 0),
        decreases tokens.len() - idx,
    {
        assert(all[idx as int] == tokens@[idx as int]@);
        if extract_installment_marker_from_tokens(&tokens, idx).is_some() {
            let c = compact_chars(&chars(tokens[idx].as_str()));
            if (same_chars(&c, &long) || same_chars(&c, &short)) && idx + 1 < tokens.len() {
                idx = idx + 2;
            } else {
                idx = idx + 1;
            }
        } else {
            let ghost before = texts(kept@);
            kept.push(tokens[idx].clone());
            assert(texts(kept@) =~= before.push(all[idx as int]));
            assert(before + unmarked(all, idx as int) =~= texts(kept@) + unmarked(all, idx + 1));
            idx = idx + 1;
        }
    }
    assert(texts(kept@) + unmarked(all, idx as int) =~= texts(kept@));
    proof {
        reveal_strlit(" ");
        assert(" "@ =~= seq![' ']);
    }
    join(&kept, " ")
}

// ---------------------------------------------------------------------------
// Likeness

/// The words of at least `min` characters.
pub open spec fn long_words(s: Seq<char>, min: nat) -> Set<Seq<char>> {
    words(s).to_set().filter(|w: Seq<char>| w.len() >= min)
}

/// How many words of at least `min` characters the two texts share.
pub open spec fn shared_words(a: Seq<char>, b: Seq<char>, min: nat) -> nat {
    long_words(a, min).intersect(long_words(b, min)).len()
}

fn holds_text(list: &Vec<String>, s: &String) -> (r: bool)
    ensures
        r == texts(list@).contains(s@),
{
    let mut i: usize = 0;
    while i < list.len()
        invariant
            i <= list.len(),
            forall|j: int| 0 <= j < i ==> (#[trigger] list@[j])@ != s@,
        decreases list.len() - i,
    {
        if crate::text::same(list[i].as_str(), s.as_str()) {
            assert(texts(list@)[i as int] == s@);
            return true;
        }
        i = i + 1;
    }
    proof {
        if texts(list@).contains(s@) {
            let j = choose|j: int| 0 <= j < texts(list@).len() && texts(list@)[j] == s@;
            assert(list@[j]@ == s@);
        }
    }
    false
}

fn count_shared_words(a: &str, b: &str, min: usize) -> (r: usize)
    ensures
        r == shared_words(a@, b@, min as nat),
{
    let left = split_whitespace(a);
    let right = split_whitespace(b);
    let mut common: Vec<String> = Vec::new();
    let mut i: usize = 0;
    let ghost goal = long_words(a@, min as nat).intersect(long_words(b@, min as nat));
    while i < left.len()
        invariant
            i <= left.len(),
            texts(left@) == words(a@),
            texts(right@) == words(b@),
            goal == long_words(a@, min as nat).intersect(long_words(b@, min as nat)),
            texts(common@).no_duplicates(),
            forall|w: Seq<char>| #[trigger]
                texts(common@).contains(w) ==> goal.contains(w),
            forall|j: int|
                0 <= j < i && goal.contains(#[trigger] words(a@)[j]) ==> texts(common@).contains(
                    words(a@)[j],
                ),
        decreases left.len() - i,
    {
        let ghost before = texts(common@);
        let ghost w = left@[i as int]@;
        assert(words(a@)[i as int] == w);
        assert(words(a@).to_set().contains(w));
        let size: usize = chars(left[i].as_str()).len();
        if size >= min && holds_text(&right, &left[i]) && !holds_text(&common, &left[i]) {
            common.push(left[i].clone());
            assert(texts(common@) =~= before.push(w));
            assert(words(b@).to_set().contains(w));
            assert(goal.contains(w));
            assert forall|x: Seq<char>| #[trigger] texts(common@).contains(x) implies goal.contains(
                x,
            ) by {
                if x != w {
                    let k = choose|k: int| 0 <= k < texts(common@).len() && texts(common@)[k] == x;
                    assert(before[k] == x);
                    assert(before.contains(x));
                }
            }
            assert forall|j: int| 0 <= j < i + 1 && goal.contains(
                #[trigger] words(a@)[j],
            ) implies texts(common@).contains(words(a@)[j]) by {
                if j < i {
                    let k = choose|k: int|
                        0 <= k < before.len() && before[k] == words(a@)[j];
                    assert(texts(common@)[k] == words(a@)[j]);
                } else {
                    assert(texts(common@)[before.len() as int] == w);
                }
            }
        } else {
            assert(goal.contains(w) ==> before.contains(w));
        }
        i = i + 1;
    }
    proof {
        texts(common@).unique_seq_to_set();
        assert(texts(common@).to_set() =~= goal) by {
            assert forall|w: Seq<char>| goal.contains(w) implies texts(common@).to_set().contains(
                w,
            ) by {
                assert(words(a@).contains(w));
                let j = choose|j: int| 0 <= j < words(a@).len() && words(a@)[j] == w;
                assert(goal.contains(words(a@)[j]));
            }
        }
    }
    common.len()
}

/// How far apart two descriptions are: 0 for the same normal form, 1 where one
/// holds the other, then 2, 3, 6 and 10 as they share three or more, two, one or no
/// word of three characters; the largest distance where one is empty.
pub open spec fn distance(left: Seq<char>, right: Seq<char>) -> int {
    let a = normalized(left);
    let b = normalized(right);
    if a.len() == 0 || b.len() == 0 {
        (usize::MAX / 2) as int
    } else if a == b {
        0
    } else if has_text(a, b) || has_text(b, a) {
        1
    } else {
        let n = shared_words(a, b, 3);
        if n >= 3 {
            2
        } else if n == 2 {
            3
        } else if n == 1 {
            6
        } else {
            10
        }
    }
}

/// How far apart two descriptions are.
pub fn description_distance(left: &str, right: &str) -> (r: usize)
    ensures
        r == distance(left@, right@),
{
    let left_norm = normalize_description(left);
    let right_norm = normalize_description(right);
    let a = chars(left_norm.as_str());
    let b = chars(right_norm.as_str());
    if a.len() == 0 || b.len() == 0 {
        return usize::MAX / 2;
    }
    if same_chars(&a, &b) {
        return 0;
    }
    if contains_chars(&a, &b) || contains_chars(&b, &a) {
        return 1;
    }
    let overlap = count_shared_words(left_norm.as_str(), right_norm.as_str(), 3);
    if overlap >= 3 {
        2
    } else if overlap == 2 {
        3
    } else if overlap == 1 {
        6
    } else {
        10
    }
}

/// Whether two descriptions look like the same purchase.
pub open spec fn related(left: Seq<char>, right: Seq<char>) -> bool {
    let a = normalized(left);
    let b = normalized(right);
    &&& a.len() > 0
    &&& b.len() > 0
    &&& (a == b || has_text(a, b) || has_text(b, a) || (marker_of(left) is Some && marker_of(left)
        == marker_of(right)) || shared_words(a, b, 4) >= 2)
}

/// Whether two descriptions look like the same purchase.
pub fn descriptions_look_related(left: &str, right: &str) -> (r: bool)
    ensures
        r == related(left@, right@),
{
    let left_norm = normalize_description(left);
    let right_norm = normalize_description(right);
    let a = chars(left_norm.as_str());
    let b = chars(right_norm.as_str());
    if a.len() == 0 || b.len() == 0 {
        return false;
    }
    if same_chars(&a, &b) || contains_chars(&a, &b) || contains_chars(&b, &a) {
        return true;
    }
    match (extract_installment_marker(left), extract_installment_marker(right)) {
        (Some(x), Some(y)) => {
            if crate::text::same(x.as_str(), y.as_str()) {
                return true;
            }
        },
        _ => {},
    }
    count_shared_words(left_norm.as_str(), right_norm.as_str(), 4) >= 2
}

/// Descriptions are as far apart one way as the other.
pub proof fn law_distance_symmetric(left: Seq<char>, right: Seq<char>)
    ensures
        distance(left, right) == distance(right, left),
{
    let a = normalized(left);
    let b = normalized(right);
    assert(long_words(a, 3).intersect(long_words(b, 3)) =~= long_words(b, 3).intersect(
        long_words(a, 3),
    ));
}

/// Likeness goes both ways.
pub proof fn law_related_symmetric(left: Seq<char>, right: Seq<char>)
    ensures
        related(left, right) == related(right, left),
{
    let a = normalized(left);
    let b = normalized(right);
    assert(long_words(a, 4).intersect(long_words(b, 4)) =~= long_words(b, 4).intersect(
        long_words(a, 4),
    ));
}

} // verus!
