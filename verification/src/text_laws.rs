//! What cutting, joining and ordering texts promise.

use crate::text::{
    first_index, lemma_first_index, lemma_first_index_unique, lemma_trim_start, lines_of, parts_of,
    precedes, replaced, trim_end, trim_start, trimmed, white_space, without_return, word_len,
    words,
};
use vstd::prelude::*;

verus! {

/// Whether the texts agree up to a position, and there the first ends or has the smaller
/// character.
pub open spec fn smaller_at(a: Seq<char>, b: Seq<char>, k: int) -> bool {
    &&& 0 <= k <= a.len()
    &&& k < b.len()
    &&& a.take(k) == b.take(k)
    &&& k == a.len() || a[k] < b[k]
}

/// A text comes before another exactly where, at the first position at which they differ,
/// it ends or has the smaller character.
pub proof fn law_precedes_by_first_difference(a: Seq<char>, b: Seq<char>)
    ensures
        precedes(a, b) <==> exists|k: int| smaller_at(a, b, k),
    decreases a.len(),
{
    if b.len() == 0 {
        assert forall|k: int| !smaller_at(a, b, k) by {}
    } else if a.len() == 0 {
        assert(a.take(0) =~= b.take(0));
        assert(smaller_at(a, b, 0));
    } else if a[0] != b[0] {
        if a[0] < b[0] {
            assert(a.take(0) =~= b.take(0));
            assert(smaller_at(a, b, 0));
        } else {
            assert forall|k: int| !smaller_at(a, b, k) by {
                if smaller_at(a, b, k) && k > 0 {
                    assert(a.take(k)[0] == a[0] && b.take(k)[0] == b[0]);
                }
            }
        }
    } else {
        let (x, y) = (a.drop_first(), b.drop_first());
        law_precedes_by_first_difference(x, y);
        if precedes(x, y) {
            let k = choose|k: int| smaller_at(x, y, k);
            assert(a.take(k + 1) =~= b.take(k + 1)) by {
                assert forall|i: int| 0 <= i < k + 1 implies #[trigger] a[i] == b[i] by {
                    if i > 0 {
                        assert(x[i - 1] == a[i] && y[i - 1] == b[i]);
                        assert(x.take(k)[i - 1] == y.take(k)[i - 1]);
                    }
                }
            }
            assert(smaller_at(a, b, k + 1));
        }
        if exists|k: int| smaller_at(a, b, k) {
            let k = choose|k: int| smaller_at(a, b, k);
            assert(k > 0);
            assert(x.take(k - 1) =~= y.take(k - 1)) by {
                assert forall|i: int| 0 <= i < k - 1 implies #[trigger] x[i] == y[i] by {
                    assert(a.take(k)[i + 1] == b.take(k)[i + 1]);
                }
            }
            assert(smaller_at(x, y, k - 1));
        }
    }
}

/// The characters of a text that are no white space.
pub open spec fn unspaced(s: Seq<char>) -> Seq<char>
    decreases s.len(),
{
    if s.len() == 0 {
        Seq::empty()
    } else if white_space(s[0]) {
        unspaced(s.drop_first())
    } else {
        seq![s[0]] + unspaced(s.drop_first())
    }
}

/// Trimming takes white space from both ends and nothing else, and leaves none there.
pub proof fn law_trimmed(s: Seq<char>)
    ensures
        exists|i: int, j: int|
            {
                &&& 0 <= i <= j <= s.len()
                &&& trimmed(s) == #[trigger] s.subrange(i, j)
                &&& forall|k: int| 0 <= k < i ==> white_space(#[trigger] s[k])
                &&& forall|k: int| j <= k < s.len() ==> white_space(#[trigger] s[k])
                &&& i < j ==> !white_space(s[i]) && !white_space(s[j - 1])
            },
{
    let i = lemma_start(s);
    let t = s.skip(i);
    let n = lemma_end(t);
    assert(s.subrange(i, i + n) =~= t.take(n));
    assert forall|k: int| i + n <= k < s.len() implies white_space(#[trigger] s[k]) by {
        assert(t[k - i] == s[k]);
    }
    if n > 0 {
        assert(t[n - 1] == s[i + n - 1]);
    }
}

proof fn lemma_start(s: Seq<char>) -> (i: int)
    ensures
        0 <= i <= s.len(),
        trim_start(s) == s.skip(i),
        forall|k: int| 0 <= k < i ==> white_space(#[trigger] s[k]),
        i < s.len() ==> !white_space(s[i]),
    decreases s.len(),
{
    if s.len() > 0 && white_space(s[0]) {
        let t = s.drop_first();
        let j = lemma_start(t);
        assert(t.skip(j) =~= s.skip(j + 1));
        assert forall|k: int| 0 <= k < j + 1 implies white_space(#[trigger] s[k]) by {
            if k > 0 {
                assert(t[k - 1] == s[k]);
            }
        }
        if j < t.len() {
            assert(t[j] == s[j + 1]);
        }
        j + 1
    } else {
        assert(s.skip(0) =~= s);
        0
    }
}

proof fn lemma_end(s: Seq<char>) -> (n: int)
    ensures
        0 <= n <= s.len(),
        trim_end(s) == s.take(n),
        forall|k: int| n <= k < s.len() ==> white_space(#[trigger] s[k]),
        n > 0 ==> !white_space(s[n - 1]),
    decreases s.len(),
{
    if s.len() > 0 && white_space(s.last()) {
        let t = s.drop_last();
        let n = lemma_end(t);
        assert(t.take(n) =~= s.take(n));
        assert forall|k: int| n <= k < s.len() implies white_space(#[trigger] s[k]) by {
            if k < t.len() {
                assert(t[k] == s[k]);
            }
        }
        n
    } else {
        assert(s.take(s.len() as int) =~= s);
        s.len() as int
    }
}

pub proof fn lemma_unspaced_joined(a: Seq<char>, b: Seq<char>)
    ensures
        unspaced(a + b) == unspaced(a) + unspaced(b),
    decreases a.len(),
{
    if a.len() == 0 {
        assert(a + b =~= b);
        assert(unspaced(a) + unspaced(b) =~= unspaced(b));
    } else {
        lemma_unspaced_joined(a.drop_first(), b);
        assert((a + b).drop_first() =~= a.drop_first() + b);
        assert(unspaced(a + b) =~= unspaced(a) + unspaced(b));
    }
}

proof fn lemma_unspaced_word(s: Seq<char>)
    requires
        forall|i: int| 0 <= i < s.len() ==> !white_space(#[trigger] s[i]),
    ensures
        unspaced(s) == s,
    decreases s.len(),
{
    if s.len() > 0 {
        let t = s.drop_first();
        assert forall|i: int| 0 <= i < t.len() implies !white_space(#[trigger] t[i]) by {
            assert(t[i] == s[i + 1]);
        }
        lemma_unspaced_word(t);
        assert(unspaced(s) =~= s);
    }
}

proof fn lemma_unspaced_start(s: Seq<char>)
    ensures
        unspaced(trim_start(s)) == unspaced(s),
    decreases s.len(),
{
    if s.len() > 0 && white_space(s[0]) {
        lemma_unspaced_start(s.drop_first());
    }
}

/// The words of a text have characters, none of them white space; one behind the other
/// they are what the text holds besides white space.
pub proof fn law_words(s: Seq<char>)
    ensures
        forall|i: int, k: int|
            0 <= i < words(s).len() && 0 <= k < words(s)[i].len() ==> !white_space(
                #[trigger] words(s)[i][k],
            ),
        forall|i: int| 0 <= i < words(s).len() ==> (#[trigger] words(s)[i]).len() > 0,
        concat_first(words(s)) == unspaced(s),
    decreases s.len(),
{
    let t = trim_start(s);
    lemma_trim_start(s);
    lemma_unspaced_start(s);
    if t.len() == 0 {
        assert(words(s) =~= Seq::<Seq<char>>::empty());
        assert(unspaced(s) =~= Seq::<char>::empty());
    } else {
        let n = word_len(t);
        let i = lemma_start(s);
        lemma_word(t);
        let (w, r) = (t.take(n), t.skip(n));
        law_words(r);
        assert(w + r =~= t);
        lemma_unspaced_joined(w, r);
        lemma_unspaced_word(w);
        assert(words(s) == seq![w] + words(r));
        assert(words(s).drop_first() =~= words(r));
        assert forall|i: int, k: int|
            0 <= i < words(s).len() && 0 <= k < words(s)[i].len() implies !white_space(
            #[trigger] words(s)[i][k],
        ) by {
            if i > 0 {
                assert(words(s)[i] == words(r)[i - 1]);
                assert(!white_space(words(r)[i - 1][k]));
            } else {
                assert(words(s)[0] == w);
                assert(!white_space(w[k]));
            }
        }
        assert forall|i: int| 0 <= i < words(s).len() implies (#[trigger] words(s)[i]).len() > 0 by {
            if i > 0 {
                assert(words(s)[i] == words(r)[i - 1]);
            }
        }
    }
}

/// The parts one directly behind the other, the first first.
pub open spec fn concat_first(parts: Seq<Seq<char>>) -> Seq<char>
    decreases parts.len(),
{
    if parts.len() == 0 {
        Seq::empty()
    } else {
        parts[0] + concat_first(parts.drop_first())
    }
}

proof fn lemma_word(t: Seq<char>)
    requires
        t.len() > 0,
        !white_space(t[0]),
    ensures
        0 < word_len(t) <= t.len(),
        forall|i: int| 0 <= i < word_len(t) ==> !white_space(#[trigger] t.take(word_len(t))[i]),
    decreases t.len(),
{
    let r = t.drop_first();
    if r.len() > 0 && !white_space(r[0]) {
        lemma_word(r);
        assert forall|i: int| 0 <= i < word_len(t) implies !white_space(
            #[trigger] t.take(word_len(t))[i],
        ) by {
            if i > 0 {
                assert(r.take(word_len(r))[i - 1] == t.take(word_len(t))[i]);
            }
        }
    } else {
        assert(word_len(r) == 0);
    }
}

/// The parts between separators hold none, and joined with the separator give the text
/// back.
pub proof fn law_parts(s: Seq<char>, c: char)
    ensures
        parts_of(s, c).len() > 0,
        forall|i: int|
            0 <= i < parts_of(s, c).len() ==> !(#[trigger] parts_of(s, c)[i]).contains(c),
        rejoined(parts_of(s, c), c) == s,
    decreases s.len(),
{
    lemma_first_index(s, c);
    let i = first_index(s, c);
    let parts = parts_of(s, c);
    if i < s.len() {
        let (a, b) = (s.take(i), s.skip(i + 1));
        law_parts(b, c);
        assert(parts == seq![a] + parts_of(b, c));
        assert(parts.drop_first() =~= parts_of(b, c));
        assert(a + seq![c] + b =~= s);
        assert(!a.contains(c)) by {
            if a.contains(c) {
                let k = choose|k: int| 0 <= k < a.len() && a[k] == c;
                assert(s[k] == c);
            }
        }
        assert forall|k: int| 0 <= k < parts.len() implies !(#[trigger] parts[k]).contains(c) by {
            if k > 0 {
                assert(parts[k] == parts_of(b, c)[k - 1]);
            }
        }
        assert(parts.len() > 1);
    } else {
        assert(parts == seq![s]);
        assert(!s.contains(c)) by {
            if s.contains(c) {
                let k = choose|k: int| 0 <= k < s.len() && s[k] == c;
                assert(s[k] != c);
            }
        }
    }
}

/// The parts with a character between each two, the first first.
pub open spec fn rejoined(parts: Seq<Seq<char>>, c: char) -> Seq<char>
    decreases parts.len(),
{
    if parts.len() == 0 {
        Seq::empty()
    } else if parts.len() == 1 {
        parts[0]
    } else {
        parts[0] + seq![c] + rejoined(parts.drop_first(), c)
    }
}

/// Replacing a character puts the other text in its place wherever it stands, and changes
/// nothing else.
pub proof fn law_replaced(a: Seq<char>, b: Seq<char>, from: char, to: Seq<char>)
    ensures
        replaced(a + b, from, to) == replaced(a, from, to) + replaced(b, from, to),
        replaced(seq![from], from, to) == to,
        !a.contains(from) ==> replaced(a, from, to) == a,
    decreases b.len(), a.len(),
{
    reveal_with_fuel(replaced, 2);
    assert(seq![from].drop_last() =~= Seq::<char>::empty());
    assert(Seq::<char>::empty() + to =~= to);
    if b.len() == 0 {
        assert(a + b =~= a);
        assert(replaced(a, from, to) + replaced(b, from, to) =~= replaced(a, from, to));
    } else {
        law_replaced(a, b.drop_last(), from, to);
        assert((a + b).drop_last() =~= a + b.drop_last());
        assert(replaced(a + b, from, to) =~= replaced(a, from, to) + replaced(b, from, to));
    }
    if !a.contains(from) && a.len() > 0 {
        let t = a.drop_last();
        assert(!t.contains(from)) by {
            if t.contains(from) {
                let k = choose|k: int| 0 <= k < t.len() && t[k] == from;
                assert(a[k] == from);
            }
        }
        if b.len() > 0 {
            law_replaced(a, b.drop_last(), from, to);
        } else {
            law_replaced(t, b, from, to);
            assert(a.last() == a[a.len() - 1]);
            assert(replaced(a, from, to) =~= a);
        }
    } else if a.len() == 0 {
        assert(replaced(a, from, to) =~= a);
    }
}

/// A line ends at its line feed: what stands before it is the first line, without a
/// carriage return, and the lines behind it follow.
pub proof fn law_first_line(line: Seq<char>, rest: Seq<char>)
    requires
        !line.contains('\n'),
    ensures
        lines_of(line + seq!['\n'] + rest) == seq![without_return(line)] + lines_of(rest),
        line.len() > 0 ==> lines_of(line) == seq![line],
{
    let s = line + seq!['\n'] + rest;
    assert(s[line.len() as int] == '\n');
    assert forall|j: int| 0 <= j < line.len() implies s[j] != '\n' by {
        assert(s[j] == line[j]);
        assert(line.contains(line[j]));
    }
    lemma_first_index_unique(s, '\n', line.len() as int);
    assert(s.take(line.len() as int) =~= line);
    assert(s.skip(line.len() as int + 1) =~= rest);
    assert forall|j: int| 0 <= j < line.len() implies line[j] != '\n' by {
        assert(line.contains(line[j]));
    }
    lemma_first_index_unique(line, '\n', line.len() as int);
}

} // verus!
