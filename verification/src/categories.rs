//! The search for a category.

use crate::order::{sort, sorted, Ranked};
use crate::summary::holds;
use crate::text::{
    chars, contains, from_chars, has_text, lemma_precedes_asymmetric, lemma_precedes_total,
    lemma_precedes_transitive, less, lower_ascii, precedes, same, texts, to_lower_ascii, trim,
    trimmed,
};
use nucleo::pattern::{Atom, AtomKind, CaseMatching, Normalization};
use nucleo::{Config, Matcher, Utf32Str};
use vstd::prelude::*;

verus! {

/// How many categories a search shows.
pub const REVIEW_TUI_CATEGORY_MATCH_LIMIT: usize = 9;

/// The score that `nucleo` gives a text for a pattern, where it matches.
pub uninterp spec fn fuzzy_match(pattern: Seq<char>, text: Seq<char>) -> Option<u16>;

/// The score of `nucleo`'s `Atom::score` for a fuzzy atom that ignores case and
/// accents, with the default configuration. It counts in 16 bits, which hold the score
/// of up to 2000 characters, and panics on a text of more than `u32::MAX`.
#[verifier::external_body]
pub(crate) fn fuzzy_score(pattern: &str, text: &str) -> (r: Option<u16>)
    requires
        text@.len() <= u32::MAX,
        text@.len() <= 2000 || pattern@.len() <= 2000,
    ensures
        r == fuzzy_match(pattern@, text@),
{
    let mut matcher = Matcher::new(Config::DEFAULT);
    let atom = Atom::new(
        pattern,
        CaseMatching::Ignore,
        Normalization::Smart,
        AtomKind::Fuzzy,
        false,
    );
    let mut buffer = Vec::new();
    atom.score(Utf32Str::new(text, &mut buffer), &mut matcher)
}

pub open spec fn query_char(c: char) -> char {
    if c == ' ' || c == ':' {
        '-'
    } else {
        c
    }
}

/// A query as it is searched for.
pub open spec fn query_text(s: Seq<char>) -> Seq<char> {
    lower_ascii(trimmed(s)).map_values(|c: char| query_char(c))
}

/// A query as it is searched for.
pub fn normalize_category_query(input: &str) -> (r: String)
    ensures
        r@ == query_text(input@),
{
    let low = chars(to_lower_ascii(trim(input).as_str()).as_str());
    let mut out: Vec<char> = Vec::new();
    let mut i: usize = 0;
    while i < low.len()
        invariant
            i <= low.len(),
            low@ == lower_ascii(trimmed(input@)),
            out@ == query_text(input@).take(i as int),
        decreases low.len() - i,
    {
        out.push(
            if low[i] == ' ' || low[i] == ':' {
                '-'
            } else {
                low[i]
            },
        );
        i = i + 1;
        assert(out@ =~= query_text(input@).take(i as int));
    }
    assert(out@ =~= query_text(input@));
    from_chars(&out)
}

/// The texts that are not yet among those before them.
pub open spec fn first_seen(list: Seq<Seq<char>>) -> Seq<Seq<char>>
    decreases list.len(),
{
    if list.len() == 0 {
        Seq::empty()
    } else {
        let before = first_seen(list.drop_last());
        if before.contains(list.last()) {
            before
        } else {
            before.push(list.last())
        }
    }
}

fn push_unseen(out: &mut Vec<String>, list: &Vec<String>, Ghost(done): Ghost<Seq<Seq<char>>>)
    requires
        texts(old(out)@) == first_seen(done),
    ensures
        texts(final(out)@) == first_seen(done + texts(list@)),
{
    let ghost all = texts(list@);
    let mut i: usize = 0;
    assert(done + all.take(0) =~= done);
    while i < list.len()
        invariant
            i <= list.len(),
            all == texts(list@),
            texts(out@) == first_seen(done + all.take(i as int)),
        decreases list.len() - i,
    {
        proof {
            assert((done + all.take(i + 1)).drop_last() =~= done + all.take(i as int));
            assert((done + all.take(i + 1)).last() == list@[i as int]@);
        }
        let ghost before = texts(out@);
        if !holds(out, list[i].as_str()) {
            out.push(list[i].clone());
            assert(texts(out@) =~= before.push(list@[i as int]@));
        }
        i = i + 1;
    }
    assert(all.take(i as int) =~= all);
}

/// The categories in order, the recent ones first, each once.
pub fn category_matches_empty_query(
    categories: &Vec<String>,
    recent_categories: &Vec<String>,
) -> (r: Vec<String>)
    ensures
        texts(r@) == first_seen(texts(recent_categories@) + texts(categories@)),
{
    let mut out: Vec<String> = Vec::new();
    assert(texts(out@) =~= first_seen(Seq::empty()));
    push_unseen(&mut out, recent_categories, Ghost(Seq::empty()));
    assert(Seq::<Seq<char>>::empty() + texts(recent_categories@) =~= texts(recent_categories@));
    push_unseen(&mut out, categories, Ghost(texts(recent_categories@)));
    out
}

pub open spec fn searched_char(c: char) -> char {
    if c == ':' || c == '-' {
        ' '
    } else {
        c
    }
}

/// The text of a category in which a query is searched.
pub open spec fn searched_text(category: Seq<char>) -> Seq<char> {
    category.map_values(|c: char| searched_char(c))
}

fn make_searched(category: &str) -> (r: String)
    ensures
        r@ == searched_text(category@),
{
    let v = chars(category);
    let mut out: Vec<char> = Vec::new();
    let mut i: usize = 0;
    while i < v.len()
        invariant
            i <= v.len(),
            v@ == category@,
            out@ == searched_text(category@).take(i as int),
        decreases v.len() - i,
    {
        out.push(
            if v[i] == ':' || v[i] == '-' {
                ' '
            } else {
                v[i]
            },
        );
        i = i + 1;
        assert(out@ =~= searched_text(category@).take(i as int));
    }
    assert(out@ =~= searched_text(category@));
    from_chars(&out)
}

/// The first position of a text, from `from` on.
pub open spec fn first_at(list: Seq<Seq<char>>, key: Seq<char>, from: int) -> Option<int>
    decreases list.len() - from,
{
    if from < 0 || from >= list.len() {
        None
    } else if list[from] == key {
        Some(from)
    } else {
        first_at(list, key, from + 1)
    }
}

pub(crate) fn find_first(list: &Vec<String>, key: &str) -> (r: Option<usize>)
    ensures
        match r {
            Some(i) => first_at(texts(list@), key@, 0) == Some(i as int) && i < list@.len(),
            None => first_at(texts(list@), key@, 0) is None,
        },
{
    let mut i: usize = 0;
    while i < list.len()
        invariant
            i <= list.len(),
            first_at(texts(list@), key@, 0) == first_at(texts(list@), key@, i as int),
        decreases list.len() - i,
    {
        assert(texts(list@)[i as int] == list@[i as int]@);
        if same(list[i].as_str(), key) {
            return Some(i);
        }
        i = i + 1;
    }
    None
}

/// The score of a category from its score in the search: a match of the whole query
/// counts, and so does a recent use, the more recent the more.
pub open spec fn ranked_score(
    category: Seq<char>,
    needle: Seq<char>,
    recent: Seq<Seq<char>>,
    found: Option<u16>,
) -> Option<int> {
    match found {
        Some(score) => {
            let whole: int = if has_text(lower_ascii(searched_text(category)), needle) {
                1000
            } else {
                0
            };
            let lately: int = match first_at(recent, category, 0) {
                Some(i) => 10000 - i,
                None => 0,
            };
            Some(score + whole + lately)
        },
        None => None,
    }
}

/// The score of a category from its score in the search.
pub fn category_score(
    category: &str,
    needle: &str,
    recent_categories: &Vec<String>,
    found: Option<u16>,
) -> (r: Option<i64>)
    requires
        recent_categories@.len() <= i64::MAX,
    ensures
        match r {
            Some(n) => ranked_score(category@, needle@, texts(recent_categories@), found) == Some(
                n as int,
            ),
            None => ranked_score(category@, needle@, texts(recent_categories@), found) is None,
        },
{
    let score: i64 = match found {
        Some(n) => n as i64,
        None => {
            return None;
        },
    };
    let text = make_searched(category);
    let whole: i64 = if contains(to_lower_ascii(text.as_str()).as_str(), needle) {
        1000
    } else {
        0
    };
    let lately: i64 = match find_first(recent_categories, category) {
        Some(i) => 10000 - (i as i64),
        None => 0,
    };
    Some(score + whole + lately)
}

/// A category with its score.
pub struct ScoredCategory {
    pub score: i64,
    pub category: String,
}

impl Ranked for ScoredCategory {
    /// The highest score first; equal ones by name.
    open spec fn le(a: Self, b: Self) -> bool {
        a.score > b.score || (a.score == b.score && !precedes(b.category@, a.category@))
    }

    proof fn le_total(a: Self, b: Self) {
        if precedes(b.category@, a.category@) {
            lemma_precedes_asymmetric(b.category@, a.category@);
        }
    }

    proof fn le_transitive(a: Self, b: Self, c: Self) {
        let (x, y, z) = (a.category@, b.category@, c.category@);
        if precedes(z, x) {
            lemma_precedes_total(x, y);
            if precedes(x, y) {
                lemma_precedes_transitive(z, x, y);
            }
        }
    }

    fn may_precede(&self, other: &Self) -> (r: bool) {
        self.score > other.score || (self.score == other.score && !less(
            other.category.as_str(),
            self.category.as_str(),
        ))
    }
}

/// The categories that match, with their scores.
pub open spec fn scored(
    categories: Seq<String>,
    found: Seq<Option<u16>>,
    needle: Seq<char>,
    recent: Seq<Seq<char>>,
    n: int,
) -> Seq<ScoredCategory>
    decreases n,
{
    if n <= 0 {
        Seq::empty()
    } else {
        let before = scored(categories, found, needle, recent, n - 1);
        match ranked_score(categories[n - 1]@, needle, recent, found[n - 1]) {
            Some(score) => before.push(
                ScoredCategory { score: score as i64, category: categories[n - 1] },
            ),
            None => before,
        }
    }
}

pub open spec fn category_texts(list: Seq<ScoredCategory>) -> Seq<Seq<char>> {
    list.map_values(|s: ScoredCategory| s.category@)
}

/// The categories that match, the best first, from the scores of the search.
pub fn rank_categories(
    categories: &Vec<String>,
    found: &Vec<Option<u16>>,
    needle: &str,
    recent_categories: &Vec<String>,
) -> (r: Vec<String>)
    requires
        found@.len() == categories@.len(),
        recent_categories@.len() <= i64::MAX,
    ensures
        texts(r@) == category_texts(
            sorted(
                scored(
                    categories@,
                    found@,
                    needle@,
                    texts(recent_categories@),
                    categories@.len() as int,
                ),
            ),
        ),
{
    let ghost recent = texts(recent_categories@);
    let mut list: Vec<ScoredCategory> = Vec::new();
    let mut i: usize = 0;
    while i < categories.len()
        invariant
            i <= categories.len(),
            found@.len() == categories@.len(),
            recent_categories@.len() <= i64::MAX,
            recent == texts(recent_categories@),
            list@ == scored(categories@, found@, needle@, recent, i as int),
        decreases categories.len() - i,
    {
        match category_score(categories[i].as_str(), needle, recent_categories, found[i]) {
            Some(score) => {
                list.push(ScoredCategory { score, category: categories[i].clone() });
            },
            None => {},
        }
        i = i + 1;
    }
    let list = sort(list);
    let mut out: Vec<String> = Vec::new();
    let mut k: usize = 0;
    let ghost want = category_texts(list@);
    assert(texts(out@) =~= want.take(0));
    while k < list.len()
        invariant
            k <= list.len(),
            want == category_texts(list@),
            texts(out@) == want.take(k as int),
        decreases list.len() - k,
    {
        let ghost before = texts(out@);
        out.push(list[k].category.clone());
        k = k + 1;
        assert(texts(out@) =~= before.push(want[k - 1]));
        assert(texts(out@) =~= want.take(k as int));
    }
    assert(want.take(k as int) =~= want);
    out
}

/// What the search finds in each category.
pub open spec fn found_in(categories: Seq<Seq<char>>, needle: Seq<char>) -> Seq<Option<u16>> {
    categories.map_values(|c: Seq<char>| fuzzy_match(needle, searched_text(c)))
}

/// Whether a query, or else each category, is short enough for the search.
pub open spec fn searchable(categories: Seq<Seq<char>>, query: Seq<char>) -> bool {
    forall|i: int|
        0 <= i < categories.len() ==> (#[trigger] categories[i]).len() <= u32::MAX && (
        categories[i].len() <= 2000 || query.len() <= 2000)
}

/// The categories that match a query, the best first.
pub open spec fn found_categories(
    categories: Seq<String>,
    needle: Seq<char>,
    recent: Seq<Seq<char>>,
) -> Seq<Seq<char>> {
    category_texts(
        sorted(
            scored(
                categories,
                found_in(texts(categories), needle),
                needle,
                recent,
                categories.len() as int,
            ),
        ),
    )
}

/// The categories that match a query, the best first.
pub fn category_matches_fuzzy_query(
    categories: &Vec<String>,
    needle: &str,
    recent_categories: &Vec<String>,
) -> (r: Vec<String>)
    requires
        searchable(texts(categories@), needle@),
        recent_categories@.len() <= i64::MAX,
    ensures
        texts(r@) == found_categories(categories@, needle@, texts(recent_categories@)),
{
    let mut found: Vec<Option<u16>> = Vec::new();
    let ghost want = found_in(texts(categories@), needle@);
    let mut i: usize = 0;
    while i < categories.len()
        invariant
            i <= categories.len(),
            searchable(texts(categories@), needle@),
            want == found_in(texts(categories@), needle@),
            found@ == want.take(i as int),
        decreases categories.len() - i,
    {
        assert(texts(categories@)[i as int] == categories@[i as int]@);
        let text = make_searched(categories[i].as_str());
        let score = fuzzy_score(needle, text.as_str());
        found.push(score);
        i = i + 1;
        assert(found@ =~= want.take(i as int));
    }
    assert(found@ =~= want);
    rank_categories(categories, &found, needle, recent_categories)
}

/// A list from the position `k` on, then what stands before it.
pub open spec fn rotated(list: Seq<Seq<char>>, k: int) -> Seq<Seq<char>> {
    list.skip(k) + list.take(k)
}

/// What a search shows: the matches from the cursor on, round to the one before it, as
/// many as there is room for.
pub open spec fn shown_matches(list: Seq<Seq<char>>, cursor: int) -> Seq<Seq<char>> {
    let turned = if list.len() == 0 {
        list
    } else {
        rotated(list, cursor % (list.len() as int))
    };
    if turned.len() <= REVIEW_TUI_CATEGORY_MATCH_LIMIT {
        turned
    } else {
        turned.take(REVIEW_TUI_CATEGORY_MATCH_LIMIT as int)
    }
}

/// What a search shows of the matches.
pub fn show_matches(list: &Vec<String>, cursor: usize) -> (r: Vec<String>)
    ensures
        texts(r@) == shown_matches(texts(list@), cursor as int),
{
    let n = list.len();
    let mut out: Vec<String> = Vec::new();
    let ghost all = texts(list@);
    if n == 0 {
        assert(texts(out@) =~= all);
        return out;
    }
    let start: usize = cursor % n;
    let ghost turned = rotated(all, start as int);
    let mut k: usize = 0;
    assert(turned.len() == n);
    assert(texts(out@) =~= turned.take(0));
    while k < n && k < REVIEW_TUI_CATEGORY_MATCH_LIMIT
        invariant
            k <= n,
            k <= REVIEW_TUI_CATEGORY_MATCH_LIMIT,
            n == list.len(),
            start < n,
            all == texts(list@),
            turned == rotated(all, start as int),
            turned.len() == n,
            texts(out@) == turned.take(k as int),
        decreases n - k,
    {
        let ghost before = texts(out@);
        let at: usize = if k < n - start {
            start + k
        } else {
            k - (n - start)
        };
        out.push(list[at].clone());
        assert(turned[k as int] == all[at as int]);
        k = k + 1;
        assert(texts(out@) =~= before.push(turned[k - 1]));
        assert(texts(out@) =~= turned.take(k as int));
    }
    assert(turned.take(n as int) =~= turned);
    out
}

/// What a search for a category shows.
pub open spec fn matches_for(
    categories: Seq<String>,
    input: Seq<char>,
    cursor: int,
    recent: Seq<Seq<char>>,
) -> Seq<Seq<char>> {
    let needle = query_text(input);
    shown_matches(
        if needle.len() == 0 {
            first_seen(recent + texts(categories))
        } else {
            found_categories(categories, needle, recent)
        },
        cursor,
    )
}

/// What a search for a category shows.
pub fn category_matches(
    categories: &Vec<String>,
    input: &str,
    cursor: usize,
    recent_categories: &Vec<String>,
) -> (r: Vec<String>)
    requires
        searchable(texts(categories@), input@),
        recent_categories@.len() <= i64::MAX,
    ensures
        texts(r@) == matches_for(
            categories@,
            input@,
            cursor as int,
            texts(recent_categories@),
        ),
{
    let needle = normalize_category_query(input);
    proof {
        crate::text::lemma_trimmed_len(input@);
    }
    let list = if needle.as_str().is_empty() {
        category_matches_empty_query(categories, recent_categories)
    } else {
        category_matches_fuzzy_query(categories, needle.as_str(), recent_categories)
    };
    show_matches(&list, cursor)
}

/// A search shows no more categories than there is room for.
pub proof fn law_few_matches(
    categories: Seq<String>,
    input: Seq<char>,
    cursor: int,
    recent: Seq<Seq<char>>,
)
    ensures
        matches_for(categories, input, cursor, recent).len() <= REVIEW_TUI_CATEGORY_MATCH_LIMIT,
{
}

proof fn lemma_first_seen(list: Seq<Seq<char>>)
    ensures
        first_seen(list).no_duplicates(),
        forall|t: Seq<char>| #[trigger] first_seen(list).contains(t) <==> list.contains(t),
    decreases list.len(),
{
    if list.len() > 0 {
        let t = list.drop_last();
        lemma_first_seen(t);
        assert(list =~= t.push(list.last()));
        assert forall|x: Seq<char>| #[trigger] first_seen(list).contains(x) <==> list.contains(
            x,
        ) by {
            let a = first_seen(t);
            if list.contains(x) {
                let i = choose|i: int| 0 <= i < list.len() && list[i] == x;
                if i < t.len() {
                    assert(t[i] == x);
                    assert(a.contains(x));
                    let j = choose|j: int| 0 <= j < a.len() && a[j] == x;
                    assert(first_seen(list)[j] == x);
                } else if !a.contains(x) {
                    assert(first_seen(list)[a.len() as int] == x);
                }
            }
            if first_seen(list).contains(x) {
                let j = choose|j: int| 0 <= j < first_seen(list).len() && first_seen(list)[j] == x;
                if j < a.len() {
                    assert(a.contains(x));
                    let i = choose|i: int| 0 <= i < t.len() && t[i] == x;
                    assert(list[i] == x);
                } else {
                    assert(list[list.len() - 1] == x);
                }
            }
        }
    }
}

/// Without a query every category is offered, and none twice.
pub proof fn law_empty_query_offers_all(categories: Seq<Seq<char>>, recent: Seq<Seq<char>>)
    ensures
        first_seen(recent + categories).no_duplicates(),
        forall|c: Seq<char>| #[trigger]
            first_seen(recent + categories).contains(c) <==> recent.contains(c)
                || categories.contains(c),
{
    lemma_first_seen(recent + categories);
    assert forall|c: Seq<char>| #[trigger]
        first_seen(recent + categories).contains(c) <==> recent.contains(c) || categories.contains(
            c,
        ) by {
        let all = recent + categories;
        if recent.contains(c) {
            let i = choose|i: int| 0 <= i < recent.len() && recent[i] == c;
            assert(all[i] == c);
        }
        if categories.contains(c) {
            let i = choose|i: int| 0 <= i < categories.len() && categories[i] == c;
            assert(all[recent.len() + i] == c);
        }
        if all.contains(c) {
            let i = choose|i: int| 0 <= i < all.len() && all[i] == c;
            if i < recent.len() {
                assert(recent[i] == c);
            } else {
                assert(categories[i - recent.len()] == c);
            }
        }
    }
}

} // verus!
