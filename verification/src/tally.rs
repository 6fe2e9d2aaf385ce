//! Amounts tallied by key, the largest first.

use crate::amount::{limit, sum_of, Amount};
use crate::order::{as_ints, in_order, lemma_same_elements, lemma_where_at, sort, where_at, Ranked};
use crate::sums::{full_weight, lemma_where_ascending, picked, total_at};
use crate::text::{
    lemma_precedes_asymmetric, lemma_precedes_irreflexive, lemma_precedes_total,
    lemma_precedes_transitive, less, precedes, same,
};
use vstd::prelude::*;

verus! {

/// A key under which rows are counted: a name, and a part of it where there is one.
pub struct TallyKey {
    pub name: String,
    pub part: String,
}

impl View for TallyKey {
    type V = (Seq<char>, Seq<char>);

    open spec fn view(&self) -> (Seq<char>, Seq<char>) {
        (self.name@, self.part@)
    }
}

/// What the rows under a key come to.
pub struct Tally {
    pub key: TallyKey,
    pub amount: Amount,
    pub transactions: usize,
}

/// Whether the first key may stand before the second: by name, then by part.
pub open spec fn key_le(a: (Seq<char>, Seq<char>), b: (Seq<char>, Seq<char>)) -> bool {
    precedes(a.0, b.0) || (a.0 == b.0 && !precedes(b.1, a.1))
}

proof fn lemma_key_total(a: (Seq<char>, Seq<char>), b: (Seq<char>, Seq<char>))
    ensures
        key_le(a, b) || key_le(b, a),
{
    lemma_precedes_total(a.0, b.0);
    if precedes(b.1, a.1) {
        lemma_precedes_asymmetric(b.1, a.1);
    }
}

proof fn lemma_key_transitive(
    a: (Seq<char>, Seq<char>),
    b: (Seq<char>, Seq<char>),
    c: (Seq<char>, Seq<char>),
)
    requires
        key_le(a, b),
        key_le(b, c),
    ensures
        key_le(a, c),
{
    if precedes(a.0, b.0) && precedes(b.0, c.0) {
        lemma_precedes_transitive(a.0, b.0, c.0);
    }
    if precedes(c.1, a.1) {
        lemma_precedes_total(a.1, b.1);
        if precedes(a.1, b.1) {
            lemma_precedes_transitive(c.1, a.1, b.1);
        }
    }
}

impl Ranked for Tally {
    /// The larger amount first; equal amounts by key.
    open spec fn le(a: Self, b: Self) -> bool {
        a.amount.scaled() > b.amount.scaled() || (a.amount.scaled() == b.amount.scaled() && key_le(
            a.key@,
            b.key@,
        ))
    }

    proof fn le_total(a: Self, b: Self) {
        lemma_key_total(a.key@, b.key@);
    }

    proof fn le_transitive(a: Self, b: Self, c: Self) {
        if key_le(a.key@, b.key@) && key_le(b.key@, c.key@) {
            lemma_key_transitive(a.key@, b.key@, c.key@);
        }
    }

    fn may_precede(&self, other: &Self) -> (r: bool) {
        if other.amount.is_less(&self.amount) {
            true
        } else if self.amount.is_less(&other.amount) {
            false
        } else if less(self.key.name.as_str(), other.key.name.as_str()) {
            true
        } else {
            same(self.key.name.as_str(), other.key.name.as_str()) && !less(
                other.key.part.as_str(),
                self.key.part.as_str(),
            )
        }
    }
}

/// The keys of rows; a row without a key is not counted.
pub open spec fn key_views(keys: Seq<Option<TallyKey>>) -> Seq<Option<(Seq<char>, Seq<char>)>> {
    keys.map_values(
        |k: Option<TallyKey>|
            match k {
                Some(k) => Some(k@),
                None => None,
            },
    )
}

/// Whether the row at a position has the key.
pub open spec fn has_key(
    keys: Seq<Option<(Seq<char>, Seq<char>)>>,
    key: (Seq<char>, Seq<char>),
) -> spec_fn(int) -> bool {
    |i: int| keys[i] == Some(key)
}

/// The positions of the rows with the key.
pub open spec fn rows_with(
    keys: Seq<Option<(Seq<char>, Seq<char>)>>,
    key: (Seq<char>, Seq<char>),
) -> Seq<int> {
    where_at(keys.len() as int, has_key(keys, key))
}

/// Whether a line tells what the rows under its key come to.
pub open spec fn counts(
    t: Tally,
    keys: Seq<Option<(Seq<char>, Seq<char>)>>,
    amounts: Seq<Amount>,
) -> bool {
    let at = rows_with(keys, t.key@);
    at.len() > 0 && t.transactions == at.len() && t.amount == sum_of(picked(amounts, at))
}

/// Whether the list holds a line for each key, once, with what its rows come to.
pub open spec fn covers(
    list: Seq<Tally>,
    keys: Seq<Option<(Seq<char>, Seq<char>)>>,
    amounts: Seq<Amount>,
) -> bool {
    &&& forall|i: int| 0 <= i < list.len() ==> counts(#[trigger] list[i], keys, amounts)
    &&& forall|i: int, j: int|
        0 <= i < j < list.len() ==> (#[trigger] list[i]).key@ != (#[trigger] list[j]).key@
    &&& forall|p: int|
        0 <= p < keys.len() && (#[trigger] keys[p]) is Some ==> exists|i: int|
            0 <= i < list.len() && (#[trigger] list[i]).key@ == keys[p]->0
}

/// Whether the list is the tally of the rows: a line for each key, the largest
/// amount first, equal amounts by key.
pub open spec fn tallied(
    list: Seq<Tally>,
    keys: Seq<Option<(Seq<char>, Seq<char>)>>,
    amounts: Seq<Amount>,
) -> bool {
    in_order(list) && covers(list, keys, amounts)
}

/// No two lists are tallies of the same rows.
pub proof fn law_tally_is_unique(
    a: Seq<Tally>,
    b: Seq<Tally>,
    keys: Seq<Option<(Seq<char>, Seq<char>)>>,
    amounts: Seq<Amount>,
)
    requires
        tallied(a, keys, amounts),
        tallied(b, keys, amounts),
    ensures
        a.len() == b.len(),
        forall|i: int|
            0 <= i < a.len() ==> (#[trigger] a[i]).key@ == b[i].key@ && a[i].amount == b[i].amount
                && a[i].transactions == b[i].transactions,
{
    lemma_tally_prefix(a, b, keys, amounts, 0);
}

proof fn lemma_line_of(
    a: Seq<Tally>,
    b: Seq<Tally>,
    keys: Seq<Option<(Seq<char>, Seq<char>)>>,
    amounts: Seq<Amount>,
    i: int,
) -> (j: int)
    requires
        tallied(a, keys, amounts),
        tallied(b, keys, amounts),
        0 <= i < a.len(),
    ensures
        0 <= j < b.len(),
        b[j].key@ == a[i].key@,
        b[j].amount == a[i].amount,
        b[j].transactions == a[i].transactions,
{
    assert(counts(a[i], keys, amounts));
    let at = rows_with(keys, a[i].key@);
    lemma_where_at(keys.len() as int, has_key(keys, a[i].key@));
    let p = at[0];
    assert(keys[p] == Some(a[i].key@));
    let j = choose|j: int| 0 <= j < b.len() && (#[trigger] b[j]).key@ == keys[p]->0;
    assert(counts(b[j], keys, amounts));
    j
}

proof fn lemma_tally_prefix(
    a: Seq<Tally>,
    b: Seq<Tally>,
    keys: Seq<Option<(Seq<char>, Seq<char>)>>,
    amounts: Seq<Amount>,
    n: int,
)
    requires
        tallied(a, keys, amounts),
        tallied(b, keys, amounts),
        0 <= n <= a.len(),
        n <= b.len(),
        forall|i: int|
            0 <= i < n ==> (#[trigger] a[i]).key@ == b[i].key@ && a[i].amount == b[i].amount
                && a[i].transactions == b[i].transactions,
    ensures
        a.len() == b.len(),
        forall|i: int|
            0 <= i < a.len() ==> (#[trigger] a[i]).key@ == b[i].key@ && a[i].amount == b[i].amount
                && a[i].transactions == b[i].transactions,
    decreases a.len() - n,
{
    if n == a.len() {
        if n < b.len() {
            let j = lemma_line_of(b, a, keys, amounts, n);
            assert(b[j].key@ == a[j].key@);
            assert(b[j].key@ != b[n].key@);
        }
    } else {
        let j = lemma_line_of(a, b, keys, amounts, n);
        if j < n {
            assert(a[j].key@ == b[j].key@);
            assert(a[j].key@ != a[n].key@);
        }
        let k = lemma_line_of(b, a, keys, amounts, n);
        if k < n {
            assert(b[k].key@ == a[k].key@);
            assert(b[k].key@ != b[n].key@);
        }
        if j != n {
            assert(k != n) by {
                if k == n {
                    assert(b[n].key@ != b[j].key@);
                }
            }
            assert(Tally::le(b[n], b[j]));
            assert(Tally::le(a[n], a[k]));
            assert(b[n].amount == a[k].amount);
            let x = a[n].key@;
            let y = b[n].key@;
            assert(key_le(x, y) && key_le(y, x));
            if precedes(x.0, y.0) {
                lemma_precedes_asymmetric(x.0, y.0);
            }
            if precedes(y.0, x.0) {
                lemma_precedes_asymmetric(y.0, x.0);
            }
            if x.0 == y.0 {
                lemma_precedes_irreflexive(x.0);
                lemma_precedes_total(x.1, y.1);
            }
            assert(x == y);
            assert(b[n].key@ != b[j].key@);
        }
        lemma_tally_prefix(a, b, keys, amounts, n + 1);
    }
}

fn same_key(a: &TallyKey, b: &TallyKey) -> (r: bool)
    ensures
        r == (a@ == b@),
{
    same(a.name.as_str(), b.name.as_str()) && same(a.part.as_str(), b.part.as_str())
}

/// The positions of the rows with the key.
fn find_rows(keys: &Vec<Option<TallyKey>>, key: &TallyKey) -> (r: Vec<usize>)
    ensures
        as_ints(r@) == rows_with(key_views(keys@), key@),
{
    let ghost f = has_key(key_views(keys@), key@);
    let mut out: Vec<usize> = Vec::new();
    let mut i: usize = 0;
    assert(as_ints(out@) =~= where_at(0, f));
    while i < keys.len()
        invariant
            i <= keys.len(),
            f == has_key(key_views(keys@), key@),
            as_ints(out@) == where_at(i as int, f),
        decreases keys.len() - i,
    {
        let ghost now = as_ints(out@);
        let hit = match &keys[i] {
            Some(k) => same_key(k, key),
            None => false,
        };
        assert(hit == f(i as int));
        if hit {
            out.push(i);
            assert(as_ints(out@) =~= now.push(i as int));
        }
        i = i + 1;
    }
    out
}

fn is_listed(list: &Vec<Tally>, key: &TallyKey) -> (r: bool)
    ensures
        r == exists|i: int| 0 <= i < list@.len() && (#[trigger] list@[i]).key@ == key@,
{
    let mut i: usize = 0;
    while i < list.len()
        invariant
            i <= list.len(),
            forall|j: int| 0 <= j < i ==> (#[trigger] list@[j]).key@ != key@,
        decreases list.len() - i,
    {
        if same_key(&list[i].key, key) {
            assert(list@[i as int].key@ == key@);
            return true;
        }
        i = i + 1;
    }
    false
}

fn copy_key(k: &TallyKey) -> (r: TallyKey)
    ensures
        r@ == k@,
{
    TallyKey { name: k.name.clone(), part: k.part.clone() }
}

/// Tallies amounts by key.
pub fn tally(keys: &Vec<Option<TallyKey>>, amounts: &Vec<Amount>) -> (r: Vec<Tally>)
    requires
        keys@.len() == amounts@.len(),
        full_weight(amounts@) <= limit(),
    ensures
        tallied(r@, key_views(keys@), amounts@),
{
    let ghost kv = key_views(keys@);
    let mut out: Vec<Tally> = Vec::new();
    let mut i: usize = 0;
    while i < keys.len()
        invariant
            i <= keys.len(),
            kv == key_views(keys@),
            keys@.len() == amounts@.len(),
            full_weight(amounts@) <= limit(),
            forall|j: int| 0 <= j < out@.len() ==> counts(#[trigger] out@[j], kv, amounts@),
            forall|a: int, b: int|
                0 <= a < b < out@.len() ==> (#[trigger] out@[a]).key@ != (#[trigger] out@[b]).key@,
            forall|p: int|
                0 <= p < i && (#[trigger] kv[p]) is Some ==> exists|j: int|
                    0 <= j < out@.len() && (#[trigger] out@[j]).key@ == kv[p]->0,
        decreases keys.len() - i,
    {
        let ghost before = out@;
        match &keys[i] {
            Some(k) => {
                if !is_listed(&out, k) {
                    let at = find_rows(keys, k);
                    proof {
                        lemma_where_at(kv.len() as int, has_key(kv, k@));
                        lemma_where_ascending(kv.len() as int, has_key(kv, k@));
                        assert(kv[i as int] == Some(k@));
                        assert(has_key(kv, k@)(i as int));
                        assert(rows_with(kv, k@).contains(i as int));
                        assert(as_ints(at@).len() == at@.len());
                    }
                    let amount = total_at(amounts, &at);
                    let line = Tally { key: copy_key(k), amount, transactions: at.len() };
                    out.push(line);
                    proof {
                        assert forall|p: int|
                            0 <= p < i + 1 && (#[trigger] kv[p]) is Some implies exists|j: int|
                            0 <= j < out@.len() && (#[trigger] out@[j]).key@ == kv[p]->0 by {
                            if p < i {
                                let j = choose|j: int|
                                    0 <= j < before.len() && (#[trigger] before[j]).key@
                                        == kv[p]->0;
                                assert(out@[j].key@ == kv[p]->0);
                            } else {
                                assert(out@[before.len() as int].key@ == kv[p]->0);
                            }
                        }
                    }
                }
            },
            None => {},
        }
        i = i + 1;
    }
    let ghost list = out@;
    let r = sort(out);
    proof {
        lemma_covers_kept(list, r@, kv, amounts@);
    }
    r
}

/// A list with the same lines covers the same rows.
proof fn lemma_covers_kept(
    a: Seq<Tally>,
    b: Seq<Tally>,
    keys: Seq<Option<(Seq<char>, Seq<char>)>>,
    amounts: Seq<Amount>,
)
    requires
        covers(a, keys, amounts),
        a.to_multiset() == b.to_multiset(),
    ensures
        covers(b, keys, amounts),
{
    assert(a.no_duplicates()) by {
        assert forall|i: int, j: int| 0 <= i < a.len() && 0 <= j < a.len() && i != j implies a[i]
            != a[j] by {
            if i < j {
                assert(a[i].key@ != a[j].key@);
            } else {
                assert(a[j].key@ != a[i].key@);
            }
        }
    }
    lemma_same_elements(a, b);
    assert forall|i: int| 0 <= i < b.len() implies counts(#[trigger] b[i], keys, amounts) by {
        assert(b.contains(b[i]));
        let k = choose|k: int| 0 <= k < a.len() && a[k] == b[i];
        assert(counts(a[k], keys, amounts));
    }
    assert forall|i: int, j: int| 0 <= i < j < b.len() implies (#[trigger] b[i]).key@ != (
    #[trigger] b[j]).key@ by {
        assert(b.contains(b[i]) && b.contains(b[j]));
        let x = choose|x: int| 0 <= x < a.len() && a[x] == b[i];
        let y = choose|y: int| 0 <= y < a.len() && a[y] == b[j];
        assert(b[i] != b[j]);
        if x < y {
            assert(a[x].key@ != a[y].key@);
        } else {
            assert(a[y].key@ != a[x].key@);
        }
    }
    assert forall|p: int| 0 <= p < keys.len() && (#[trigger] keys[p]) is Some implies exists|i: int|
        0 <= i < b.len() && (#[trigger] b[i]).key@ == keys[p]->0 by {
        let k = choose|k: int| 0 <= k < a.len() && (#[trigger] a[k]).key@ == keys[p]->0;
        assert(a.contains(a[k]));
        assert(b.contains(a[k]));
        let i = choose|i: int| 0 <= i < b.len() && b[i] == a[k];
        assert(b[i].key@ == keys[p]->0);
    }
}

} // verus!
