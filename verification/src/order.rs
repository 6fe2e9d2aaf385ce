//! Stable sorting, and grouping by a textual key.

use crate::text::{
    lemma_precedes_irreflexive, lemma_precedes_total,
    lemma_precedes_transitive, less, precedes, same, texts,
};
use vstd::prelude::*;

verus! {

/// Values that a total preorder ranks.
pub trait Ranked: Sized {
    /// Whether `a` may stand before `b`.
    spec fn le(a: Self, b: Self) -> bool;

    proof fn le_total(a: Self, b: Self)
        ensures
            Self::le(a, b) || Self::le(b, a),
    ;

    proof fn le_transitive(a: Self, b: Self, c: Self)
        requires
            Self::le(a, b),
            Self::le(b, c),
        ensures
            Self::le(a, c),
    ;

    fn may_precede(&self, other: &Self) -> (r: bool)
        ensures
            r == Self::le(*self, *other),
    ;
}

/// `x` put into a sorted list, behind everything that may stand before it.
pub open spec fn inserted<T: Ranked>(s: Seq<T>, x: T) -> Seq<T>
    decreases s.len(),
{
    if s.len() == 0 {
        seq![x]
    } else if T::le(s.last(), x) {
        s.push(x)
    } else {
        inserted(s.drop_last(), x).push(s.last())
    }
}

/// The list in sorted order; what ranks equal keeps its order.
pub open spec fn sorted<T: Ranked>(s: Seq<T>) -> Seq<T>
    decreases s.len(),
{
    if s.len() == 0 {
        Seq::empty()
    } else {
        inserted(sorted(s.drop_last()), s.last())
    }
}

/// Whether each element may stand before those behind it.
pub open spec fn in_order<T: Ranked>(s: Seq<T>) -> bool {
    forall|i: int, j: int| 0 <= i < j < s.len() ==> T::le(#[trigger] s[i], #[trigger] s[j])
}

proof fn lemma_inserted_at<T: Ranked>(s: Seq<T>, x: T, p: int)
    requires
        0 <= p <= s.len(),
        forall|j: int| p <= j < s.len() ==> !T::le(#[trigger] s[j], x),
        p > 0 ==> T::le(s[p - 1], x),
    ensures
        inserted(s, x) == s.insert(p, x),
    decreases s.len(),
{
    if s.len() == 0 {
        assert(s.insert(p, x) =~= seq![x]);
    } else if T::le(s.last(), x) {
        assert(p == s.len());
        assert(s.insert(p, x) =~= s.push(x));
    } else {
        assert(p < s.len());
        let t = s.drop_last();
        assert forall|j: int| p <= j < t.len() implies !T::le(#[trigger] t[j], x) by {
            assert(t[j] == s[j]);
        }
        lemma_inserted_at(t, x, p);
        assert(s.insert(p, x) =~= t.insert(p, x).push(s.last()));
    }
}

proof fn lemma_inserted<T: Ranked>(s: Seq<T>, x: T)
    requires
        in_order(s),
    ensures
        in_order(inserted(s, x)),
        inserted(s, x).to_multiset() == s.to_multiset().insert(x),
        inserted(s, x).len() == s.len() + 1,
        forall|i: int|
            0 <= i < inserted(s, x).len() ==> (#[trigger] inserted(s, x)[i]) == x || s.contains(
                inserted(s, x)[i],
            ),
    decreases s.len(),
{
    broadcast use vstd::seq_lib::group_to_multiset_ensures;

    let r = inserted(s, x);
    if s.len() == 0 {
        assert(r =~= Seq::<T>::empty().push(x));
        assert(s =~= Seq::<T>::empty());
    } else if T::le(s.last(), x) {
        assert forall|i: int, j: int| 0 <= i < j < r.len() implies T::le(
            #[trigger] r[i],
            #[trigger] r[j],
        ) by {
            if j == s.len() {
                if i < s.len() - 1 {
                    T::le_transitive(s[i], s.last(), x);
                }
            }
        }
    } else {
        let t = s.drop_last();
        lemma_inserted(t, x);
        let u = inserted(t, x);
        T::le_total(s.last(), x);
        assert forall|i: int, j: int| 0 <= i < j < r.len() implies T::le(
            #[trigger] r[i],
            #[trigger] r[j],
        ) by {
            if j == u.len() {
                if u[i] != x {
                    assert(t.contains(u[i]));
                    let k = choose|k: int| 0 <= k < t.len() && t[k] == u[i];
                    assert(T::le(s[k], s[s.len() - 1]));
                }
            }
        }
        assert(s =~= t.push(s.last()));
        assert(r.to_multiset() =~= s.to_multiset().insert(x));
        assert forall|i: int| 0 <= i < r.len() implies (#[trigger] r[i]) == x || s.contains(
            r[i],
        ) by {
            if i < u.len() {
                if u[i] != x {
                    let k = choose|k: int| 0 <= k < t.len() && t[k] == u[i];
                    assert(s[k] == r[i]);
                }
            } else {
                assert(s[s.len() - 1] == r[i]);
            }
        }
    }
}

/// Sorting puts the elements in order, and neither drops nor adds one.
pub proof fn law_sorted<T: Ranked>(s: Seq<T>)
    ensures
        in_order(sorted(s)),
        sorted(s).to_multiset() == s.to_multiset(),
        sorted(s).len() == s.len(),
    decreases s.len(),
{
    broadcast use vstd::seq_lib::group_to_multiset_ensures;

    if s.len() == 0 {
        assert(sorted(s) =~= s);
    } else {
        law_sorted(s.drop_last());
        lemma_inserted(sorted(s.drop_last()), s.last());
        assert(s =~= s.drop_last().push(s.last()));
    }
}

/// Lists of the same elements hold the same values, and repeat one together.
pub proof fn lemma_same_elements<T>(a: Seq<T>, b: Seq<T>)
    requires
        a.to_multiset() == b.to_multiset(),
    ensures
        forall|x: T| #[trigger] a.contains(x) <==> b.contains(x),
        forall|x: T| a.contains(x) <==> #[trigger] b.contains(x),
        a.no_duplicates() ==> b.no_duplicates(),
{
    broadcast use vstd::seq_lib::group_to_multiset_ensures;

    assert forall|x: T| #[trigger] a.contains(x) <==> b.contains(x) by {
        assert(a.contains(x) <==> a.to_multiset().count(x) > 0);
        assert(b.contains(x) <==> b.to_multiset().count(x) > 0);
    }
    if a.no_duplicates() {
        a.lemma_multiset_has_no_duplicates();
        b.lemma_multiset_has_no_duplicates_conv();
    }
}

/// Sorts a list.
pub fn sort<T: Ranked>(list: Vec<T>) -> (r: Vec<T>)
    ensures
        r@ == sorted(list@),
        in_order(r@),
        r@.to_multiset() == list@.to_multiset(),
        r.len() == list.len(),
{
    let mut rest = list;
    let n: usize = rest.len();
    let mut out: Vec<T> = Vec::new();
    let mut i: usize = 0;
    while i < n
        invariant
            i <= n,
            n == list.len(),
            rest@ == list@.skip(i as int),
            out@ == sorted(list@.take(i as int)),
        decreases n - i,
    {
        let x = rest.remove(0);
        let mut p: usize = out.len();
        while p > 0 && !out[p - 1].may_precede(&x)
            invariant
                p <= out.len(),
                forall|j: int| p <= j < out.len() ==> !T::le(#[trigger] out@[j], x),
            decreases p,
        {
            p = p - 1;
        }
        proof {
            lemma_inserted_at(out@, x, p as int);
            assert(list@.take(i + 1).drop_last() =~= list@.take(i as int));
            assert(x == list@[i as int]);
        }
        out.insert(p, x);
        i = i + 1;
        assert(rest@ =~= list@.skip(i as int));
    }
    proof {
        assert(list@.take(n as int) =~= list@);
        law_sorted(list@);
    }
    out
}

// ---------------------------------------------------------------------------
// Sorting what values stand for

/// `x` put into a sorted list, behind everything that may stand before it.
pub open spec fn inserted_by<V>(s: Seq<V>, x: V, le: spec_fn(V, V) -> bool) -> Seq<V>
    decreases s.len(),
{
    if s.len() == 0 {
        seq![x]
    } else if le(s.last(), x) {
        s.push(x)
    } else {
        inserted_by(s.drop_last(), x, le).push(s.last())
    }
}

/// The list in sorted order; what ranks equal keeps its order.
pub open spec fn sorted_by<V>(s: Seq<V>, le: spec_fn(V, V) -> bool) -> Seq<V>
    decreases s.len(),
{
    if s.len() == 0 {
        Seq::empty()
    } else {
        inserted_by(sorted_by(s.drop_last(), le), s.last(), le)
    }
}

proof fn lemma_inserted_views<T: Ranked, V>(
    s: Seq<T>,
    x: T,
    f: spec_fn(T) -> V,
    le: spec_fn(V, V) -> bool,
)
    requires
        forall|a: T, b: T| #[trigger] T::le(a, b) == le(f(a), f(b)),
    ensures
        inserted(s, x).map_values(f) == inserted_by(s.map_values(f), f(x), le),
    decreases s.len(),
{
    if s.len() == 0 {
        assert(inserted(s, x).map_values(f) =~= seq![f(x)]);
    } else if T::le(s.last(), x) {
        assert(s.push(x).map_values(f) =~= s.map_values(f).push(f(x)));
    } else {
        lemma_inserted_views(s.drop_last(), x, f, le);
        assert(s.map_values(f).drop_last() =~= s.drop_last().map_values(f));
        let t = inserted(s.drop_last(), x);
        assert(t.push(s.last()).map_values(f) =~= t.map_values(f).push(f(s.last())));
    }
}

/// Sorting values sorts what they stand for.
pub proof fn lemma_sorted_views<T: Ranked, V>(
    s: Seq<T>,
    f: spec_fn(T) -> V,
    le: spec_fn(V, V) -> bool,
)
    requires
        forall|a: T, b: T| #[trigger] T::le(a, b) == le(f(a), f(b)),
    ensures
        sorted(s).map_values(f) == sorted_by(s.map_values(f), le),
    decreases s.len(),
{
    if s.len() == 0 {
        assert(sorted(s).map_values(f) =~= Seq::<V>::empty());
    } else {
        lemma_sorted_views(s.drop_last(), f, le);
        assert(s.map_values(f).drop_last() =~= s.drop_last().map_values(f));
        lemma_inserted_views(sorted(s.drop_last()), s.last(), f, le);
    }
}

// ---------------------------------------------------------------------------
// Grouping

/// The positions, in ascending order, at which the key stands.
pub open spec fn positions(keys: Seq<Seq<char>>, key: Seq<char>) -> Seq<int>
    decreases keys.len(),
{
    if keys.len() == 0 {
        Seq::empty()
    } else if keys.last() == key {
        positions(keys.drop_last(), key).push(keys.len() - 1)
    } else {
        positions(keys.drop_last(), key)
    }
}

pub proof fn lemma_positions(keys: Seq<Seq<char>>, key: Seq<char>)
    ensures
        forall|i: int|
            0 <= i < positions(keys, key).len() ==> 0 <= #[trigger] positions(keys, key)[i]
                < keys.len() && keys[positions(keys, key)[i]] == key,
        forall|i: int, j: int|
            0 <= i < j < positions(keys, key).len() ==> positions(keys, key)[i] < positions(
                keys,
                key,
            )[j],
        forall|p: int|
            0 <= p < keys.len() && #[trigger] keys[p] == key ==> positions(keys, key).contains(p),
        positions(keys, key).len() <= keys.len(),
    decreases keys.len(),
{
    if keys.len() > 0 {
        let t = keys.drop_last();
        lemma_positions(t, key);
        let a = positions(t, key);
        let b = positions(keys, key);
        assert forall|p: int| 0 <= p < keys.len() && #[trigger] keys[p] == key implies b.contains(
            p,
        ) by {
            if p < t.len() {
                assert(t[p] == key);
                let k = choose|k: int| 0 <= k < a.len() && a[k] == p;
                assert(b[k] == p);
            } else {
                assert(b[a.len() as int] == p);
            }
        }
    }
}

/// The positions at which a key stands.
pub(crate) fn find_positions(keys: &Vec<String>, key: &str) -> (r: Vec<usize>)
    ensures
        as_ints(r@) == positions(texts(keys@), key@),
{
    let ghost all = texts(keys@);
    let mut out: Vec<usize> = Vec::new();
    let mut i: usize = 0;
    assert(all.take(0) =~= Seq::<Seq<char>>::empty());
    assert(as_ints(out@) =~= positions(all.take(0), key@));
    while i < keys.len()
        invariant
            i <= keys.len(),
            all == texts(keys@),
            as_ints(out@) == positions(all.take(i as int), key@),
        decreases keys.len() - i,
    {
        proof {
            assert(all.take(i + 1).drop_last() =~= all.take(i as int));
            assert(all.take(i + 1).last() == keys@[i as int]@);
        }
        let ghost before = as_ints(out@);
        if same(keys[i].as_str(), key) {
            out.push(i);
            assert(as_ints(out@) =~= before.push(i as int));
        }
        i = i + 1;
    }
    assert(all.take(i as int) =~= all);
    out
}

/// A key and the positions at which it stands.
pub struct Group {
    pub key: String,
    pub members: Vec<usize>,
}

pub open spec fn as_ints(v: Seq<usize>) -> Seq<int> {
    v.map_values(|i: usize| i as int)
}

/// Whether the groups hold each key once, in ascending order, with its positions.
pub open spec fn groups_of(groups: Seq<Group>, keys: Seq<Seq<char>>) -> bool {
    &&& forall|i: int, j: int|
        0 <= i < j < groups.len() ==> precedes(
            (#[trigger] groups[i]).key@,
            (#[trigger] groups[j]).key@,
        )
    &&& forall|i: int|
        0 <= i < groups.len() ==> as_ints((#[trigger] groups[i]).members@) == positions(
            keys,
            groups[i].key@,
        ) && groups[i].members@.len() > 0
    &&& forall|p: int|
        0 <= p < keys.len() ==> exists|i: int|
            0 <= i < groups.len() && (#[trigger] groups[i]).key@ == #[trigger] keys[p]
}

/// The first group whose key does not stand before `key`.
fn group_position(groups: &Vec<Group>, key: &String) -> (r: usize)
    requires
        forall|i: int, j: int|
            0 <= i < j < groups.len() ==> precedes(
                (#[trigger] groups@[i]).key@,
                (#[trigger] groups@[j]).key@,
            ),
    ensures
        r <= groups.len(),
        forall|i: int| 0 <= i < r ==> precedes((#[trigger] groups@[i]).key@, key@),
        forall|i: int|
            r <= i < groups.len() ==> groups@[i].key@ == key@ || precedes(
                key@,
                (#[trigger] groups@[i]).key@,
            ),
        forall|i: int|
            r < i < groups.len() ==> precedes(key@, (#[trigger] groups@[i]).key@),
{
    let mut p: usize = 0;
    while p < groups.len() && less(groups[p].key.as_str(), key.as_str())
        invariant
            p <= groups.len(),
            forall|i: int| 0 <= i < p ==> precedes((#[trigger] groups@[i]).key@, key@),
        decreases groups.len() - p,
    {
        p = p + 1;
    }
    proof {
        if p < groups.len() {
            lemma_precedes_total(groups@[p as int].key@, key@);
            assert forall|i: int| p < i < groups.len() implies precedes(
                key@,
                (#[trigger] groups@[i]).key@,
            ) by {
                if groups@[p as int].key@ != key@ {
                    lemma_precedes_transitive(key@, groups@[p as int].key@, groups@[i].key@);
                }
            }
        }
    }
    p
}

/// Groups positions by their key.
pub fn group_by_key(keys: &Vec<String>) -> (r: Vec<Group>)
    ensures
        groups_of(r@, texts(keys@)),
{
    let mut groups: Vec<Group> = Vec::new();
    let mut n: usize = 0;
    let ghost all = texts(keys@);
    while n < keys.len()
        invariant
            n <= keys.len(),
            all == texts(keys@),
            groups_of(groups@, all.take(n as int)),
        decreases keys.len() - n,
    {
        let p = group_position(&groups, &keys[n]);
        let ghost before = groups@;
        let ghost old_keys = all.take(n as int);
        let ghost new_keys = all.take(n + 1);
        let ghost key = keys@[n as int]@;
        assert(new_keys.drop_last() =~= old_keys);
        assert(new_keys.last() == key);
        if p < groups.len() && same(groups[p].key.as_str(), keys[n].as_str()) {
            let mut g = groups.remove(p);
            let ghost was = g;
            g.members.push(n);
            assert(as_ints(g.members@) =~= as_ints(was.members@).push(n as int));
            groups.insert(p, g);
            proof {
                assert(groups@.len() == before.len());
                assert forall|i: int| 0 <= i < groups@.len() implies (#[trigger] groups@[i]).key@
                    == before[i].key@ && (i != p ==> groups@[i] == before[i]) by {}
                assert forall|i: int| 0 <= i < groups@.len() implies as_ints(
                    (#[trigger] groups@[i]).members@,
                ) == positions(new_keys, groups@[i].key@) && groups@[i].members@.len() > 0 by {
                    if i != p {
                        assert(groups@[i] == before[i]);
                        if groups@[i].key@ == key {
                            if i < p {
                                lemma_precedes_irreflexive(key);
                                assert(precedes(before[i].key@, key));
                            } else {
                                lemma_precedes_irreflexive(key);
                                assert(precedes(key, before[i].key@));
                            }
                        }
                    }
                }
                assert forall|q: int| 0 <= q < new_keys.len() implies exists|i: int|
                    0 <= i < groups@.len() && (#[trigger] groups@[i]).key@
                        == #[trigger] new_keys[q] by {
                    if q < n {
                        assert(old_keys[q] == new_keys[q]);
                        let i = choose|i: int|
                            0 <= i < before.len() && (#[trigger] before[i]).key@ == old_keys[q];
                        assert(groups@[i].key@ == new_keys[q]);
                    } else {
                        assert(groups@[p as int].key@ == new_keys[q]);
                    }
                }
            }
        } else {
            let mut members: Vec<usize> = Vec::new();
            members.push(n);
            let g = Group { key: keys[n].clone(), members };
            groups.insert(p, g);
            proof {
                assert(positions(old_keys, key) =~= Seq::<int>::empty()) by {
                    lemma_positions(old_keys, key);
                    let a = positions(old_keys, key);
                    if a.len() > 0 {
                        let q = a[0];
                        assert(old_keys[q] == key);
                        let i = choose|i: int|
                            0 <= i < before.len() && (#[trigger] before[i]).key@ == old_keys[q];
                        lemma_precedes_irreflexive(key);
                        assert(before[i].key@ == key);
                    }
                }
                assert(as_ints(g.members@) =~= positions(new_keys, key));
                assert forall|i: int| 0 <= i < groups@.len() implies as_ints(
                    (#[trigger] groups@[i]).members@,
                ) == positions(new_keys, groups@[i].key@) && groups@[i].members@.len() > 0 by {
                    if i < p {
                        assert(groups@[i] == before[i]);
                        lemma_precedes_irreflexive(key);
                    } else if i > p {
                        assert(groups@[i] == before[i - 1]);
                        lemma_precedes_irreflexive(key);
                    }
                }
                assert forall|i: int, j: int| 0 <= i < j < groups@.len() implies precedes(
                    (#[trigger] groups@[i]).key@,
                    (#[trigger] groups@[j]).key@,
                ) by {
                    if i < p {
                        assert(groups@[i] == before[i]);
                    } else if i > p {
                        assert(groups@[i] == before[i - 1]);
                    }
                    if j < p {
                        assert(groups@[j] == before[j]);
                    } else if j > p {
                        assert(groups@[j] == before[j - 1]);
                    }
                }
                assert forall|q: int| 0 <= q < new_keys.len() implies exists|i: int|
                    0 <= i < groups@.len() && (#[trigger] groups@[i]).key@
                        == #[trigger] new_keys[q] by {
                    if q < n {
                        assert(old_keys[q] == new_keys[q]);
                        let i = choose|i: int|
                            0 <= i < before.len() && (#[trigger] before[i]).key@ == old_keys[q];
                        if i < p {
                            assert(groups@[i].key@ == new_keys[q]);
                        } else {
                            assert(groups@[i + 1].key@ == new_keys[q]);
                        }
                    } else {
                        assert(groups@[p as int].key@ == new_keys[q]);
                    }
                }
            }
        }
        n = n + 1;
    }
    assert(all.take(n as int) =~= all);
    groups
}

/// What a filter keeps stands in the list, and passes the filter.
pub proof fn lemma_kept<T>(s: Seq<T>, f: spec_fn(T) -> bool, i: int)
    requires
        0 <= i < s.filter(f).len(),
    ensures
        s.contains(s.filter(f)[i]),
        f(s.filter(f)[i]),
    decreases s.len(),
{
    reveal(Seq::filter);
    if s.len() > 0 {
        let t = s.drop_last();
        if i < t.filter(f).len() {
            lemma_kept(t, f, i);
            let k = choose|k: int| 0 <= k < t.len() && t[k] == t.filter(f)[i];
            assert(s[k] == s.filter(f)[i]);
        } else {
            assert(s[s.len() - 1] == s.filter(f)[i]);
        }
    }
}

/// Whether each text comes before those behind it.
pub open spec fn strictly_ascending(list: Seq<Seq<char>>) -> bool {
    forall|i: int, j: int|
        0 <= i < j < list.len() ==> precedes(#[trigger] list[i], #[trigger] list[j])
}

/// A text put into its place in an ascending list, unless it is there.
pub open spec fn with_key(list: Seq<Seq<char>>, key: Seq<char>) -> Seq<Seq<char>>
    decreases list.len(),
{
    if list.len() == 0 {
        seq![key]
    } else if list.last() == key {
        list
    } else if precedes(list.last(), key) {
        list.push(key)
    } else {
        with_key(list.drop_last(), key).push(list.last())
    }
}

/// The texts in ascending order, each once.
pub open spec fn sorted_keys(keys: Seq<Seq<char>>) -> Seq<Seq<char>>
    decreases keys.len(),
{
    if keys.len() == 0 {
        Seq::empty()
    } else {
        with_key(sorted_keys(keys.drop_last()), keys.last())
    }
}

proof fn lemma_with_key_len(list: Seq<Seq<char>>, key: Seq<char>)
    ensures
        with_key(list, key).len() <= list.len() + 1,
    decreases list.len(),
{
    if list.len() > 0 {
        lemma_with_key_len(list.drop_last(), key);
    }
}

/// There are no more distinct texts than texts.
pub proof fn lemma_few_keys(keys: Seq<Seq<char>>)
    ensures
        sorted_keys(keys).len() <= keys.len(),
    decreases keys.len(),
{
    if keys.len() > 0 {
        lemma_few_keys(keys.drop_last());
        lemma_with_key_len(sorted_keys(keys.drop_last()), keys.last());
    }
}

proof fn lemma_with_key(list: Seq<Seq<char>>, key: Seq<char>)
    requires
        strictly_ascending(list),
    ensures
        strictly_ascending(with_key(list, key)),
        forall|k: Seq<char>| #[trigger]
            with_key(list, key).contains(k) <==> list.contains(k) || k == key,
    decreases list.len(),
{
    let r = with_key(list, key);
    if list.len() == 0 {
        assert(r[0] == key);
    } else if list.last() == key {
        assert(list[list.len() - 1] == key);
    } else if precedes(list.last(), key) {
        assert forall|i: int, j: int| 0 <= i < j < r.len() implies precedes(
            #[trigger] r[i],
            #[trigger] r[j],
        ) by {
            if j == list.len() && i < list.len() - 1 {
                lemma_precedes_transitive(list[i], list.last(), key);
            }
        }
        assert forall|k: Seq<char>| #[trigger] r.contains(k) <==> list.contains(k) || k == key by {
            if r.contains(k) && k != key {
                let i = choose|i: int| 0 <= i < r.len() && r[i] == k;
                assert(list[i] == k);
            }
            if list.contains(k) {
                let i = choose|i: int| 0 <= i < list.len() && list[i] == k;
                assert(r[i] == k);
            }
            if k == key {
                assert(r[list.len() as int] == k);
            }
        }
    } else {
        let t = list.drop_last();
        lemma_with_key(t, key);
        let u = with_key(t, key);
        lemma_precedes_total(list.last(), key);
        assert forall|i: int, j: int| 0 <= i < j < r.len() implies precedes(
            #[trigger] r[i],
            #[trigger] r[j],
        ) by {
            if j == u.len() {
                assert(u.contains(u[i]));
                if u[i] != key {
                    let k = choose|k: int| 0 <= k < t.len() && t[k] == u[i];
                    assert(precedes(list[k], list[list.len() - 1]));
                }
            }
        }
        assert forall|k: Seq<char>| #[trigger] r.contains(k) <==> list.contains(k) || k == key by {
            if r.contains(k) {
                let i = choose|i: int| 0 <= i < r.len() && r[i] == k;
                if i < u.len() {
                    assert(u.contains(k));
                    if t.contains(k) {
                        let m = choose|m: int| 0 <= m < t.len() && t[m] == k;
                        assert(list[m] == k);
                    }
                } else {
                    assert(list[list.len() - 1] == k);
                }
            }
            if list.contains(k) || k == key {
                if k == list.last() {
                    assert(r[u.len() as int] == k);
                } else {
                    if list.contains(k) {
                        let m = choose|m: int| 0 <= m < list.len() && list[m] == k;
                        assert(t[m] == k);
                    }
                    assert(u.contains(k));
                    let i = choose|i: int| 0 <= i < u.len() && u[i] == k;
                    assert(r[i] == k);
                }
            }
        }
    }
}

pub proof fn lemma_ascending_differ(list: Seq<Seq<char>>)
    requires
        strictly_ascending(list),
    ensures
        list.no_duplicates(),
{
    assert forall|i: int, j: int| 0 <= i < list.len() && 0 <= j < list.len() && i != j implies list[i]
        != list[j] by {
        if i < j {
            assert(precedes(list[i], list[j]));
        } else {
            assert(precedes(list[j], list[i]));
        }
        crate::text::lemma_precedes_irreflexive(list[i]);
    }
}

/// The sorted texts ascend, and are the same texts.
pub proof fn law_sorted_keys(keys: Seq<Seq<char>>)
    ensures
        strictly_ascending(sorted_keys(keys)),
        forall|k: Seq<char>| #[trigger] sorted_keys(keys).contains(k) <==> keys.contains(k),
    decreases keys.len(),
{
    if keys.len() > 0 {
        let t = keys.drop_last();
        law_sorted_keys(t);
        lemma_with_key(sorted_keys(t), keys.last());
        assert forall|k: Seq<char>| #[trigger] sorted_keys(keys).contains(k) <==> keys.contains(
            k,
        ) by {
            if keys.contains(k) && k != keys.last() {
                let i = choose|i: int| 0 <= i < keys.len() && keys[i] == k;
                assert(t[i] == k);
            }
            if t.contains(k) {
                let i = choose|i: int| 0 <= i < t.len() && t[i] == k;
                assert(keys[i] == k);
            }
            if k == keys.last() {
                assert(keys[keys.len() - 1] == k);
            }
        }
    }
}

/// Two ascending lists of the same texts are the same.
pub proof fn lemma_ascending_unique(a: Seq<Seq<char>>, b: Seq<Seq<char>>)
    requires
        strictly_ascending(a),
        strictly_ascending(b),
        forall|k: Seq<char>| #[trigger] a.contains(k) <==> b.contains(k),
    ensures
        a == b,
    decreases a.len(),
{
    if a.len() == 0 {
        if b.len() > 0 {
            assert(b.contains(b[0]));
            assert(a.contains(b[0]));
        }
        assert(a =~= b);
    } else {
        assert(a.contains(a[0]));
        assert(b.contains(a[0]));
        let x = a.last();
        let y = b.last();
        assert(a[a.len() - 1] == x);
        assert(a.contains(x));
        assert(b.contains(x));
        assert(b.len() > 0);
        assert(b[b.len() - 1] == y);
        assert(b.contains(y));
        assert(a.contains(y));
        if x != y {
            let i = choose|i: int| 0 <= i < b.len() && b[i] == x;
            let j = choose|j: int| 0 <= j < a.len() && a[j] == y;
            assert(precedes(b[i], b[b.len() - 1]));
            assert(precedes(a[j], a[a.len() - 1]));
            crate::text::lemma_precedes_asymmetric(x, y);
        }
        let a1 = a.drop_last();
        let b1 = b.drop_last();
        assert forall|k: Seq<char>| #[trigger] a1.contains(k) <==> b1.contains(k) by {
            lemma_precedes_irreflexive(x);
            if a1.contains(k) {
                let i = choose|i: int| 0 <= i < a1.len() && a1[i] == k;
                assert(a[i] == k);
                assert(precedes(a[i], a[a.len() - 1]));
                assert(a.contains(k));
                let j = choose|j: int| 0 <= j < b.len() && b[j] == k;
                assert(b1[j] == k);
            }
            if b1.contains(k) {
                let i = choose|i: int| 0 <= i < b1.len() && b1[i] == k;
                assert(b[i] == k);
                assert(precedes(b[i], b[b.len() - 1]));
                assert(b.contains(k));
                assert(a.contains(k));
                let j = choose|j: int| 0 <= j < a.len() && a[j] == k;
                assert(a1[j] == k);
            }
        }
        lemma_ascending_unique(a1, b1);
        assert(a =~= a1.push(x));
        assert(b =~= b1.push(x));
    }
}

/// The texts in ascending order, each once.
pub fn distinct(keys: &Vec<String>) -> (r: Vec<String>)
    ensures
        texts(r@) == sorted_keys(texts(keys@)),
{
    let groups = group_by_key(keys);
    let ghost all = texts(keys@);
    let mut out: Vec<String> = Vec::new();
    let mut i: usize = 0;
    while i < groups.len()
        invariant
            i <= groups.len(),
            out@.len() == i,
            forall|j: int| 0 <= j < i ==> (#[trigger] out@[j])@ == groups@[j].key@,
        decreases groups.len() - i,
    {
        out.push(groups[i].key.clone());
        i = i + 1;
    }
    proof {
        lemma_group_keys(groups@, all);
        assert(texts(out@) =~= group_keys(groups@));
    }
    out
}

/// The keys of the groups.
pub open spec fn group_keys(groups: Seq<Group>) -> Seq<Seq<char>> {
    groups.map_values(|g: Group| g.key@)
}

/// The keys of the groups are the sorted keys.
pub proof fn lemma_group_keys(groups: Seq<Group>, keys: Seq<Seq<char>>)
    requires
        groups_of(groups, keys),
    ensures
        group_keys(groups) == sorted_keys(keys),
{
    let list = group_keys(groups);
    assert forall|i: int, j: int| 0 <= i < j < list.len() implies precedes(
        #[trigger] list[i],
        #[trigger] list[j],
    ) by {
        assert(precedes(groups[i].key@, groups[j].key@));
    }
    law_sorted_keys(keys);
    assert forall|t: Seq<char>| #[trigger] list.contains(t) <==> sorted_keys(keys).contains(t) by {
        if list.contains(t) {
            let i = choose|i: int| 0 <= i < list.len() && list[i] == t;
            lemma_positions(keys, groups[i].key@);
            assert(as_ints(groups[i].members@).len() == groups[i].members@.len());
            let p = positions(keys, groups[i].key@)[0];
            assert(keys[p] == t);
        }
        if keys.contains(t) {
            let p = choose|p: int| 0 <= p < keys.len() && keys[p] == t;
            let i = choose|i: int| 0 <= i < groups.len() && (#[trigger] groups[i]).key@ == keys[p];
            assert(list[i] == t);
        }
    }
    lemma_ascending_unique(list, sorted_keys(keys));
}

/// The positions below `n` that the predicate keeps, in ascending order.
pub open spec fn where_at(n: int, f: spec_fn(int) -> bool) -> Seq<int>
    decreases n,
{
    if n <= 0 {
        Seq::empty()
    } else if f(n - 1) {
        where_at(n - 1, f).push(n - 1)
    } else {
        where_at(n - 1, f)
    }
}

pub proof fn lemma_where_at(n: int, f: spec_fn(int) -> bool)
    ensures
        forall|i: int|
            0 <= i < where_at(n, f).len() ==> 0 <= #[trigger] where_at(n, f)[i] < n && f(
                where_at(n, f)[i],
            ),
        forall|i: int, j: int|
            0 <= i < j < where_at(n, f).len() ==> where_at(n, f)[i] < where_at(n, f)[j],
        forall|p: int| 0 <= p < n && #[trigger] f(p) ==> where_at(n, f).contains(p),
        n >= 0 ==> where_at(n, f).len() <= n,
    decreases n,
{
    if n > 0 {
        lemma_where_at(n - 1, f);
        let a = where_at(n - 1, f);
        let b = where_at(n, f);
        assert forall|p: int| 0 <= p < n && #[trigger] f(p) implies b.contains(p) by {
            if p < n - 1 {
                let k = choose|k: int| 0 <= k < a.len() && a[k] == p;
                assert(b[k] == p);
            } else {
                assert(b[a.len() as int] == p);
            }
        }
    }
}

} // verus!
