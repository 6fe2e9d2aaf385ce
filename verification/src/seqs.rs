//! Facts on lists that laws are proved with.

use crate::order::{inserted_by, sorted_by};
use vstd::prelude::*;

verus! {

/// A list holds what stands before its last, and its last.
pub proof fn lemma_contains_last<T>(s: Seq<T>, x: T)
    requires
        s.len() > 0,
    ensures
        s.contains(x) <==> s.drop_last().contains(x) || s.last() == x,
{
    let t = s.drop_last();
    if s.contains(x) {
        let k = choose|k: int| 0 <= k < s.len() && s[k] == x;
        if k < t.len() {
            assert(t[k] == x);
        }
    }
    if t.contains(x) {
        let k = choose|k: int| 0 <= k < t.len() && t[k] == x;
        assert(s[k] == x);
    }
    assert(s[s.len() - 1] == s.last());
}

/// A filtered list holds what the list holds and the filter keeps.
pub proof fn lemma_filtered<T>(s: Seq<T>, f: spec_fn(T) -> bool, x: T)
    ensures
        s.filter(f).contains(x) <==> s.contains(x) && f(x),
    decreases s.len(),
{
    reveal(Seq::filter);
    if s.len() > 0 {
        lemma_filtered(s.drop_last(), f, x);
        lemma_contains_last(s, x);
        if f(s.last()) {
            let t = s.filter(f);
            assert(t.drop_last() =~= s.drop_last().filter(f));
            lemma_contains_last(t, x);
        }
    }
}

/// What the elements of a list come to, each taken for a number.
pub open spec fn sum_by<T>(s: Seq<T>, f: spec_fn(T) -> int) -> int
    decreases s.len(),
{
    if s.len() == 0 {
        0
    } else {
        sum_by(s.drop_last(), f) + f(s.last())
    }
}

proof fn lemma_sum_without<T>(s: Seq<T>, f: spec_fn(T) -> int, i: int)
    requires
        0 <= i < s.len(),
    ensures
        sum_by(s.remove(i), f) + f(s[i]) == sum_by(s, f),
    decreases s.len(),
{
    if i == s.len() - 1 {
        assert(s.remove(i) =~= s.drop_last());
    } else {
        lemma_sum_without(s.drop_last(), f, i);
        assert(s.remove(i).drop_last() =~= s.drop_last().remove(i));
        assert(s.remove(i).last() == s.last());
    }
}

/// Lists of the same elements come to the same, whatever their order.
pub proof fn lemma_sum_of_same<T>(a: Seq<T>, b: Seq<T>, f: spec_fn(T) -> int)
    requires
        a.to_multiset() == b.to_multiset(),
    ensures
        sum_by(a, f) == sum_by(b, f),
    decreases a.len(),
{
    a.to_multiset_ensures();
    b.to_multiset_ensures();
    assert(a.len() == b.len()) by {
        assert(a.to_multiset().len() == b.to_multiset().len());
    }
    if a.len() > 0 {
        let x = a.last();
        assert(a[a.len() - 1] == x);
        assert(a.contains(x));
        assert(a.to_multiset().count(x) > 0);
        assert(b.to_multiset().count(x) > 0);
        let i = choose|i: int| 0 <= i < b.len() && b[i] == x;
        let (p, q) = (a.remove(a.len() - 1), b.remove(i));
        assert(p =~= a.drop_last());
        assert(p.to_multiset() =~= a.to_multiset().remove(x));
        assert(q.to_multiset() =~= b.to_multiset().remove(x));
        lemma_sum_of_same(p, q, f);
        lemma_sum_without(b, f, i);
    }
}

/// Sorting by an order neither drops nor adds an element.
pub proof fn lemma_sorted_by_keeps<V>(s: Seq<V>, le: spec_fn(V, V) -> bool)
    ensures
        sorted_by(s, le).to_multiset() == s.to_multiset(),
    decreases s.len(),
{
    if s.len() == 0 {
        assert(sorted_by(s, le) =~= s);
    } else {
        let t = s.drop_last();
        lemma_sorted_by_keeps(t, le);
        lemma_inserted_by_keeps(sorted_by(t, le), s.last(), le);
        t.to_multiset_ensures();
        assert(s =~= t.push(s.last()));
        assert(sorted_by(s, le).to_multiset() =~= s.to_multiset());
    }
}

proof fn lemma_inserted_by_keeps<V>(s: Seq<V>, x: V, le: spec_fn(V, V) -> bool)
    ensures
        inserted_by(s, x, le).to_multiset() == s.to_multiset().insert(x),
    decreases s.len(),
{
    s.to_multiset_ensures();
    if s.len() == 0 {
        let e = Seq::<V>::empty();
        e.to_multiset_ensures();
        assert(s =~= e);
        assert(inserted_by(s, x, le) =~= e.push(x));
    } else if le(s.last(), x) {
        assert(inserted_by(s, x, le) == s.push(x));
    } else {
        let t = s.drop_last();
        lemma_inserted_by_keeps(t, x, le);
        let u = inserted_by(t, x, le);
        t.to_multiset_ensures();
        u.to_multiset_ensures();
        assert(s =~= t.push(s.last()));
        assert(inserted_by(s, x, le) == u.push(s.last()));
        assert(u.push(s.last()).to_multiset() =~= s.to_multiset().insert(x));
    }
}

/// Whether an order puts any two one before the other, and passes from one to the next.
pub open spec fn ranks<V>(le: spec_fn(V, V) -> bool) -> bool {
    &&& forall|a: V, b: V| #![trigger le(a, b)] le(a, b) || le(b, a)
    &&& forall|a: V, b: V, c: V| #![trigger le(a, b), le(b, c)] le(a, b) && le(b, c) ==> le(a, c)
}

/// Sorting by an order puts each element before those behind it.
pub proof fn lemma_sorted_by_orders<V>(s: Seq<V>, le: spec_fn(V, V) -> bool)
    requires
        ranks(le),
    ensures
        forall|i: int, j: int|
            0 <= i < j < sorted_by(s, le).len() ==> le(
                #[trigger] sorted_by(s, le)[i],
                #[trigger] sorted_by(s, le)[j],
            ),
    decreases s.len(),
{
    if s.len() > 0 {
        lemma_sorted_by_orders(s.drop_last(), le);
        lemma_inserted_by_orders(sorted_by(s.drop_last(), le), s.last(), le);
    }
}

proof fn lemma_inserted_by_orders<V>(s: Seq<V>, x: V, le: spec_fn(V, V) -> bool)
    requires
        ranks(le),
        forall|i: int, j: int| 0 <= i < j < s.len() ==> le(#[trigger] s[i], #[trigger] s[j]),
    ensures
        inserted_by(s, x, le).len() == s.len() + 1,
        forall|i: int|
            0 <= i < s.len() + 1 ==> (#[trigger] inserted_by(s, x, le)[i] == x || s.contains(
                inserted_by(s, x, le)[i],
            )),
        forall|i: int, j: int|
            0 <= i < j < s.len() + 1 ==> le(
                #[trigger] inserted_by(s, x, le)[i],
                #[trigger] inserted_by(s, x, le)[j],
            ),
    decreases s.len(),
{
    let r = inserted_by(s, x, le);
    if s.len() == 0 {
    } else if le(s.last(), x) {
        assert forall|i: int| 0 <= i < r.len() implies (#[trigger] r[i] == x || s.contains(
            r[i],
        )) by {
            if i < s.len() {
                assert(s[i] == r[i]);
            }
        }
        assert forall|i: int, j: int| 0 <= i < j < r.len() implies le(
            #[trigger] r[i],
            #[trigger] r[j],
        ) by {
            assert(r[i] == s[i]);
            if j == s.len() && i < s.len() - 1 {
                assert(le(s[i], s[s.len() - 1]));
                assert(le(s.last(), x));
            }
        }
    } else {
        let t = s.drop_last();
        assert forall|i: int, j: int| 0 <= i < j < t.len() implies le(
            #[trigger] t[i],
            #[trigger] t[j],
        ) by {
            assert(t[i] == s[i] && t[j] == s[j]);
        }
        lemma_inserted_by_orders(t, x, le);
        let u = inserted_by(t, x, le);
        assert(le(x, s.last()));
        assert forall|i: int| 0 <= i < r.len() implies (#[trigger] r[i] == x || s.contains(
            r[i],
        )) by {
            if i < u.len() {
                assert(r[i] == u[i]);
                if u[i] != x {
                    let k = choose|k: int| 0 <= k < t.len() && t[k] == u[i];
                    assert(s[k] == r[i]);
                }
            } else {
                assert(s[s.len() - 1] == r[i]);
            }
        }
        assert forall|i: int, j: int| 0 <= i < j < r.len() implies le(
            #[trigger] r[i],
            #[trigger] r[j],
        ) by {
            assert(r[i] == u[i]);
            if j < u.len() {
                assert(r[j] == u[j]);
            } else if u[i] != x {
                let k = choose|k: int| 0 <= k < t.len() && t[k] == u[i];
                assert(s[k] == u[i]);
                assert(le(s[k], s[s.len() - 1]));
            }
        }
    }
}

} // verus!
