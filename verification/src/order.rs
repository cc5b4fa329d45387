//! Stable sorting of values that rank before one another.

use vstd::prelude::*;

verus! {

/// Values with an order in which two different ones may tie.
pub trait Ranked: View + Sized {
    /// Whether `a` ranks strictly before `b`.
    spec fn ranks(a: Self::V, b: Self::V) -> bool;

    /// No two values rank before each other, and what does not rank after a value that
    /// does not rank after a third does not rank after the third.
    proof fn lemma_order(a: Self::V, b: Self::V, c: Self::V)
        ensures
            Self::ranks(a, b) ==> !Self::ranks(b, a),
            !Self::ranks(b, a) && !Self::ranks(c, b) ==> !Self::ranks(c, a),
    ;

    /// Whether `self` ranks strictly before `other`.
    fn ranks_before(&self, other: &Self) -> (r: bool)
        ensures
            r == Self::ranks(self@, other@),
    ;
}

/// The views of the values in `v`, in order.
pub open spec fn all<T: View>(v: Seq<T>) -> Seq<T::V> {
    v.map_values(|t: T| t@)
}

/// `s` with `x` put in front of the values at the end of `s` that it ranks before.
pub open spec fn placed<T: Ranked>(s: Seq<T::V>, x: T::V) -> Seq<T::V>
    decreases s.len(),
{
    if s.len() > 0 && T::ranks(x, s.last()) {
        placed::<T>(s.drop_last(), x).push(s.last())
    } else {
        s.push(x)
    }
}

/// The values of `s` in order, those that tie in the order in which they stand in `s`.
pub open spec fn sorted<T: Ranked>(s: Seq<T::V>) -> Seq<T::V>
    decreases s.len(),
{
    if s.len() == 0 {
        s
    } else {
        placed::<T>(sorted::<T>(s.drop_last()), s.last())
    }
}

/// The first `k` values of `s`, or all of them where there are fewer.
pub open spec fn first<V>(s: Seq<V>, k: nat) -> Seq<V> {
    if s.len() <= k {
        s
    } else {
        s.take(k as int)
    }
}

/// Whether no value of `s` ranks before one that stands before it.
pub open spec fn in_order<T: Ranked>(s: Seq<T::V>) -> bool {
    forall|i: int, j: int| 0 <= i < j < s.len() ==> !T::ranks(#[trigger] s[j], #[trigger] s[i])
}

proof fn lemma_placed<T: Ranked>(s: Seq<T::V>, x: T::V)
    ensures
        placed::<T>(s, x).len() == s.len() + 1,
        placed::<T>(s, x).to_multiset() == s.to_multiset().insert(x),
        in_order::<T>(s) ==> in_order::<T>(placed::<T>(s, x)),
        forall|i: int|
            0 <= i < placed::<T>(s, x).len() ==> #[trigger] placed::<T>(s, x)[i] == x || s.contains(
                placed::<T>(s, x)[i],
            ),
    decreases s.len(),
{
    broadcast use vstd::seq_lib::group_to_multiset_ensures;

    let r = placed::<T>(s, x);
    if s.len() > 0 && T::ranks(x, s.last()) {
        let t = s.drop_last();
        let q = placed::<T>(t, x);
        lemma_placed::<T>(t, x);
        assert(s == t.push(s.last()));
        assert(r.to_multiset() == s.to_multiset().insert(x));
        assert forall|i: int| 0 <= i < r.len() implies #[trigger] r[i] == x || s.contains(r[i]) by {
            if i < q.len() {
                assert(r[i] == q[i]);
                if t.contains(q[i]) {
                    let k = choose|k: int| 0 <= k < t.len() && t[k] == q[i];
                    assert(s[k] == q[i]);
                }
            } else {
                assert(s[s.len() - 1] == r[i]);
            }
        }
        if in_order::<T>(s) {
            assert(in_order::<T>(t)) by {
                assert forall|i: int, j: int| 0 <= i < j < t.len() implies !T::ranks(
                    #[trigger] t[j],
                    #[trigger] t[i],
                ) by {
                    assert(t[j] == s[j] && t[i] == s[i]);
                }
            }
            assert forall|i: int, j: int| 0 <= i < j < r.len() implies !T::ranks(
                #[trigger] r[j],
                #[trigger] r[i],
            ) by {
                if j < q.len() {
                    assert(r[j] == q[j] && r[i] == q[i]);
                } else {
                    assert(r[j] == s.last());
                    assert(r[i] == q[i]);
                    if q[i] == x {
                        T::lemma_order(x, s.last(), x);
                    } else {
                        let k = choose|k: int| 0 <= k < t.len() && t[k] == q[i];
                        assert(!T::ranks(s[s.len() - 1], s[k]));
                    }
                }
            }
        }
    } else {
        assert forall|i: int| 0 <= i < r.len() implies #[trigger] r[i] == x || s.contains(r[i]) by {
            if i < s.len() {
                assert(s[i] == r[i]);
            }
        }
        if in_order::<T>(s) {
            assert forall|i: int, j: int| 0 <= i < j < r.len() implies !T::ranks(
                #[trigger] r[j],
                #[trigger] r[i],
            ) by {
                if j < s.len() {
                    assert(r[j] == s[j] && r[i] == s[i]);
                } else {
                    assert(r[i] == s[i]);
                    if i < s.len() - 1 {
                        assert(!T::ranks(s[s.len() - 1], s[i]));
                        T::lemma_order(s[i], s.last(), x);
                    }
                }
            }
        }
    }
}

/// Sorting puts the values in order and keeps each of them, as often as it occurs.
pub proof fn law_sorted<T: Ranked>(s: Seq<T::V>)
    ensures
        in_order::<T>(sorted::<T>(s)),
        sorted::<T>(s).to_multiset() == s.to_multiset(),
        sorted::<T>(s).len() == s.len(),
    decreases s.len(),
{
    broadcast use vstd::seq_lib::group_to_multiset_ensures;

    if s.len() > 0 {
        law_sorted::<T>(s.drop_last());
        lemma_placed::<T>(sorted::<T>(s.drop_last()), s.last());
        assert(s == s.drop_last().push(s.last()));
    }
}

/// Whether `a` and `b` tie.
pub open spec fn ties<T: Ranked>(a: T::V, b: T::V) -> bool {
    !T::ranks(a, b) && !T::ranks(b, a)
}

/// Placing a value keeps the order among the values that tie with `v`; the new one comes
/// last among them.
proof fn lemma_placed_ties<T: Ranked>(s: Seq<T::V>, x: T::V, v: T::V)
    requires
        in_order::<T>(s),
    ensures
        placed::<T>(s, x).filter(|e: T::V| ties::<T>(e, v)) == s.push(x).filter(
            |e: T::V| ties::<T>(e, v),
        ),
    decreases s.len(),
{
    let f = |e: T::V| ties::<T>(e, v);
    if s.len() > 0 && T::ranks(x, s.last()) {
        let t = s.drop_last();
        let y = s.last();
        assert(in_order::<T>(t)) by {
            assert forall|i: int, j: int| 0 <= i < j < t.len() implies !T::ranks(
                #[trigger] t[j],
                #[trigger] t[i],
            ) by {
                assert(t[j] == s[j] && t[i] == s[i]);
            }
        }
        lemma_placed_ties::<T>(t, x, v);
        // `x` ranks before `y`, so at most one of them ties with `v`.
        assert(!(f(x) && f(y))) by {
            T::lemma_order(y, v, x);
        }
        assert(s == t.push(y));
        t.lemma_filter_push(y, f);
        t.lemma_filter_push(x, f);
        s.lemma_filter_push(x, f);
        placed::<T>(t, x).lemma_filter_push(y, f);
    }
}

/// Values that tie with one another keep their order.
pub proof fn law_sorted_keeps_ties<T: Ranked>(s: Seq<T::V>, v: T::V)
    ensures
        sorted::<T>(s).filter(|e: T::V| ties::<T>(e, v)) == s.filter(|e: T::V| ties::<T>(e, v)),
    decreases s.len(),
{
    let f = |e: T::V| ties::<T>(e, v);
    if s.len() > 0 {
        let t = s.drop_last();
        law_sorted_keeps_ties::<T>(t, v);
        law_sorted::<T>(t);
        lemma_placed_ties::<T>(sorted::<T>(t), s.last(), v);
        assert(s == t.push(s.last()));
        t.lemma_filter_push(s.last(), f);
        sorted::<T>(t).lemma_filter_push(s.last(), f);
    }
}

/// Puts `x` in front of the values at the end of `v` that it ranks before.
fn place<T: Ranked>(v: &mut Vec<T>, x: T)
    ensures
        all(final(v)@) == placed::<T>(all(old(v)@), x@),
{
    let mut i: usize = v.len();
    let ghost s = all(v@);
    assert(s.take(i as int) == s);
    assert(placed::<T>(s, x@) == placed::<T>(s.take(i as int), x@) + s.skip(i as int));
    while i > 0 && x.ranks_before(&v[i - 1])
        invariant
            i <= v.len(),
            s == all(v@),
            placed::<T>(s, x@) == placed::<T>(s.take(i as int), x@) + s.skip(i as int),
        decreases i,
    {
        proof {
            let t = s.take(i as int);
            assert(t.drop_last() == s.take(i - 1));
            assert(t.last() == v@[i - 1]@);
            assert(placed::<T>(t, x@) == placed::<T>(t.drop_last(), x@).push(t.last()));
            assert(placed::<T>(t.drop_last(), x@).push(t.last()) + s.skip(i as int) == placed::<T>(
                t.drop_last(),
                x@,
            ) + s.skip(i - 1));
        }
        i = i - 1;
    }
    proof {
        let t = s.take(i as int);
        if i > 0 {
            assert(t.last() == v@[i - 1]@);
        }
        assert(placed::<T>(t, x@) == t.push(x@));
    }
    v.insert(i, x);
    assert(all(v@) == s.take(i as int).push(x@) + s.skip(i as int));
}

/// Sorts `items`; those that tie keep their order.
pub fn sort<T: Ranked>(items: Vec<T>) -> (r: Vec<T>)
    ensures
        all(r@) == sorted::<T>(all(items@)),
{
    let mut out: Vec<T> = Vec::new();
    let ghost s = all(items@);
    assert(all(out@) == sorted::<T>(s.take(0)));
    for x in it: items
        invariant
            it.seq() == items@,
            s == all(items@),
            all(out@) == sorted::<T>(s.take(it.index() as int)),
    {
        proof {
            let t = s.take(it.index() + 1);
            assert(t.drop_last() == s.take(it.index() as int));
            assert(t.last() == x@);
        }
        place(&mut out, x);
    }
    assert(s.take(items@.len() as int) == s);
    out
}

/// Placing a value into the first `k` of a sequence in order gives the first `k` of the
/// whole.
proof fn lemma_placed_first<T: Ranked>(s: Seq<T::V>, x: T::V, k: nat)
    requires
        in_order::<T>(s),
    ensures
        first(placed::<T>(first(s, k), x), k) == first(placed::<T>(s, x), k),
    decreases s.len(),
{
    lemma_placed::<T>(s, x);
    if s.len() > k {
        let t = s.drop_last();
        assert(in_order::<T>(t)) by {
            assert forall|i: int, j: int| 0 <= i < j < t.len() implies !T::ranks(
                #[trigger] t[j],
                #[trigger] t[i],
            ) by {
                assert(t[j] == s[j] && t[i] == s[i]);
            }
        }
        lemma_placed::<T>(t, x);
        lemma_placed_first::<T>(t, x, k);
        assert(first(s, k) == first(t, k));
        if T::ranks(x, s.last()) {
            assert(first(placed::<T>(s, x), k) == first(placed::<T>(t, x), k));
        } else {
            // Nothing in `t` ranks after `x` either.
            if t.len() > 0 {
                assert(!T::ranks(s[s.len() - 1], s[t.len() - 1]));
                T::lemma_order(t.last(), s.last(), x);
            }
            assert(placed::<T>(t, x) == t.push(x));
            assert(first(placed::<T>(s, x), k) == first(s, k));
            assert(first(t.push(x), k) == first(t, k));
        }
    }
}

/// The first `k` of the sorted `items`, or all of them where there are fewer.
pub fn smallest<T: Ranked>(items: Vec<T>, k: usize) -> (r: Vec<T>)
    ensures
        all(r@) == first(sorted::<T>(all(items@)), k as nat),
{
    let mut out: Vec<T> = Vec::new();
    let ghost s = all(items@);
    assert(all(out@) == sorted::<T>(s.take(0)));
    for x in it: items
        invariant
            it.seq() == items@,
            s == all(items@),
            all(out@) == first(sorted::<T>(s.take(it.index() as int)), k as nat),
    {
        proof {
            let t = s.take(it.index() + 1);
            assert(t.drop_last() == s.take(it.index() as int));
            assert(t.last() == x@);
            law_sorted::<T>(t.drop_last());
            lemma_placed_first::<T>(sorted::<T>(t.drop_last()), x@, k as nat);
        }
        place(&mut out, x);
        let ghost long = out@;
        if out.len() > k {
            out.truncate(k);
            assert(all(out@) == all(long).take(k as int));
        }
    }
    assert(s.take(items@.len() as int) == s);
    out
}

/// The first `k` of the sorted values are `k` of them, if there are so many, in order, and
/// no value that was left out ranks before one of them.
pub proof fn law_first_of_sorted<T: Ranked>(s: Seq<T::V>, k: nat)
    ensures
        in_order::<T>(first(sorted::<T>(s), k)),
        first(sorted::<T>(s), k).len() == if s.len() <= k {
            s.len()
        } else {
            k
        },
        forall|i: int|
            0 <= i < first(sorted::<T>(s), k).len() ==> s.contains(
                #[trigger] first(sorted::<T>(s), k)[i],
            ),
        forall|i: int, x: T::V|
            0 <= i < first(sorted::<T>(s), k).len() && s.contains(x) && !first(
                sorted::<T>(s),
                k,
            ).contains(x) ==> !#[trigger] T::ranks(x, first(sorted::<T>(s), k)[i]),
{
    broadcast use vstd::seq_lib::group_to_multiset_ensures;

    let all = sorted::<T>(s);
    let r = first(all, k);
    law_sorted::<T>(s);
    assert forall|i: int| 0 <= i < r.len() implies s.contains(#[trigger] r[i]) by {
        assert(all.contains(all[i]));
        assert(all.to_multiset().count(r[i]) > 0);
    }
    assert forall|i: int, x: T::V| 0 <= i < r.len() && s.contains(x) && !r.contains(
        x,
    ) implies !#[trigger] T::ranks(x, r[i]) by {
        assert(s.to_multiset().count(x) > 0);
        assert(all.contains(x));
        let j = choose|j: int| 0 <= j < all.len() && all[j] == x;
        if j < r.len() {
            assert(r[j] == x);
        }
        assert(!T::ranks(all[j], all[i]));
    }
}

/// A filter that every value passes keeps them all.
pub proof fn lemma_filter_keeps<A>(s: Seq<A>, f: spec_fn(A) -> bool)
    requires
        forall|i: int| 0 <= i < s.len() ==> f(#[trigger] s[i]),
    ensures
        s.filter(f) == s,
    decreases s.len(),
{
    reveal(Seq::filter);
    if s.len() > 0 {
        let t = s.drop_last();
        assert forall|i: int| 0 <= i < t.len() implies f(#[trigger] t[i]) by {
            assert(t[i] == s[i]);
        }
        lemma_filter_keeps(t, f);
        assert(f(s[s.len() - 1]));
        assert(s == t.push(s.last()));
    }
}

/// What comes of the values of `s` that `f` makes something of.
pub proof fn lemma_filter_map<A, B>(s: Seq<A>, f: spec_fn(A) -> Option<B>, y: B)
    ensures
        s.filter_map(f).contains(y) <==> exists|k: int|
            0 <= k < s.len() && f(#[trigger] s[k]) == Some(y),
    decreases s.len(),
{
    reveal(Seq::filter_map);
    if s.len() > 0 {
        let t = s.drop_last();
        let x = s.last();
        let r = s.filter_map(f);
        let q = t.filter_map(f);
        lemma_filter_map(t, f, y);
        s.lemma_filter_map_take_succ(f, s.len() - 1);
        assert(s.take(s.len() - 1) == t);
        assert(s.take(s.len() as int) == s);
        if q.contains(y) {
            let i = choose|i: int| 0 <= i < q.len() && q[i] == y;
            assert(r[i] == y);
            let k = choose|k: int| 0 <= k < t.len() && f(#[trigger] t[k]) == Some(y);
            assert(f(s[k]) == Some(y));
        } else if f(x) == Some(y) {
            assert(r.last() == y);
            assert(f(s[s.len() - 1]) == Some(y));
        } else {
            if r.contains(y) {
                let i = choose|i: int| 0 <= i < r.len() && r[i] == y;
                if i < q.len() {
                    assert(q[i] == y);
                }
            }
            assert forall|k: int| 0 <= k < s.len() implies f(#[trigger] s[k]) != Some(y) by {
                if k < t.len() {
                    assert(t[k] == s[k]);
                }
            }
        }
    }
}

/// Whether `at` lists every place of `s` once, so that the values at those places come in
/// order and those that tie come in the order in which they stand.
pub open spec fn arranges<T: Ranked>(at: Seq<int>, s: Seq<T::V>) -> bool {
    &&& at.len() == s.len()
    &&& at.no_duplicates()
    &&& forall|i: int| 0 <= i < at.len() ==> 0 <= #[trigger] at[i] < s.len()
    &&& forall|k: int| 0 <= k < s.len() ==> #[trigger] at.contains(k)
    &&& forall|i: int, j: int|
        0 <= i < j < at.len() ==> !T::ranks(s[#[trigger] at[j]], s[#[trigger] at[i]]) && (T::ranks(
            s[at[i]],
            s[at[j]],
        ) || at[i] < at[j])
}

proof fn lemma_placed_position<T: Ranked>(r: Seq<T::V>, x: T::V) -> (p: int)
    requires
        in_order::<T>(r),
    ensures
        0 <= p <= r.len(),
        placed::<T>(r, x) == r.insert(p, x),
        forall|i: int| 0 <= i < p ==> !T::ranks(x, #[trigger] r[i]),
        forall|i: int| p <= i < r.len() ==> T::ranks(x, #[trigger] r[i]),
    decreases r.len(),
{
    if r.len() > 0 && T::ranks(x, r.last()) {
        let t = r.drop_last();
        assert(in_order::<T>(t)) by {
            assert forall|i: int, j: int| 0 <= i < j < t.len() implies !T::ranks(
                #[trigger] t[j],
                #[trigger] t[i],
            ) by {
                assert(t[j] == r[j] && t[i] == r[i]);
            }
        }
        let p = lemma_placed_position::<T>(t, x);
        assert(placed::<T>(r, x) == r.insert(p, x));
        assert forall|i: int| 0 <= i < p implies !T::ranks(x, #[trigger] r[i]) by {
            assert(t[i] == r[i]);
        }
        assert forall|i: int| p <= i < r.len() implies T::ranks(x, #[trigger] r[i]) by {
            if i < t.len() {
                assert(t[i] == r[i]);
            }
        }
        p
    } else {
        let p = r.len() as int;
        assert(placed::<T>(r, x) == r.insert(p, x));
        assert forall|i: int| 0 <= i < p implies !T::ranks(x, #[trigger] r[i]) by {
            if i < r.len() - 1 {
                assert(!T::ranks(r[r.len() - 1], r[i]));
                T::lemma_order(r[i], r[r.len() - 1], x);
            }
        }
        p
    }
}

/// Sorting only rearranges: there is a list of all the places, each once, at which the
/// sorted values stood, and values that tie are taken in the order in which they stood.
pub proof fn law_sorted_rearranges<T: Ranked>(s: Seq<T::V>) -> (at: Seq<int>)
    ensures
        arranges::<T>(at, s),
        sorted::<T>(s).len() == s.len(),
        forall|i: int| 0 <= i < s.len() ==> #[trigger] sorted::<T>(s)[i] == s[at[i]],
    decreases s.len(),
{
    if s.len() == 0 {
        Seq::empty()
    } else {
        let t = s.drop_last();
        let x = s.last();
        let n = s.len() - 1;
        let b = law_sorted_rearranges::<T>(t);
        let r = sorted::<T>(t);
        law_sorted::<T>(t);
        let p = lemma_placed_position::<T>(r, x);
        let at = b.insert(p, n);
        assert(sorted::<T>(s) == r.insert(p, x));
        assert forall|i: int| 0 <= i < at.len() implies 0 <= #[trigger] at[i] < s.len() && s[at[i]]
            == sorted::<T>(s)[i] by {
            if i < p {
                assert(at[i] == b[i]);
                assert(r[i] == t[b[i]]);
            } else if i > p {
                assert(at[i] == b[i - 1]);
                assert(r[i - 1] == t[b[i - 1]]);
            }
        }
        assert forall|k: int| 0 <= k < s.len() implies #[trigger] at.contains(k) by {
            if k == n {
                assert(at[p] == n);
            } else {
                assert(b.contains(k));
                let i = choose|i: int| 0 <= i < b.len() && b[i] == k;
                if i < p {
                    assert(at[i] == k);
                } else {
                    assert(at[i + 1] == k);
                }
            }
        }
        assert forall|i: int, j: int| 0 <= i < j < at.len() implies at[i] != at[j] && !T::ranks(
            s[#[trigger] at[j]],
            s[#[trigger] at[i]],
        ) && (T::ranks(s[at[i]], s[at[j]]) || at[i] < at[j]) by {
            let i0 = if i < p { i } else { i - 1 };
            let j0 = if j < p { j } else { j - 1 };
            if i != p && j != p {
                assert(at[i] == b[i0] && at[j] == b[j0]);
                assert(b[i0] != b[j0]);
            } else if j == p {
                assert(at[i] == b[i]);
                assert(!T::ranks(x, r[i]));
                assert(r[i] == t[b[i]]);
            } else {
                assert(at[j] == b[j0]);
                assert(T::ranks(x, r[j0]));
                assert(r[j0] == t[b[j0]]);
                T::lemma_order(x, r[j0], x);
            }
        }
        assert(at.no_duplicates()) by {
            assert forall|i: int, j: int| 0 <= i < at.len() && 0 <= j < at.len() && i != j implies at[i]
                != at[j] by {
                if i < j {
                    assert(at[i] != at[j]);
                } else {
                    assert(at[j] != at[i]);
                }
            }
        }
        at
    }
}

/// The places of `s` of which `f` makes something, one after another.
pub proof fn lemma_filter_map_places<A, B>(s: Seq<A>, f: spec_fn(A) -> Option<B>) -> (at: Seq<int>)
    ensures
        at.len() == s.filter_map(f).len(),
        forall|i: int|
            0 <= i < at.len() ==> 0 <= #[trigger] at[i] < s.len() && f(s[at[i]]) == Some(
                s.filter_map(f)[i],
            ),
        forall|i: int, j: int| 0 <= i < j < at.len() ==> #[trigger] at[i] < #[trigger] at[j],
        forall|k: int| 0 <= k < s.len() && f(#[trigger] s[k]) is Some ==> at.contains(k),
    decreases s.len(),
{
    reveal(Seq::filter_map);
    if s.len() == 0 {
        Seq::empty()
    } else {
        let t = s.drop_last();
        let n = s.len() - 1;
        let b = lemma_filter_map_places(t, f);
        let at = if f(s.last()) is Some {
            b.push(n)
        } else {
            b
        };
        assert forall|i: int| 0 <= i < at.len() implies 0 <= #[trigger] at[i] < s.len() && f(
            s[at[i]],
        ) == Some(s.filter_map(f)[i]) by {
            if i < b.len() {
                assert(at[i] == b[i]);
                assert(t[b[i]] == s[b[i]]);
            }
        }
        assert forall|i: int, j: int| 0 <= i < j < at.len() implies #[trigger] at[i]
            < #[trigger] at[j] by {
            assert(at[i] == b[i]);
            if j < b.len() {
                assert(at[j] == b[j]);
            }
        }
        assert forall|k: int| 0 <= k < s.len() && f(#[trigger] s[k]) is Some implies at.contains(
            k,
        ) by {
            if k < n {
                assert(t[k] == s[k]);
                assert(b.contains(k));
                let i = choose|i: int| 0 <= i < b.len() && b[i] == k;
                assert(at[i] == k);
            } else {
                assert(at[b.len() as int] == k);
            }
        }
        at
    }
}

/// The first `k` of the sorted values that `f` makes of those of `s`: where they stood, each
/// once and in order; a value that was left out does not come before any of them.
pub proof fn law_first_of_filtered<A, T: Ranked>(
    s: Seq<A>,
    f: spec_fn(A) -> Option<T::V>,
    k: nat,
) -> (at: Seq<int>)
    ensures
        ({
            let r = first(sorted::<T>(s.filter_map(f)), k);
            &&& at.len() == r.len() <= k
            &&& at.no_duplicates()
            &&& forall|i: int|
                0 <= i < at.len() ==> 0 <= #[trigger] at[i] < s.len() && f(s[at[i]]) == Some(r[i])
            &&& forall|i: int, j: int|
                0 <= i < j < at.len() ==> {
                    let a = f(s[#[trigger] at[i]])->0;
                    let b = f(s[#[trigger] at[j]])->0;
                    !T::ranks(b, a) && (T::ranks(a, b) || at[i] < at[j])
                }
            &&& forall|q: int|
                0 <= q < s.len() && f(#[trigger] s[q]) is Some && !at.contains(q) ==> at.len() == k
                    && forall|i: int|
                    0 <= i < at.len() ==> {
                        let a = f(s[#[trigger] at[i]])->0;
                        let b = f(s[q])->0;
                        !T::ranks(b, a) && (T::ranks(a, b) || at[i] < q)
                    }
        }),
{
    let m = s.filter_map(f);
    let places = lemma_filter_map_places(s, f);
    let order = law_sorted_rearranges::<T>(m);
    let whole = sorted::<T>(m);
    let r = first(whole, k);
    let at = Seq::new(r.len(), |i: int| places[order[i]]);
    assert forall|i: int| 0 <= i < at.len() implies 0 <= #[trigger] at[i] < s.len() && f(s[at[i]])
        == Some(r[i]) by {
        assert(whole[i] == m[order[i]]);
        assert(0 <= order[i] < m.len());
        assert(0 <= places[order[i]] < s.len());
    }
    assert forall|i: int, j: int| 0 <= i < j < at.len() implies at[i] != at[j] && ({
        let a = f(s[#[trigger] at[i]])->0;
        let b = f(s[#[trigger] at[j]])->0;
        !T::ranks(b, a) && (T::ranks(a, b) || at[i] < at[j])
    }) by {
        let (x, y) = (order[i], order[j]);
        assert(whole[i] == m[x] && whole[j] == m[y]);
        assert(!T::ranks(m[order[j]], m[order[i]]) && (T::ranks(m[order[i]], m[order[j]])
            || order[i] < order[j]));
        assert(x != y);
        assert(0 <= x < m.len() && 0 <= y < m.len());
        if x < y {
            assert(places[x] < places[y]);
        } else {
            assert(places[y] < places[x]);
        }
        assert(at[i] == places[x] && at[j] == places[y]);
    }
    assert forall|q: int| 0 <= q < s.len() && f(#[trigger] s[q]) is Some && !at.contains(
        q,
    ) implies at.len() == k && forall|i: int|
        0 <= i < at.len() ==> {
            let a = f(s[#[trigger] at[i]])->0;
            let b = f(s[q])->0;
            !T::ranks(b, a) && (T::ranks(a, b) || at[i] < q)
        } by {
        assert(places.contains(q));
        let y = choose|y: int| 0 <= y < places.len() && places[y] == q;
        assert(order.contains(y));
        let j = choose|j: int| 0 <= j < order.len() && order[j] == y;
        if j < r.len() {
            assert(at[j] == q);
        }
        assert forall|i: int| 0 <= i < at.len() implies {
            let a = f(s[#[trigger] at[i]])->0;
            let b = f(s[q])->0;
            !T::ranks(b, a) && (T::ranks(a, b) || at[i] < q)
        } by {
            let x = order[i];
            assert(whole[i] == m[x] && whole[j] == m[y]);
            assert(!T::ranks(m[order[j]], m[order[i]]) && (T::ranks(m[order[i]], m[order[j]])
                || order[i] < order[j]));
            assert(0 <= x < m.len());
            if x < y {
                assert(places[x] < places[y]);
            }
            assert(at[i] == places[x]);
            assert(f(s[places[x]]) == Some(m[x]));
            assert(f(s[places[y]]) == Some(m[y]));
        }
    }
    assert(at.no_duplicates()) by {
        assert forall|i: int, j: int| 0 <= i < at.len() && 0 <= j < at.len() && i != j implies at[i]
            != at[j] by {
            if i < j {
                assert(at[i] != at[j]);
            } else {
                assert(at[j] != at[i]);
            }
        }
    }
    at
}

} // verus!
