//! The Levenshtein edit distance between two texts.

use crate::text::chars_of;
use vstd::prelude::*;

verus! {

/// The smaller of two numbers.
pub open spec fn least(a: nat, b: nat) -> nat {
    if a <= b {
        a
    } else {
        b
    }
}

/// The Levenshtein distance between `a` and `b`.
pub open spec fn distance(a: Seq<char>, b: Seq<char>) -> nat
    decreases a.len() + b.len(),
{
    if a.len() == 0 {
        b.len()
    } else if b.len() == 0 {
        a.len()
    } else {
        let cost: nat = if a.last() == b.last() {
            0
        } else {
            1
        };
        least(
            distance(a.drop_last(), b.drop_last()) + cost,
            least(distance(a.drop_last(), b) + 1, distance(a, b.drop_last()) + 1),
        )
    }
}

/// No more edits are needed than the longer text has characters.
pub proof fn law_distance_bounded(a: Seq<char>, b: Seq<char>)
    ensures
        distance(a, b) <= a.len() || distance(a, b) <= b.len(),
    decreases a.len() + b.len(),
{
    if a.len() > 0 && b.len() > 0 {
        law_distance_bounded(a.drop_last(), b.drop_last());
    }
}

fn smaller(a: usize, b: usize) -> (r: usize)
    ensures
        r == least(a as nat, b as nat),
{
    if a <= b {
        a
    } else {
        b
    }
}

/// The Levenshtein edit distance between two strings.
pub fn edit_distance(a: &str, b: &str) -> (r: usize)
    ensures
        r == distance(a@, b@),
{
    let a = chars_of(a);
    let b = chars_of(b);
    let mut prev: Vec<usize> = Vec::new();
    let mut curr: Vec<usize> = Vec::new();
    let mut j: usize = 0;
    while j < b.len()
        invariant
            j <= b.len(),
            prev@.len() == j,
            curr@.len() == j,
            forall|k: int| 0 <= k < j ==> prev@[k] == distance(a@.take(0), #[trigger] b@.take(k)),
        decreases b.len() - j,
    {
        prev.push(j);
        curr.push(0);
        j = j + 1;
    }
    prev.push(j);
    curr.push(0);
    let width: usize = prev.len();
    assert(width == b@.len() + 1);
    let mut i: usize = 0;
    while i < a.len()
        invariant
            i <= a.len(),
            width == b@.len() + 1,
            width <= usize::MAX,
            prev@.len() == width,
            curr@.len() == width,
            forall|k: int|
                0 <= k < width ==> prev@[k] == distance(a@.take(i as int), #[trigger] b@.take(k)),
        decreases a.len() - i,
    {
        curr[0] = i + 1;
        let mut j: usize = 0;
        while j < b.len()
            invariant
                i < a.len(),
                j <= b.len(),
                width == b@.len() + 1,
                width <= usize::MAX,
                prev@.len() == width,
                curr@.len() == width,
                forall|k: int|
                    0 <= k < width ==> prev@[k] == distance(
                        a@.take(i as int),
                        #[trigger] b@.take(k),
                    ),
                forall|k: int|
                    0 <= k <= j ==> curr@[k] == distance(
                        a@.take(i as int + 1),
                        #[trigger] b@.take(k),
                    ),
            decreases b.len() - j,
        {
            let cost: usize = if a[i] != b[j] {
                1
            } else {
                0
            };
            proof {
                let x = a@.take(i as int + 1);
                let y = b@.take(j as int + 1);
                assert(x.drop_last() == a@.take(i as int));
                assert(y.drop_last() == b@.take(j as int));
                law_distance_bounded(x.drop_last(), y.drop_last());
                law_distance_bounded(x.drop_last(), y);
                law_distance_bounded(x, y.drop_last());
            }
            curr[j + 1] = smaller(prev[j] + cost, smaller(prev[j + 1], curr[j]) + 1);
            j = j + 1;
        }
        std::mem::swap(&mut prev, &mut curr);
        i = i + 1;
    }
    assert(a@.take(a@.len() as int) == a@);
    assert(b@.take(b@.len() as int) == b@);
    prev[b.len()]
}

/// Whether one edit, the insertion, removal or replacement of one character, turns `a`
/// into `b`.
pub open spec fn one_edit(a: Seq<char>, b: Seq<char>) -> bool {
    ||| exists|i: int, c: char| 0 <= i <= a.len() && b == #[trigger] a.insert(i, c)
    ||| exists|i: int| 0 <= i < a.len() && b == #[trigger] a.remove(i)
    ||| exists|i: int, c: char| 0 <= i < a.len() && b == #[trigger] a.update(i, c)
}

/// Whether `n` edits, one after another, turn `a` into `b`.
pub open spec fn edits(a: Seq<char>, b: Seq<char>, n: nat) -> bool
    decreases n,
{
    if n == 0 {
        a == b
    } else {
        exists|m: Seq<char>| #[trigger] one_edit(a, m) && edits(m, b, (n - 1) as nat)
    }
}

proof fn lemma_drop_right(a: Seq<char>, b: Seq<char>)
    requires
        b.len() > 0,
    ensures
        distance(a, b) <= distance(a, b.drop_last()) + 1,
{
}

proof fn lemma_remove_raises(a: Seq<char>, b: Seq<char>, i: int)
    requires
        0 <= i < a.len(),
    ensures
        distance(a, b) <= distance(a.remove(i), b) + 1,
    decreases a.len() + b.len(),
{
    let r = a.remove(i);
    if i == a.len() - 1 {
        assert(r == a.drop_last());
    } else if b.len() > 0 {
        assert(r.drop_last() == a.drop_last().remove(i));
        assert(r.last() == a.last());
        lemma_remove_raises(a.drop_last(), b.drop_last(), i);
        lemma_remove_raises(a.drop_last(), b, i);
        lemma_remove_raises(a, b.drop_last(), i);
    }
}

proof fn lemma_remove_lowers(a: Seq<char>, b: Seq<char>, i: int)
    requires
        0 <= i < a.len(),
    ensures
        distance(a.remove(i), b) <= distance(a, b) + 1,
    decreases a.len() + b.len(),
{
    let r = a.remove(i);
    if i == a.len() - 1 {
        assert(r == a.drop_last());
        if b.len() > 0 {
            lemma_drop_right(r, b);
            lemma_remove_lowers(a, b.drop_last(), i);
        }
    } else if b.len() > 0 {
        assert(r.drop_last() == a.drop_last().remove(i));
        assert(r.last() == a.last());
        lemma_remove_lowers(a.drop_last(), b.drop_last(), i);
        lemma_remove_lowers(a.drop_last(), b, i);
        lemma_remove_lowers(a, b.drop_last(), i);
    }
}

proof fn lemma_replace(a: Seq<char>, b: Seq<char>, i: int, c: char)
    requires
        0 <= i < a.len(),
    ensures
        distance(a, b) <= distance(a.update(i, c), b) + 1,
    decreases a.len() + b.len(),
{
    let r = a.update(i, c);
    if b.len() > 0 {
        lemma_replace(a, b.drop_last(), i, c);
        if i == a.len() - 1 {
            assert(r.drop_last() == a.drop_last());
        } else {
            assert(r.drop_last() == a.drop_last().update(i, c));
            assert(r.last() == a.last());
            lemma_replace(a.drop_last(), b.drop_last(), i, c);
            lemma_replace(a.drop_last(), b, i, c);
        }
    }
}

proof fn lemma_one_edit(a: Seq<char>, m: Seq<char>, b: Seq<char>)
    requires
        one_edit(a, m),
    ensures
        distance(a, b) <= distance(m, b) + 1,
{
    if exists|i: int| 0 <= i < a.len() && m == #[trigger] a.remove(i) {
        let i = choose|i: int| 0 <= i < a.len() && m == #[trigger] a.remove(i);
        lemma_remove_raises(a, b, i);
    } else if exists|i: int, c: char| 0 <= i < a.len() && m == #[trigger] a.update(i, c) {
        let (i, c) = choose|i: int, c: char| 0 <= i < a.len() && m == #[trigger] a.update(i, c);
        lemma_replace(a, b, i, c);
    } else {
        let (i, c) = choose|i: int, c: char| 0 <= i <= a.len() && m == #[trigger] a.insert(i, c);
        assert(m.remove(i) == a);
        lemma_remove_lowers(m, b, i);
    }
}

proof fn lemma_distance_self(a: Seq<char>)
    ensures
        distance(a, a) == 0,
    decreases a.len(),
{
    if a.len() > 0 {
        lemma_distance_self(a.drop_last());
    }
}

/// No fewer edits than the distance turn `a` into `b`.
pub proof fn law_distance_is_least(a: Seq<char>, b: Seq<char>, n: nat)
    requires
        edits(a, b, n),
    ensures
        distance(a, b) <= n,
    decreases n,
{
    if n == 0 {
        lemma_distance_self(a);
    } else {
        let m = choose|m: Seq<char>| #[trigger] one_edit(a, m) && edits(m, b, (n - 1) as nat);
        law_distance_is_least(m, b, (n - 1) as nat);
        lemma_one_edit(a, m, b);
    }
}

proof fn lemma_edits_join(a: Seq<char>, m: Seq<char>, b: Seq<char>, n: nat, k: nat)
    requires
        edits(a, m, n),
        edits(m, b, k),
    ensures
        edits(a, b, n + k),
    decreases n,
{
    if n > 0 {
        let x = choose|x: Seq<char>| #[trigger] one_edit(a, x) && edits(x, m, (n - 1) as nat);
        lemma_edits_join(x, m, b, (n - 1) as nat, k);
        assert((n - 1 + k) as nat == (n + k - 1) as nat);
    }
}

proof fn lemma_single(a: Seq<char>, b: Seq<char>)
    requires
        one_edit(a, b),
    ensures
        edits(a, b, 1),
{
    assert(edits(b, b, 0));
}

proof fn lemma_edits_push(a: Seq<char>, b: Seq<char>, n: nat, c: char)
    requires
        edits(a, b, n),
    ensures
        edits(a.push(c), b.push(c), n),
    decreases n,
{
    if n > 0 {
        let m = choose|m: Seq<char>| #[trigger] one_edit(a, m) && edits(m, b, (n - 1) as nat);
        lemma_edits_push(m, b, (n - 1) as nat, c);
        let p = a.push(c);
        let q = m.push(c);
        if exists|i: int| 0 <= i < a.len() && m == #[trigger] a.remove(i) {
            let i = choose|i: int| 0 <= i < a.len() && m == #[trigger] a.remove(i);
            assert(q == p.remove(i));
        } else if exists|i: int, d: char| 0 <= i < a.len() && m == #[trigger] a.update(i, d) {
            let (i, d) = choose|i: int, d: char|
                0 <= i < a.len() && m == #[trigger] a.update(i, d);
            assert(q == p.update(i, d));
        } else {
            let (i, d) = choose|i: int, d: char|
                0 <= i <= a.len() && m == #[trigger] a.insert(i, d);
            assert(q == p.insert(i, d));
        }
        assert(one_edit(p, q));
    }
}

/// As many edits as the distance says do turn `a` into `b`.
pub proof fn law_distance_is_reached(a: Seq<char>, b: Seq<char>)
    ensures
        edits(a, b, distance(a, b)),
    decreases a.len() + b.len(),
{
    if a.len() == 0 && b.len() == 0 {
        assert(a == b);
    } else if a.len() == 0 || (b.len() > 0 && distance(a, b) == distance(a, b.drop_last()) + 1) {
        let t = b.drop_last();
        law_distance_is_reached(a, t);
        assert(b == t.insert(t.len() as int, b.last()));
        lemma_single(t, b);
        lemma_edits_join(a, t, b, distance(a, t), 1);
    } else if b.len() == 0 || distance(a, b) == distance(a.drop_last(), b) + 1 {
        let t = a.drop_last();
        law_distance_is_reached(t, b);
        assert(t == a.remove(a.len() - 1));
        lemma_single(a, t);
        lemma_edits_join(a, t, b, 1, distance(t, b));
        if b.len() == 0 {
            assert(distance(t, b) == t.len());
        }
    } else {
        let x = a.drop_last();
        let y = b.drop_last();
        law_distance_is_reached(x, y);
        lemma_edits_push(x, y, distance(x, y), a.last());
        assert(x.push(a.last()) == a);
        if a.last() == b.last() {
            assert(y.push(a.last()) == b);
        } else {
            let m = y.push(a.last());
            assert(b == m.update(y.len() as int, b.last()));
            lemma_single(m, b);
            lemma_edits_join(a, m, b, distance(x, y), 1);
        }
    }
}

/// The distance is the same in both directions.
pub proof fn law_distance_symmetric(a: Seq<char>, b: Seq<char>)
    ensures
        distance(a, b) == distance(b, a),
    decreases a.len() + b.len(),
{
    if a.len() > 0 && b.len() > 0 {
        law_distance_symmetric(a.drop_last(), b.drop_last());
        law_distance_symmetric(a.drop_last(), b);
        law_distance_symmetric(a, b.drop_last());
    }
}

/// Only equal texts are at distance zero.
pub proof fn law_distance_zero(a: Seq<char>, b: Seq<char>)
    ensures
        distance(a, b) == 0 <==> a == b,
{
    lemma_distance_self(a);
    law_distance_is_reached(a, b);
}

/// A detour over a third text is never shorter.
pub proof fn law_distance_triangle(a: Seq<char>, b: Seq<char>, c: Seq<char>)
    ensures
        distance(a, c) <= distance(a, b) + distance(b, c),
{
    law_distance_is_reached(a, b);
    law_distance_is_reached(b, c);
    lemma_edits_join(a, b, c, distance(a, b), distance(b, c));
    law_distance_is_least(a, c, distance(a, b) + distance(b, c));
}

} // verus!
