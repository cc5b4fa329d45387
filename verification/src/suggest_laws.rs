//! What holds of the names that are suggested for a mistyped one.

use crate::distance::distance;
use crate::order::{law_first_of_filtered, Ranked};
use crate::suggest::{
    attr_char, attr_name, candidate, folded, is_ascii, lower_char, lowercase, score, suggested,
    Candidate,
};
use crate::text::before;
use crate::text_laws::{law_occurs, law_stands_inside};
use vstd::prelude::*;
use vstd::utf8::*;

verus! {

/// The name itself ranks first, then every name that begins with it, then every name that
/// holds it anywhere; all of them are worth suggesting, however long they are.
pub proof fn law_score_of_match(a: Seq<char>, typo: Seq<char>, b: Seq<char>)
    ensures
        score(typo, typo) == Some(0nat),
        b.len() > 0 ==> score(typo, typo + b) == Some(1nat),
        !typo.is_prefix_of(a + typo + b) ==> score(typo, a + typo + b) == Some(2nat),
{
    law_stands_inside(a, typo, b);
    assert((typo + b).take(typo.len() as int) == typo);
    if b.len() > 0 {
        assert((typo + b).len() != typo.len());
    }
    assert(typo.take(typo.len() as int) == typo);
}

/// A name that does not hold the mistyped one ranks behind all that do, by its edit
/// distance, and is worth suggesting up to a distance of two, or of a third of the bytes of
/// the mistyped name.
pub proof fn law_score_of_others(typo: Seq<char>, cand: Seq<char>)
    requires
        forall|a: Seq<char>, b: Seq<char>| cand != #[trigger] (a + typo + b),
    ensures
        score(typo, cand) == if distance(typo, cand) <= 2 || 3 * distance(typo, cand)
            <= encode_utf8(typo).len() {
            Some(3 + distance(typo, cand))
        } else {
            None
        },
        score(typo, cand) matches Some(n) ==> n > 3,
{
    law_occurs(typo, cand);
    let none = Seq::<char>::empty();
    if typo.is_prefix_of(cand) {
        let rest = cand.skip(typo.len() as int);
        assert(cand == none + typo + rest);
    }
    if cand == typo {
        assert(cand == none + typo + none);
    }
    crate::distance::law_distance_zero(typo, cand);
}

/// Upper-case ASCII letters become their lower-case letters, every other ASCII character
/// stays, and a text with any other character is left to `str::to_lowercase`.
pub proof fn law_folded(s: Seq<char>)
    ensures
        (forall|i: int| 0 <= i < s.len() ==> (#[trigger] s[i] as int) < 128) ==> {
            &&& folded(s).len() == s.len()
            &&& forall|i: int|
                0 <= i < s.len() ==> #[trigger] folded(s)[i] as int == if 65 <= s[i] as int <= 90 {
                    s[i] as int + 32
                } else {
                    s[i] as int
                }
        },
        (exists|i: int| 0 <= i < s.len() && (#[trigger] s[i] as int) >= 128) ==> folded(s)
            == lowercase(s),
{
    if forall|i: int| 0 <= i < s.len() ==> (#[trigger] s[i] as int) < 128 {
        assert(is_ascii(s)) by {
            assert forall|i: int| 0 <= i < s.len() implies #[trigger] s[i] <= '\u{7f}' by {
                assert((s[i] as int) < 128);
            }
        }
        assert forall|i: int| 0 <= i < s.len() implies #[trigger] folded(s)[i] as int == if 65
            <= s[i] as int <= 90 {
            s[i] as int + 32
        } else {
            s[i] as int
        } by {
            assert(folded(s)[i] == lower_char(s[i]));
        }
    } else {
        let i = choose|i: int| 0 <= i < s.len() && (#[trigger] s[i] as int) >= 128;
        assert(s[i] > '\u{7f}');
    }
}

/// An attribute path is made of ASCII letters, digits, dots, underscores, plus signs and
/// hyphens, and of nothing else; two of them side by side are one again.
pub proof fn law_attr_name(c: char, a: Seq<char>, b: Seq<char>)
    ensures
        !attr_name(Seq::empty()),
        attr_name(seq![c]) <==> {
            ||| 97 <= c as int <= 122
            ||| 65 <= c as int <= 90
            ||| 48 <= c as int <= 57
            ||| c as int == 46
            ||| c as int == 95
            ||| c as int == 43
            ||| c as int == 45
        },
        a.len() > 0 && b.len() > 0 ==> (attr_name(a + b) <==> attr_name(a) && attr_name(b)),
{
    assert(seq![c][0] == c);
    if attr_name(seq![c]) {
        assert(attr_char(seq![c][0]));
    }
    let s = a + b;
    if a.len() > 0 && b.len() > 0 {
        if attr_name(s) {
            assert forall|i: int| 0 <= i < a.len() implies #[trigger] attr_char(a[i]) by {
                assert(attr_char(s[i]));
            }
            assert forall|i: int| 0 <= i < b.len() implies #[trigger] attr_char(b[i]) by {
                assert(attr_char(s[a.len() + i]));
            }
        }
        if attr_name(a) && attr_name(b) {
            assert forall|i: int| 0 <= i < s.len() implies #[trigger] attr_char(s[i]) by {
                if i < a.len() {
                    assert(attr_char(a[i]));
                } else {
                    assert(attr_char(b[i - a.len()]));
                }
            }
        }
    }
}

/// The rank of `attr` as a suggestion for `name`, if it is worth suggesting.
pub open spec fn rank(name: Seq<char>, attr: Seq<char>) -> Option<nat> {
    score(folded(name), folded(attr))
}

/// Whether `a` is to be suggested for `name` rather than `b`: by rank, then by size, then by
/// name.
pub open spec fn better(name: Seq<char>, a: Seq<char>, b: Seq<char>) -> bool {
    let (m, n) = (rank(name, a)->0, rank(name, b)->0);
    let (x, y) = (encode_utf8(a).len(), encode_utf8(b).len());
    m < n || m == n && (x < y || x == y && before(a, b))
}

/// What is suggested for a name are the best of the attribute names that are worth it, five
/// at most: each is one of them, taken at a place of its own, and comes before those that
/// are worse; one is left out only where there are five that are no worse.
pub proof fn law_suggestions(name: Seq<char>, attrs: Seq<Seq<char>>) -> (at: Seq<int>)
    ensures
        ({
            let r = suggested(name, attrs);
            &&& at.len() == r.len() <= 5
            &&& at.no_duplicates()
            &&& forall|i: int|
                0 <= i < at.len() ==> 0 <= #[trigger] at[i] < attrs.len() && r[i] == attrs[at[i]]
                    && rank(name, r[i]) is Some
            &&& forall|i: int, j: int|
                0 <= i < j < at.len() ==> !better(
                    name,
                    attrs[#[trigger] at[j]],
                    attrs[#[trigger] at[i]],
                )
            &&& forall|k: int|
                0 <= k < attrs.len() && rank(name, #[trigger] attrs[k]) is Some && !at.contains(k)
                    ==> at.len() == 5 && forall|i: int|
                    0 <= i < at.len() ==> !better(name, attrs[k], attrs[#[trigger] at[i]])
        }),
{
    let f = |a: Seq<char>| candidate(name, a);
    let at = law_first_of_filtered::<Seq<char>, Candidate>(attrs, f, 5);
    let r = suggested(name, attrs);
    assert forall|k: int| 0 <= k < attrs.len() && rank(name, #[trigger] attrs[k]) is Some implies f(
        attrs[k],
    ) is Some by {}
    assert forall|i: int| 0 <= i < at.len() implies 0 <= #[trigger] at[i] < attrs.len() && r[i]
        == attrs[at[i]] && rank(name, r[i]) is Some by {
        assert(f(attrs[at[i]]) is Some);
    }
    at
}

} // verus!
