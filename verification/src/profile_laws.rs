//! What holds of the index that is found in a listing of the user's profile.

use crate::profile::{from_index, index_in, index_on, last_index, lines_before, names_package};
use crate::text::{lines, trim};
use vstd::prelude::*;

verus! {

/// Whether `line` is an index line, with the index `index`.
pub open spec fn gives_index(line: Seq<char>, index: Seq<char>) -> bool {
    exists|rest: Seq<char>|
        trim(line) == #[trigger] ("Index:"@ + rest) && index == trim(rest)
}

/// Whether `line` is an index line.
pub open spec fn is_index_line(line: Seq<char>) -> bool {
    exists|rest: Seq<char>| trim(line) == #[trigger] ("Index:"@ + rest)
}

/// Whether `line` is an attribute line whose attribute ends in a dot and `name`.
pub open spec fn is_attribute_of(line: Seq<char>, name: Seq<char>) -> bool {
    &&& exists|rest: Seq<char>| trim(line) == #[trigger] ("Flake attribute:"@ + rest)
    &&& exists|front: Seq<char>| trim(line) == #[trigger] (front + ("."@ + name))
}

/// Whether the lines have a block for `name` with its index line at `i` and its attribute
/// line at `j`: no other index line stands between the two.
pub open spec fn is_block(ls: Seq<Seq<char>>, name: Seq<char>, i: int, j: int) -> bool {
    &&& 0 <= i < j < ls.len()
    &&& is_index_line(ls[i])
    &&& is_attribute_of(ls[j], name)
    &&& forall|k: int| i < k < j ==> !is_index_line(#[trigger] ls[k])
}

proof fn lemma_index_line(line: Seq<char>)
    ensures
        index_on(line) is Some <==> is_index_line(line),
        index_on(line) matches Some(x) ==> gives_index(line, x),
{
    let t = trim(line);
    let label = "Index:"@;
    if label.is_prefix_of(t) {
        let rest = t.skip(label.len() as int);
        assert(t == label + rest);
    }
    if is_index_line(line) {
        let rest = choose|rest: Seq<char>| t == #[trigger] (label + rest);
        assert((label + rest).take(label.len() as int) == label);
    }
}

proof fn lemma_attribute_line(line: Seq<char>, name: Seq<char>)
    ensures
        names_package(line, name) <==> is_attribute_of(line, name),
{
    let t = trim(line);
    let label = "Flake attribute:"@;
    let end = "."@ + name;
    reveal_strlit("Flake attribute:");
    reveal_strlit("Index:");
    if label.is_prefix_of(t) {
        let rest = t.skip(label.len() as int);
        assert(t == label + rest);
        assert(t[0] == 'F');
    }
    if end.is_suffix_of(t) {
        let front = t.take(t.len() - end.len());
        assert(t == front + end);
    }
    if is_attribute_of(line, name) {
        let rest = choose|rest: Seq<char>| t == #[trigger] (label + rest);
        assert((label + rest).take(label.len() as int) == label);
        let front = choose|front: Seq<char>| t == #[trigger] (front + end);
        assert((front + end).skip(t.len() - end.len()) == end);
        assert(t[0] == 'F');
        if "Index:"@.is_prefix_of(t) {
            assert("Index:"@[0] == t[0]);
        }
    }
}

proof fn lemma_from_index(ls: Seq<Seq<char>>) -> (d: int)
    ensures
        0 <= d <= ls.len(),
        from_index(ls) == ls.skip(d),
        forall|k: int| 0 <= k < d ==> index_on(#[trigger] ls[k]) is None,
        d < ls.len() ==> index_on(ls[d]) is Some,
    decreases ls.len(),
{
    if ls.len() == 0 || index_on(ls[0]) is Some {
        assert(ls.skip(0) == ls);
        0
    } else {
        let t = ls.drop_first();
        let d = lemma_from_index(t);
        assert(t.skip(d) == ls.skip(d + 1));
        assert forall|k: int| 0 <= k < d + 1 implies index_on(#[trigger] ls[k]) is None by {
            if k > 0 {
                assert(t[k - 1] == ls[k]);
            }
        }
        if d + 1 < ls.len() {
            assert(t[d] == ls[d + 1]);
        }
        d + 1
    }
}

proof fn lemma_lines_before(ls: Seq<Seq<char>>, name: Seq<char>)
    ensures
        lines_before(ls, name) <= ls.len(),
        forall|k: int| 0 <= k < lines_before(ls, name) ==> !names_package(#[trigger] ls[k], name),
        lines_before(ls, name) < ls.len() ==> names_package(
            ls[lines_before(ls, name) as int],
            name,
        ),
    decreases ls.len(),
{
    if ls.len() > 0 && !names_package(ls[0], name) {
        let t = ls.drop_first();
        lemma_lines_before(t, name);
        assert forall|k: int| 0 <= k < lines_before(ls, name) implies !names_package(
            #[trigger] ls[k],
            name,
        ) by {
            if k > 0 {
                assert(t[k - 1] == ls[k]);
            }
        }
    }
}

proof fn lemma_last_index(ls: Seq<Seq<char>>) -> (i: int)
    ensures
        last_index(ls) is Some ==> 0 <= i < ls.len() && last_index(ls) == index_on(ls[i]) && index_on(
            ls[i],
        ) is Some && forall|k: int| i < k < ls.len() ==> index_on(#[trigger] ls[k]) is None,
        last_index(ls) is None ==> forall|k: int|
            0 <= k < ls.len() ==> index_on(#[trigger] ls[k]) is None,
    decreases ls.len(),
{
    if ls.len() == 0 {
        0
    } else if index_on(ls.last()) is Some {
        ls.len() - 1
    } else {
        let t = ls.drop_last();
        let i = lemma_last_index(t);
        assert forall|k: int| 0 <= k < ls.len() && (last_index(ls) is None || i < k) implies index_on(
            #[trigger] ls[k],
        ) is None by {
            if k < t.len() {
                assert(t[k] == ls[k]);
            }
        }
        i
    }
}

/// An index is found for a name exactly where the listing has a block for it; it is the one
/// that the first such block gives. A block whose attribute does not end in a dot and the
/// name is never chosen.
pub proof fn law_index_is_that_of_the_block(listing: Seq<char>, name: Seq<char>)
    ensures
        index_in(listing, name) is Some <==> exists|i: int, j: int|
            #[trigger] is_block(lines(listing), name, i, j),
        index_in(listing, name) matches Some(index) ==> exists|i: int, j: int| #[trigger]
            is_block(lines(listing), name, i, j) && gives_index(lines(listing)[i], index) && forall|
                a: int,
                b: int,
            |
                #[trigger] is_block(lines(listing), name, a, b) ==> j <= b,
{
    let all = lines(listing);
    let d = lemma_from_index(all);
    let ls = from_index(all);
    let n = lines_before(ls, name) as int;
    lemma_lines_before(ls, name);
    assert forall|k: int| 0 <= k < all.len() implies (index_on(#[trigger] all[k]) is Some
        <==> is_index_line(all[k])) && (names_package(all[k], name) <==> is_attribute_of(
        all[k],
        name,
    )) && (index_on(all[k]) matches Some(x) ==> gives_index(all[k], x)) by {
        lemma_index_line(all[k]);
        lemma_attribute_line(all[k], name);
    }
    assert forall|a: int, b: int| #[trigger] is_block(all, name, a, b) implies n < ls.len() && d + n
        <= b by {
        assert(is_index_line(all[a]));
        if a < d {
            assert(index_on(all[a]) is None);
        }
        assert(ls[b - d] == all[b]);
        if b - d < n {
            assert(!names_package(ls[b - d], name));
        }
    }
    if n < ls.len() {
        let part = ls.take(n);
        let i = lemma_last_index(part);
        assert(ls[n] == all[d + n]);
        assert(ls[0] == all[d]);
        assert(n > 0);
        assert(part[0] == all[d]);
        assert(last_index(part) is Some);
        assert(part[i] == all[d + i]);
        assert forall|k: int| d + i < k < d + n implies !is_index_line(#[trigger] all[k]) by {
            assert(part[k - d] == all[k]);
        }
        assert(is_block(all, name, d + i, d + n));
    }
}

} // verus!
