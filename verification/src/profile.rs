//! The user's Nix profile: finding a package in what `nix profile list` prints.

use crate::text::{
    chars_of, ends_with, lines, opt_view, split_lines, starts_with, string_of, texts, trim,
    trimmed,
};
use vstd::prelude::*;
use vstd::string::*;

verus! {

/// The profile index that `line` gives, if it gives one.
pub open spec fn index_on(line: Seq<char>) -> Option<Seq<char>> {
    let t = trim(line);
    if "Index:"@.is_prefix_of(t) {
        Some(trim(t.skip("Index:"@.len() as int)))
    } else {
        None
    }
}

/// Whether `line` says that the package with the current index is `name`.
pub open spec fn names_package(line: Seq<char>, name: Seq<char>) -> bool {
    &&& index_on(line) is None
    &&& "Flake attribute:"@.is_prefix_of(trim(line))
    &&& ("."@ + name).is_suffix_of(trim(line))
}

/// The number of lines in front of the first that names the package `name`.
pub open spec fn lines_before(ls: Seq<Seq<char>>, name: Seq<char>) -> nat
    decreases ls.len(),
{
    if ls.len() == 0 || names_package(ls[0], name) {
        0
    } else {
        1 + lines_before(ls.drop_first(), name)
    }
}

/// The index that the last line with one gives.
pub open spec fn last_index(ls: Seq<Seq<char>>) -> Option<Seq<char>>
    decreases ls.len(),
{
    if ls.len() == 0 {
        None
    } else if index_on(ls.last()) is Some {
        index_on(ls.last())
    } else {
        last_index(ls.drop_last())
    }
}

/// The lines of `ls` from the first that gives an index.
pub open spec fn from_index(ls: Seq<Seq<char>>) -> Seq<Seq<char>>
    decreases ls.len(),
{
    if ls.len() == 0 || index_on(ls[0]) is Some {
        ls
    } else {
        from_index(ls.drop_first())
    }
}

/// The profile index of the package `name` in `listing`: the one given last in front of
/// the first line that names the package and has an index above it.
pub open spec fn index_in(listing: Seq<char>, name: Seq<char>) -> Option<Seq<char>> {
    let ls = from_index(lines(listing));
    let n = lines_before(ls, name);
    if n < ls.len() {
        last_index(ls.take(n as int))
    } else {
        None
    }
}

/// The profile index of the package `name` in what `nix profile list` printed.
pub fn profile_index(listing: &str, name: &str) -> (r: Option<String>)
    ensures
        opt_view(r) == index_in(listing@, name@),
{
    let text = chars_of(listing);
    let ls = split_lines(&text);
    let index_label = chars_of("Index:");
    let attribute_label = chars_of("Flake attribute:");
    let mut dotted = String::new();
    dotted.append(".");
    dotted.append(name);
    let suffix = chars_of(dotted.as_str());
    let ghost all = lines(listing@);
    let ghost mut start: int = 0;
    let mut current: Option<String> = None;
    let mut i: usize = 0;
    assert(all.skip(0) == all);
    while i < ls.len()
        invariant
            i <= ls.len(),
            all == texts(ls@),
            all == lines(listing@),
            index_label@ == "Index:"@,
            attribute_label@ == "Flake attribute:"@,
            suffix@ == "."@ + name@,
            current is None ==> from_index(all) == from_index(all.skip(i as int)),
            current is Some ==> {
                let block = all.skip(start);
                &&& 0 <= start < i
                &&& from_index(all) == block
                &&& opt_view(current) == last_index(block.take(i - start))
                &&& lines_before(block, name@) == i - start + lines_before(
                    all.skip(i as int),
                    name@,
                )
            },
        decreases ls.len() - i,
    {
        let line = trimmed(&ls[i]);
        let ghost before = current;
        let ghost rest = all.skip(i as int);
        proof {
            assert(all[i as int] == ls@[i as int]@);
            assert(rest[0] == all[i as int]);
            assert(rest.drop_first() == all.skip(i + 1));
            if current is Some {
                let block = all.skip(start);
                assert(block.take(i + 1 - start).drop_last() == block.take(i - start));
                assert(block.take(i + 1 - start).last() == all[i as int]);
            }
        }
        if starts_with(line, &index_label) {
            let tail = &line[index_label.len()..line.len()];
            assert(tail@ == line@.skip("Index:"@.len() as int));
            let idx = string_of(trimmed(tail));
            current = Some(idx);
            proof {
                if before is None {
                    start = i as int;
                    reveal_with_fuel(last_index, 2);
                    assert(rest.take(1).last() == all[i as int]);
                    assert(rest.take(1).drop_last() == Seq::<Seq<char>>::empty());
                }
            }
        } else if current.is_some() && starts_with(line, &attribute_label) && ends_with(
            line,
            &suffix,
        ) {
            return current;
        }
        i = i + 1;
    }
    assert(all.skip(i as int) == Seq::<Seq<char>>::empty());
    None
}

} // verus!
