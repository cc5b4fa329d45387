//! Attribute names and what to suggest for a mistyped one.

use crate::distance::{distance, edit_distance};
use crate::order::{
    all, first, law_first_of_sorted, law_sorted, lemma_filter_map, smallest, sorted, Ranked,
};
use crate::text::{
    before, chars_of, contains, lemma_before_total, lemma_before_transitive, occurs, same,
    stands_before, starts_with, views,
};
use vstd::prelude::*;
use vstd::string::*;
use vstd::utf8::*;

verus! {

/// Whether `c` may stand in an attribute path.
pub open spec fn attr_char(c: char) -> bool {
    ||| 'a' <= c <= 'z'
    ||| 'A' <= c <= 'Z'
    ||| '0' <= c <= '9'
    ||| c == '.'
    ||| c == '_'
    ||| c == '+'
    ||| c == '-'
}

/// Whether `s` could be an attribute path.
pub open spec fn attr_name(s: Seq<char>) -> bool {
    s.len() > 0 && forall|i: int| 0 <= i < s.len() ==> #[trigger] attr_char(s[i])
}

/// Whether `s` could be an attribute path.
pub fn is_attr_name(s: &str) -> (r: bool)
    ensures
        r == attr_name(s@),
{
    let cs = chars_of(s);
    for i in 0..cs.len()
        invariant
            cs@ == s@,
            forall|j: int| 0 <= j < i ==> #[trigger] attr_char(s@[j]),
    {
        let c: char = cs[i];
        if !(('a' <= c && c <= 'z') || ('A' <= c && c <= 'Z') || ('0' <= c && c <= '9') || c == '.'
            || c == '_' || c == '+' || c == '-') {
            assert(!attr_char(s@[i as int]));
            return false;
        }
    }
    cs.len() > 0
}

/// Whether `s` has ASCII characters only.
pub open spec fn is_ascii(s: Seq<char>) -> bool {
    forall|i: int| 0 <= i < s.len() ==> #[trigger] s[i] <= '\u{7f}'
}

/// `c` in lower case, where it is an ASCII letter.
pub open spec fn lower_char(c: char) -> char {
    if 'A' <= c <= 'Z' {
        (c as int + 32) as char
    } else {
        c
    }
}

/// `c` in upper case, where it is an ASCII letter.
pub open spec fn upper_char(c: char) -> char {
    if 'a' <= c <= 'z' {
        (c as int - 32) as char
    } else {
        c
    }
}

/// `s` with its ASCII letters in lower case.
pub open spec fn ascii_lower(s: Seq<char>) -> Seq<char> {
    s.map_values(|c: char| lower_char(c))
}

/// `s` with its ASCII letters in upper case.
pub open spec fn ascii_upper(s: Seq<char>) -> Seq<char> {
    s.map_values(|c: char| upper_char(c))
}

/// What `str::to_lowercase` makes of a text.
pub uninterp spec fn lowercase(s: Seq<char>) -> Seq<char>;

/// `s` in lower case.
pub open spec fn folded(s: Seq<char>) -> Seq<char> {
    if is_ascii(s) {
        ascii_lower(s)
    } else {
        lowercase(s)
    }
}

/// Calls `str::to_lowercase`. Claimed: what it returns depends on the text alone, and in a
/// text of ASCII characters each of the letters `A` to `Z` becomes its lower-case letter
/// and everything else stays. What becomes of other texts is left to Unicode.
#[verifier::external_body]
fn lowered(s: &str) -> (r: String)
    ensures
        r@ == lowercase(s@),
        is_ascii(s@) ==> r@ == ascii_lower(s@),
{
    s.to_lowercase()
}

/// How far a candidate may be from a mistyped name of `size` bytes.
pub open spec fn slack(size: nat) -> nat {
    if size / 3 <= 2 {
        2
    } else {
        size / 3
    }
}

/// The rank of `cand` as a suggestion for `typo`, both in lower case; lower is better, and
/// there is none where the two are too far apart.
pub open spec fn score(typo: Seq<char>, cand: Seq<char>) -> Option<nat> {
    if cand == typo {
        Some(0)
    } else if typo.is_prefix_of(cand) {
        Some(1)
    } else if occurs(typo, cand) {
        Some(2)
    } else if distance(typo, cand) <= slack(encode_utf8(typo).len()) {
        Some(3 + distance(typo, cand))
    } else {
        None
    }
}

/// Ranks `cand` as a suggestion for `typo`, both in lower case.
pub fn lowercase_score(typo: &str, cand: &str) -> (r: Option<usize>)
    ensures
        match r {
            Some(n) => score(typo@, cand@) == Some(n as nat),
            None => score(typo@, cand@) is None,
        },
{
    let t = chars_of(typo);
    let c = chars_of(cand);
    if same(&c, &t) {
        Some(0)
    } else if starts_with(&c, &t) {
        Some(1)
    } else if contains(&c, &t) {
        Some(2)
    } else {
        let dist: usize = edit_distance(typo, cand);
        let third: usize = typo.as_bytes().len() / 3;
        let limit: usize = if third <= 2 {
            2
        } else {
            third
        };
        if dist <= limit {
            Some(3 + dist)
        } else {
            None
        }
    }
}

/// Ranks `cand` as a suggestion for the mistyped `typo`; lower is better, `None` means
/// that it is too far away to be worth suggesting.
pub fn suggestion_score(typo: &str, cand: &str) -> (r: Option<usize>)
    ensures
        match r {
            Some(n) => score(folded(typo@), folded(cand@)) == Some(n as nat),
            None => score(folded(typo@), folded(cand@)) is None,
        },
{
    let t = lowered(typo);
    let c = lowered(cand);
    lowercase_score(t.as_str(), c.as_str())
}

proof fn lemma_upper_folds(s: Seq<char>)
    requires
        is_ascii(s),
    ensures
        folded(ascii_upper(s)) == folded(s),
{
    let u = ascii_upper(s);
    assert forall|i: int| 0 <= i < u.len() implies #[trigger] u[i] <= '\u{7f}' by {
        assert(u[i] == upper_char(s[i]));
    }
    assert forall|i: int| 0 <= i < s.len() implies #[trigger] ascii_lower(u)[i] == ascii_lower(
        s,
    )[i] by {
        assert(u[i] == upper_char(s[i]));
        assert(ascii_lower(u)[i] == lower_char(u[i]));
        assert(ascii_lower(s)[i] == lower_char(s[i]));
    }
    assert(ascii_lower(u) == ascii_lower(s));
}

/// Letter case does not matter to how a candidate ranks for a mistyped name: either name,
/// where it is ASCII, ranks the same in upper case.
pub proof fn law_letter_case(typo: Seq<char>, cand: Seq<char>)
    ensures
        is_ascii(typo) ==> score(folded(ascii_upper(typo)), folded(cand)) == score(
            folded(typo),
            folded(cand),
        ),
        is_ascii(cand) ==> score(folded(typo), folded(ascii_upper(cand))) == score(
            folded(typo),
            folded(cand),
        ),
{
    if is_ascii(typo) {
        lemma_upper_folds(typo);
    }
    if is_ascii(cand) {
        lemma_upper_folds(cand);
    }
}

/// A name that may be suggested, with what it is ranked by.
#[derive(Debug, PartialEq, Eq)]
pub struct Candidate {
    pub score: usize,
    pub size: usize,
    pub name: String,
}

/// A name that may be suggested, as a mathematical value.
pub struct CandidateView {
    pub score: nat,
    pub size: nat,
    pub name: Seq<char>,
}

impl View for Candidate {
    type V = CandidateView;

    open spec fn view(&self) -> CandidateView {
        CandidateView { score: self.score as nat, size: self.size as nat, name: self.name@ }
    }
}

impl Ranked for Candidate {
    /// The better score first, then the shorter name, then the order of the names.
    open spec fn ranks(a: CandidateView, b: CandidateView) -> bool {
        ||| a.score < b.score
        ||| a.score == b.score && a.size < b.size
        ||| a.score == b.score && a.size == b.size && before(a.name, b.name)
    }

    proof fn lemma_order(a: CandidateView, b: CandidateView, c: CandidateView) {
        lemma_before_total(a.name, b.name);
        lemma_before_total(b.name, c.name);
        lemma_before_total(a.name, c.name);
        if before(c.name, a.name) && before(a.name, b.name) {
            lemma_before_transitive(c.name, a.name, b.name);
        }
    }

    fn ranks_before(&self, other: &Self) -> (r: bool) {
        self.score < other.score || (self.score == other.score && (self.size < other.size || (
        self.size == other.size && stands_before(self.name.as_str(), other.name.as_str()))))
    }
}

/// How many names are suggested at most.
pub const MAX_SUGGESTIONS: usize = 5;

/// The names of the best candidates, best first.
pub open spec fn best(candidates: Seq<CandidateView>) -> Seq<Seq<char>> {
    first(sorted::<Candidate>(candidates), MAX_SUGGESTIONS as nat).map_values(
        |c: CandidateView| c.name,
    )
}

/// The names of the best candidates, best first.
pub fn closest(candidates: Vec<Candidate>) -> (r: Vec<String>)
    ensures
        views(r@) == best(all(candidates@)),
{
    let top = smallest(candidates, MAX_SUGGESTIONS);
    let mut names: Vec<String> = Vec::new();
    for i in 0..top.len()
        invariant
            views(names@) == all(top@).take(i as int).map_values(|c: CandidateView| c.name),
    {
        let name = top[i].name.clone();
        proof {
            let g = |c: CandidateView| c.name;
            assert(all(top@)[i as int] == top@[i as int]@);
            assert(all(top@).take(i + 1).map_values(g) == all(top@).take(i as int).map_values(
                g,
            ).push(name@));
            assert(views(names@.push(name)) == views(names@).push(name@));
        }
        names.push(name);
    }
    assert(all(top@).take(top@.len() as int) == all(top@));
    names
}

/// `attr` as a candidate for the mistyped `name`, where it is close enough.
pub open spec fn candidate(name: Seq<char>, attr: Seq<char>) -> Option<CandidateView> {
    match score(folded(name), folded(attr)) {
        Some(n) => Some(CandidateView { score: n, size: encode_utf8(attr).len(), name: attr }),
        None => None,
    }
}

/// The names among `attrs` to suggest for the mistyped `name`, best first.
pub open spec fn suggested(name: Seq<char>, attrs: Seq<Seq<char>>) -> Seq<Seq<char>> {
    best(attrs.filter_map(|a: Seq<char>| candidate(name, a)))
}

/// The names that are suggested are names in nixpkgs close enough to the mistyped one, no
/// more than are shown, and the better ones first.
pub proof fn law_suggested(name: Seq<char>, attrs: Seq<Seq<char>>)
    ensures
        suggested(name, attrs).len() <= MAX_SUGGESTIONS,
        forall|i: int|
            0 <= i < suggested(name, attrs).len() ==> attrs.contains(
                #[trigger] suggested(name, attrs)[i],
            ) && candidate(name, suggested(name, attrs)[i]) is Some,
        forall|i: int, j: int|
            0 <= i < j < suggested(name, attrs).len() ==> !Candidate::ranks(
                candidate(name, #[trigger] suggested(name, attrs)[j])->0,
                candidate(name, #[trigger] suggested(name, attrs)[i])->0,
            ),
        forall|k: int|
            0 <= k < attrs.len() ==> (candidate(name, #[trigger] attrs[k]) is Some ==> suggested(
                name,
                attrs,
            ).contains(attrs[k]) || suggested(name, attrs).len() == MAX_SUGGESTIONS && forall|i: int|
                0 <= i < suggested(name, attrs).len() ==> !Candidate::ranks(
                    candidate(name, attrs[k])->0,
                    candidate(name, #[trigger] suggested(name, attrs)[i])->0,
                )),
{
    let f = |a: Seq<char>| candidate(name, a);
    let s = attrs.filter_map(f);
    let top = first(sorted::<Candidate>(s), MAX_SUGGESTIONS as nat);
    let r = suggested(name, attrs);
    law_first_of_sorted::<Candidate>(s, MAX_SUGGESTIONS as nat);
    assert forall|i: int| 0 <= i < r.len() implies attrs.contains(#[trigger] r[i]) && candidate(
        name,
        r[i],
    ) == Some(top[i]) by {
        lemma_filter_map(attrs, f, top[i]);
        let k = choose|k: int| 0 <= k < attrs.len() && f(#[trigger] attrs[k]) == Some(top[i]);
        assert(candidate(name, attrs[k]) == Some(top[i]));
        assert(attrs[k] == r[i]);
    }
    assert forall|k: int| 0 <= k < attrs.len() && candidate(name, #[trigger] attrs[k]) is Some
        && !r.contains(attrs[k]) implies r.len() == MAX_SUGGESTIONS && forall|i: int|
        0 <= i < r.len() ==> !Candidate::ranks(
            candidate(name, attrs[k])->0,
            candidate(name, #[trigger] r[i])->0,
        ) by {
        let c = candidate(name, attrs[k])->0;
        lemma_filter_map(attrs, f, c);
        assert(f(attrs[k]) == Some(c));
        assert(s.contains(c));
        if top.contains(c) {
            let i = choose|i: int| 0 <= i < top.len() && top[i] == c;
            assert(r[i] == attrs[k]);
        }
        if s.len() <= MAX_SUGGESTIONS {
            broadcast use vstd::seq_lib::group_to_multiset_ensures;

            law_sorted::<Candidate>(s);
            assert(s.to_multiset().count(c) > 0);
            assert(top.contains(c));
        }
    }
}

/// Letter case does not matter to what is suggested for an ASCII name.
pub proof fn law_suggested_letter_case(name: Seq<char>, attrs: Seq<Seq<char>>)
    requires
        is_ascii(name),
    ensures
        suggested(ascii_upper(name), attrs) == suggested(name, attrs),
{
    let f = |a: Seq<char>| candidate(ascii_upper(name), a);
    let g = |a: Seq<char>| candidate(name, a);
    lemma_upper_folds(name);
    assert(f =~= g);
}

/// The names among `attrs` to suggest for the mistyped `name`, best first.
pub fn suggestions(name: &str, attrs: &Vec<String>) -> (r: Vec<String>)
    ensures
        views(r@) == suggested(name@, views(attrs@)),
{
    let mut candidates: Vec<Candidate> = Vec::new();
    let ghost f = |a: Seq<char>| candidate(name@, a);
    let ghost s = views(attrs@);
    assert(s.take(0).filter_map(f) == Seq::<CandidateView>::empty()) by {
        reveal(Seq::filter_map);
    }
    for i in 0..attrs.len()
        invariant
            s == views(attrs@),
            f == (|a: Seq<char>| candidate(name@, a)),
            all(candidates@) == s.take(i as int).filter_map(f),
    {
        let attr = &attrs[i];
        proof {
            s.lemma_filter_map_take_succ(f, i as int);
            assert(s[i as int] == attr@);
        }
        match suggestion_score(name, attr.as_str()) {
            Some(n) => {
                let c = Candidate { score: n, size: attr.as_str().as_bytes().len(), name: attr.clone() };
                assert(all(candidates@.push(c)) == all(candidates@).push(c@));
                candidates.push(c);
            },
            None => {},
        }
    }
    assert(s.take(attrs@.len() as int) == s);
    closest(candidates)
}

} // verus!
