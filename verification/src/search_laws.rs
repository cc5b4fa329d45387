//! What holds of a search: which packages are hits, and what is said of them.

use crate::json::{entry_of, is_first_with, law_entry, member, object_text, text_in, Json};
use crate::order::{law_first_of_filtered, Ranked};
use crate::search::{
    hit, hit_line, hit_lines, hits, packages_in, search_report, Hit, HitView, PackageView,
};
use crate::text::before;
use crate::text_laws::law_occurs;
use vstd::prelude::*;

verus! {

/// Whether the package has a name that holds `name`.
pub open spec fn matches_name(package: PackageView, name: Seq<char>) -> bool {
    package.pname matches Some(pname) && exists|a: Seq<char>, b: Seq<char>|
        pname == #[trigger] (a + name + b)
}

/// How close the package name `pname` is to `name`: the name itself, a longer one that
/// begins with it, or another that holds it.
pub open spec fn closeness(pname: Seq<char>, name: Seq<char>) -> nat {
    if pname == name {
        0
    } else if exists|b: Seq<char>| pname == #[trigger] (name + b) {
        1
    } else {
        2
    }
}

/// Whether the package name `a` comes before `b` among the hits for `name`.
pub open spec fn closer(name: Seq<char>, a: Seq<char>, b: Seq<char>) -> bool {
    let (m, n) = (closeness(a, name), closeness(b, name));
    m < n || m == n && before(a, b)
}

proof fn lemma_closeness(pname: Seq<char>, name: Seq<char>)
    ensures
        closeness(pname, name) == crate::search::fit(pname, name),
{
    if name.is_prefix_of(pname) {
        let rest = pname.skip(name.len() as int);
        assert(pname == name + rest);
    }
    if exists|b: Seq<char>| pname == #[trigger] (name + b) {
        let b = choose|b: Seq<char>| pname == #[trigger] (name + b);
        assert((name + b).take(name.len() as int) == name);
    }
}

proof fn lemma_hit(package: PackageView, name: Seq<char>)
    ensures
        hit(package, name) is Some <==> matches_name(package, name),
        hit(package, name) matches Some(h) ==> h.pname == package.pname->0 && h.score == closeness(
            h.pname,
            name,
        ) && h.version == (match package.version {
            Some(v) => v,
            None => Seq::empty(),
        }) && h.description == (match package.description {
            Some(d) => d,
            None => Seq::empty(),
        }),
{
    if package.pname is Some {
        law_occurs(name, package.pname->0);
        lemma_closeness(package.pname->0, name);
    }
}

/// The hits for a name are the closest of the packages whose names hold it, ten at most:
/// each is one of them, taken at a place of its own, with its name, its version and its
/// description as they are. The closer ones come first, by name where they are equally
/// close, and where the names are the same too, as they were found. A package is left out
/// only where there are ten in front of it.
pub proof fn law_hits_are_the_closest(packages: Seq<PackageView>, name: Seq<char>) -> (at: Seq<int>)
    ensures
        ({
            let r = hits(packages, name);
            &&& at.len() == r.len() <= 10
            &&& at.no_duplicates()
            &&& forall|i: int|
                0 <= i < at.len() ==> {
                    let p = packages[#[trigger] at[i]];
                    &&& 0 <= at[i] < packages.len()
                    &&& matches_name(p, name)
                    &&& p.pname == Some(r[i].pname)
                    &&& r[i].version == (match p.version {
                        Some(v) => v,
                        None => Seq::empty(),
                    })
                    &&& r[i].description == (match p.description {
                        Some(d) => d,
                        None => Seq::empty(),
                    })
                    &&& r[i].score == closeness(r[i].pname, name)
                }
            &&& forall|i: int, j: int|
                0 <= i < j < at.len() ==> {
                    let a = packages[#[trigger] at[i]].pname->0;
                    let b = packages[#[trigger] at[j]].pname->0;
                    !closer(name, b, a) && (closer(name, a, b) || at[i] < at[j])
                }
            &&& forall|k: int|
                0 <= k < packages.len() && matches_name(#[trigger] packages[k], name)
                    && !at.contains(k) ==> at.len() == 10 && forall|i: int|
                    0 <= i < at.len() ==> {
                        let a = packages[#[trigger] at[i]].pname->0;
                        let b = packages[k].pname->0;
                        !closer(name, b, a) && (closer(name, a, b) || at[i] < k)
                    }
        }),
{
    let f = |p: PackageView| hit(p, name);
    let at = law_first_of_filtered::<PackageView, Hit>(packages, f, 10);
    let r = hits(packages, name);
    assert forall|k: int| 0 <= k < packages.len() implies (f(#[trigger] packages[k]) is Some
        <==> matches_name(packages[k], name)) && (f(packages[k]) matches Some(h) ==> h.pname
        == packages[k].pname->0 && h.score == closeness(h.pname, name)) by {
        lemma_hit(packages[k], name);
    }
    assert forall|i: int| 0 <= i < at.len() implies ({
        let p = packages[#[trigger] at[i]];
        &&& 0 <= at[i] < packages.len()
        &&& matches_name(p, name)
        &&& p.pname == Some(r[i].pname)
        &&& r[i].version == (match p.version {
            Some(v) => v,
            None => Seq::empty(),
        })
        &&& r[i].description == (match p.description {
            Some(d) => d,
            None => Seq::empty(),
        })
        &&& r[i].score == closeness(r[i].pname, name)
    }) by {
        lemma_hit(packages[at[i]], name);
        assert(f(packages[at[i]]) == Some(r[i]));
    }
    at
}

/// The report for a name has one line for each of its hits, in their order, whatever their
/// score, between a heading and a blank line; where there are none it says so.
pub proof fn law_report_shows_every_hit(name: Seq<char>, hs: Seq<HitView>, i: int)
    ensures
        hs.len() == 0 ==> hit_lines(name, hs) == seq!["No results for '"@ + name + "'."@, ""@],
        hs.len() > 0 ==> {
            &&& hit_lines(name, hs).len() == hs.len() + 2
            &&& hit_lines(name, hs)[0] == "Results for '"@ + name + "':"@
            &&& hit_lines(name, hs)[hs.len() as int + 1] == ""@
        },
        0 <= i < hs.len() ==> hit_lines(name, hs)[i + 1] == "  "@ + hs[i].pname + (if hs[i].version
            == Seq::<char>::empty() {
            Seq::empty()
        } else {
            " ("@ + hs[i].version + ")"@
        }) + "  —  "@ + hs[i].description,
{
    if 0 <= i < hs.len() {
        let h = hs[i];
        reveal_strlit(")  —  ");
        reveal_strlit(")");
        reveal_strlit("  —  ");
        assert(")  —  "@ == ")"@ + "  —  "@);
        assert(hit_lines(name, hs)[i + 1] == hit_line(h));
        if h.version.len() == 0 {
            assert(h.version == Seq::<char>::empty());
            assert("  "@ + h.pname + Seq::<char>::empty() == "  "@ + h.pname);
        } else {
            assert("  "@ + h.pname + (" ("@ + h.version + ")"@) + "  —  "@ + h.description
                == hit_line(h));
        }
    }
}

/// The names of a search are reported one after the other, each by itself.
pub proof fn law_names_are_reported_apart(
    names: Seq<Seq<char>>,
    name: Seq<char>,
    packages: Seq<PackageView>,
)
    ensures
        search_report(Seq::empty(), packages) == Seq::<Seq<char>>::empty(),
        search_report(names.push(name), packages) == search_report(names, packages) + hit_lines(
            name,
            hits(packages, name),
        ),
{
    assert(names.push(name).drop_last() == names);
}

/// There is a package for each member of the object that was printed, in its order, with
/// the texts that the member has under `pname`, `version` and `description`; a text that is
/// no object has none.
pub proof fn law_packages_of_object(text: Seq<char>, i: int)
    ensures
        object_text(text) is None ==> packages_in(text) == Seq::<PackageView>::empty(),
        object_text(text) matches Some(entries) ==> {
            &&& packages_in(text).len() == entries.len()
            &&& 0 <= i < entries.len() ==> packages_in(text)[i] == (PackageView {
                pname: text_under(entries[i].1, "pname"@),
                version: text_under(entries[i].1, "version"@),
                description: text_under(entries[i].1, "description"@),
            })
        },
{
    if object_text(text) is Some && 0 <= i < object_text(text)->0.len() {
        let v = object_text(text)->0[i].1;
        lemma_text_under(v, "pname"@);
        lemma_text_under(v, "version"@);
        lemma_text_under(v, "description"@);
    }
}

/// The text that the first entry with the key `key` in the object `value` has.
pub open spec fn text_under(value: Json, key: Seq<char>) -> Option<Seq<char>> {
    if value is Object && exists|k: int| #[trigger] is_first_with(value->Object_0, key, k) {
        let k = choose|k: int| #[trigger] is_first_with(value->Object_0, key, k);
        match value->Object_0[k].1 {
            Json::Text(s) => Some(s),
            _ => None,
        }
    } else {
        None
    }
}

proof fn lemma_text_under(value: Json, key: Seq<char>)
    ensures
        text_in(member(value, key)) == text_under(value, key),
{
    if value is Object {
        let entries = value->Object_0;
        law_entry(entries, key);
        if exists|k: int| #[trigger] is_first_with(entries, key, k) {
            let k = choose|k: int| #[trigger] is_first_with(entries, key, k);
            assert(entries[k].0 == key);
            let v = entry_of(entries, key)->0;
            let j = choose|j: int| #[trigger] is_first_with(entries, key, j) && entries[j].1 == v;
            if j < k {
                assert(entries[j].0 != key);
            } else if k < j {
                assert(entries[k].0 != key);
            }
        }
    }
}

} // verus!
