//! Searching nixpkgs: what a search found, ranked and put into words.

use crate::json::{
    as_text, index, member, object_text, read_object, text_in, value_of, values, Json,
};
use crate::order::{
    all, first, in_order, law_first_of_sorted, law_sorted, lemma_filter_map, smallest, sorted, Ranked,
};
use crate::text::{
    before, chars_of, contains, lemma_before_total, lemma_before_transitive, occurs, opt_view,
    same, stands_before, starts_with, views,
};
use vstd::prelude::*;
use vstd::string::*;

verus! {

/// A package that a search found.
#[derive(Debug, PartialEq, Eq)]
pub struct Package {
    pub pname: Option<String>,
    pub version: Option<String>,
    pub description: Option<String>,
}

/// A package that a search found, as a mathematical value.
pub struct PackageView {
    pub pname: Option<Seq<char>>,
    pub version: Option<Seq<char>>,
    pub description: Option<Seq<char>>,
}

impl View for Package {
    type V = PackageView;

    open spec fn view(&self) -> PackageView {
        PackageView {
            pname: opt_view(self.pname),
            version: opt_view(self.version),
            description: opt_view(self.description),
        }
    }
}

/// The package that the JSON value `value` describes.
pub open spec fn package_in(value: Json) -> PackageView {
    PackageView {
        pname: text_in(member(value, "pname"@)),
        version: text_in(member(value, "version"@)),
        description: text_in(member(value, "description"@)),
    }
}

/// The packages in the JSON text `text`; none where it holds no object.
pub open spec fn packages_in(text: Seq<char>) -> Seq<PackageView> {
    match object_text(text) {
        Some(entries) => entries.map_values(|e: (Seq<char>, Json)| package_in(e.1)),
        None => Seq::empty(),
    }
}

/// The text under `key` in `value`.
fn field(value: &serde_json::Value, key: &str) -> (r: Option<String>)
    ensures
        opt_view(r) == text_in(member(value_of(*value), key@)),
{
    match as_text(index(value, key)) {
        Some(s) => Some(s.to_string()),
        None => None,
    }
}

/// The packages in what `nix search --json` printed; none where it printed no object.
pub fn search_nixpkgs(output: &str) -> (r: Vec<Package>)
    ensures
        all(r@) == packages_in(output@),
{
    let mut found: Vec<Package> = Vec::new();
    assert(all(found@) == Seq::<PackageView>::empty());
    match read_object(output) {
        Ok(object) => {
            let vs = values(&object);
            let ghost es = object_text(output@)->0;
            let ghost g = |e: (Seq<char>, Json)| package_in(e.1);
            let ghost h = |e: (Seq<char>, Json)| e.1;
            let ghost k = |v: &serde_json::Value| value_of(*v);
            assert(vs@.len() == vs@.map_values(k).len());
            for i in 0..vs.len()
                invariant
                    g == (|e: (Seq<char>, Json)| package_in(e.1)),
                    h == (|e: (Seq<char>, Json)| e.1),
                    k == (|v: &serde_json::Value| value_of(*v)),
                    vs@.map_values(k) == es.map_values(h),
                    vs@.len() == es.len(),
                    all(found@) == es.take(i as int).map_values(g),
            {
                let v = vs[i];
                let p = Package {
                    pname: field(v, "pname"),
                    version: field(v, "version"),
                    description: field(v, "description"),
                };
                proof {
                    assert(vs@.map_values(k)[i as int] == value_of(*v));
                    assert(es.map_values(h)[i as int] == es[i as int].1);
                    assert(p@ == package_in(es[i as int].1));
                    assert(es.take(i + 1).map_values(g) == es.take(i as int).map_values(g).push(
                        p@,
                    ));
                    assert(all(found@.push(p)) == all(found@).push(p@));
                }
                found.push(p);
            }
            assert(es.take(es.len() as int) == es);
        },
        Err(_) => {},
    }
    found
}

/// A package whose name holds the name that was searched for.
#[derive(Debug, PartialEq, Eq)]
pub struct Hit {
    pub score: u8,
    pub pname: String,
    pub version: String,
    pub description: String,
}

/// A package whose name holds the name that was searched for, as a mathematical value.
pub struct HitView {
    pub score: nat,
    pub pname: Seq<char>,
    pub version: Seq<char>,
    pub description: Seq<char>,
}

impl View for Hit {
    type V = HitView;

    open spec fn view(&self) -> HitView {
        HitView {
            score: self.score as nat,
            pname: self.pname@,
            version: self.version@,
            description: self.description@,
        }
    }
}

impl Ranked for Hit {
    /// The better score first, then the order of the names.
    open spec fn ranks(a: HitView, b: HitView) -> bool {
        ||| a.score < b.score
        ||| a.score == b.score && before(a.pname, b.pname)
    }

    proof fn lemma_order(a: HitView, b: HitView, c: HitView) {
        lemma_before_total(a.pname, b.pname);
        lemma_before_total(b.pname, c.pname);
        lemma_before_total(a.pname, c.pname);
        if before(c.pname, a.pname) && before(a.pname, b.pname) {
            lemma_before_transitive(c.pname, a.pname, b.pname);
        }
    }

    fn ranks_before(&self, other: &Self) -> (r: bool) {
        self.score < other.score || (self.score == other.score && stands_before(
            self.pname.as_str(),
            other.pname.as_str(),
        ))
    }
}

/// How well the package name `pname` fits the name that was searched for: lower is better.
pub open spec fn fit(pname: Seq<char>, name: Seq<char>) -> nat {
    if pname == name {
        0
    } else if name.is_prefix_of(pname) {
        1
    } else {
        2
    }
}

/// The text in `s`, or no text.
pub open spec fn or_empty(s: Option<Seq<char>>) -> Seq<char> {
    match s {
        Some(t) => t,
        None => Seq::empty(),
    }
}

/// `package` as a hit for `name`, where its name holds `name`.
pub open spec fn hit(package: PackageView, name: Seq<char>) -> Option<HitView> {
    match package.pname {
        Some(pname) => if occurs(name, pname) {
            Some(
                HitView {
                    score: fit(pname, name),
                    pname,
                    version: or_empty(package.version),
                    description: or_empty(package.description),
                },
            )
        } else {
            None
        },
        None => None,
    }
}

/// How many hits are shown for a name at most.
pub const MAX_RESULTS: usize = 10;

/// The hits for `name` among `packages`, best first.
pub open spec fn hits(packages: Seq<PackageView>, name: Seq<char>) -> Seq<HitView> {
    first(
        sorted::<Hit>(packages.filter_map(|p: PackageView| hit(p, name))),
        MAX_RESULTS as nat,
    )
}

/// The hits for a name are packages whose names hold it, in order and no more than are
/// shown; no package that was left out ranks before one of them.
pub proof fn law_hits(packages: Seq<PackageView>, name: Seq<char>)
    ensures
        hits(packages, name).len() <= MAX_RESULTS,
        in_order::<Hit>(hits(packages, name)),
        forall|i: int|
            0 <= i < hits(packages, name).len() ==> occurs(
                name,
                (#[trigger] hits(packages, name)[i]).pname,
            ) && exists|k: int|
                0 <= k < packages.len() && hit(#[trigger] packages[k], name) == Some(
                    hits(packages, name)[i],
                ),
        forall|k: int|
            0 <= k < packages.len() ==> (hit(#[trigger] packages[k], name) matches Some(h) ==> hits(
                packages,
                name,
            ).contains(h) || hits(packages, name).len() == MAX_RESULTS && forall|i: int|
                0 <= i < hits(packages, name).len() ==> !Hit::ranks(
                    h,
                    #[trigger] hits(packages, name)[i],
                )),
{
    let f = |p: PackageView| hit(p, name);
    let s = packages.filter_map(f);
    let r = hits(packages, name);
    law_first_of_sorted::<Hit>(s, MAX_RESULTS as nat);
    assert forall|i: int| 0 <= i < r.len() implies occurs(name, (#[trigger] r[i]).pname) && exists|
        k: int,
    |
        0 <= k < packages.len() && hit(#[trigger] packages[k], name) == Some(r[i]) by {
        lemma_filter_map(packages, f, r[i]);
        let k = choose|k: int| 0 <= k < packages.len() && f(#[trigger] packages[k]) == Some(r[i]);
        assert(hit(packages[k], name) == Some(r[i]));
    }
    assert forall|k: int| 0 <= k < packages.len() && hit(#[trigger] packages[k], name) is Some
        && !r.contains(hit(packages[k], name)->0) implies r.len() == MAX_RESULTS && forall|i: int|
        0 <= i < r.len() ==> !Hit::ranks(hit(packages[k], name)->0, #[trigger] r[i]) by {
        let h = hit(packages[k], name)->0;
        lemma_filter_map(packages, f, h);
        assert(f(packages[k]) == Some(h));
        assert(s.contains(h));
        if s.len() <= MAX_RESULTS {
            broadcast use vstd::seq_lib::group_to_multiset_ensures;

            law_sorted::<Hit>(s);
            assert(s.to_multiset().count(h) > 0);
            assert(r.contains(h));
        }
    }
}

fn copy_or_empty(s: &Option<String>) -> (r: String)
    ensures
        r@ == or_empty(opt_view(*s)),
{
    match s {
        Some(t) => t.clone(),
        None => String::new(),
    }
}

/// The hits for `name` among `packages`, best first.
pub fn search_results(packages: &Vec<Package>, name: &str) -> (r: Vec<Hit>)
    ensures
        all(r@) == hits(all(packages@), name@),
{
    let wanted = chars_of(name);
    let mut found: Vec<Hit> = Vec::new();
    let ghost s = all(packages@);
    let ghost f = |p: PackageView| hit(p, name@);
    assert(s.take(0).filter_map(f) == Seq::<HitView>::empty()) by {
        reveal(Seq::filter_map);
    }
    for i in 0..packages.len()
        invariant
            wanted@ == name@,
            s == all(packages@),
            f == (|p: PackageView| hit(p, name@)),
            all(found@) == s.take(i as int).filter_map(f),
    {
        let p = &packages[i];
        proof {
            s.lemma_filter_map_take_succ(f, i as int);
            assert(s[i as int] == p@);
        }
        match &p.pname {
            Some(pname) => {
                let cs = chars_of(pname.as_str());
                if contains(&cs, &wanted) {
                    let score: u8 = if same(&cs, &wanted) {
                        0
                    } else if starts_with(&cs, &wanted) {
                        1
                    } else {
                        2
                    };
                    let h = Hit {
                        score,
                        pname: pname.clone(),
                        version: copy_or_empty(&p.version),
                        description: copy_or_empty(&p.description),
                    };
                    assert(all(found@.push(h)) == all(found@).push(h@));
                    found.push(h);
                }
            },
            None => {},
        }
    }
    assert(s.take(packages@.len() as int) == s);
    smallest(found, MAX_RESULTS)
}

/// The line that shows `h`.
pub open spec fn hit_line(h: HitView) -> Seq<char> {
    if h.version.len() == 0 {
        "  "@ + h.pname + "  —  "@ + h.description
    } else {
        "  "@ + h.pname + " ("@ + h.version + ")  —  "@ + h.description
    }
}

/// The lines that report the hits `hs` for `name`.
pub open spec fn hit_lines(name: Seq<char>, hs: Seq<HitView>) -> Seq<Seq<char>> {
    if hs.len() == 0 {
        seq!["No results for '"@ + name + "'."@, ""@]
    } else {
        seq!["Results for '"@ + name + "':"@] + hs.map_values(|h: HitView| hit_line(h)) + seq![""@]
    }
}

/// The lines that report what was found for each of `names`.
pub open spec fn search_report(names: Seq<Seq<char>>, packages: Seq<PackageView>) -> Seq<Seq<char>>
    decreases names.len(),
{
    if names.len() == 0 {
        Seq::empty()
    } else {
        search_report(names.drop_last(), packages) + hit_lines(
            names.last(),
            hits(packages, names.last()),
        )
    }
}

fn show_hit(h: &Hit) -> (line: String)
    ensures
        line@ == hit_line(h@),
{
    let mut line = String::new();
    line.append("  ");
    line.append(h.pname.as_str());
    if h.version.as_str().is_empty() {
        line.append("  —  ");
    } else {
        line.append(" (");
        line.append(h.version.as_str());
        line.append(")  —  ");
    }
    line.append(h.description.as_str());
    assert(line@ == hit_line(h@));
    line
}

/// The lines that report the hits `hs` for `name`.
pub fn show_hits(name: &str, hs: &Vec<Hit>) -> (r: Vec<String>)
    ensures
        views(r@) == hit_lines(name@, all(hs@)),
{
    let mut out: Vec<String> = Vec::new();
    let mut head = String::new();
    if hs.len() == 0 {
        head.append("No results for '");
        head.append(name);
        head.append("'.");
        out.push(head);
    } else {
        head.append("Results for '");
        head.append(name);
        head.append("':");
        out.push(head);
        let ghost g = |h: HitView| hit_line(h);
        assert(views(out@) == seq![head@] + all(hs@).take(0).map_values(g));
        for i in 0..hs.len()
            invariant
                g == (|h: HitView| hit_line(h)),
                head@ == "Results for '"@ + name@ + "':"@,
                views(out@) == seq![head@] + all(hs@).take(i as int).map_values(g),
        {
            let line = show_hit(&hs[i]);
            proof {
                assert(all(hs@)[i as int] == hs@[i as int]@);
                assert(all(hs@).take(i + 1).map_values(g) == all(hs@).take(i as int).map_values(
                    g,
                ).push(line@));
                assert(views(out@.push(line)) == views(out@).push(line@));
            }
            out.push(line);
        }
        assert(all(hs@).take(hs@.len() as int) == all(hs@));
    }
    let ghost shown = out@;
    let blank = "".to_string();
    out.push(blank);
    assert(views(out@) == views(shown).push(""@));
    assert(views(out@) == hit_lines(name@, all(hs@)));
    out
}

/// The lines that report what was found for each of `names`.
pub fn cmd_search(names: &Vec<String>, packages: &Vec<Package>) -> (r: Vec<String>)
    ensures
        views(r@) == search_report(views(names@), all(packages@)),
{
    let mut out: Vec<String> = Vec::new();
    for i in 0..names.len()
        invariant
            views(out@) == search_report(views(names@).take(i as int), all(packages@)),
    {
        let hs = search_results(packages, names[i].as_str());
        let mut lines = show_hits(names[i].as_str(), &hs);
        proof {
            let t = views(names@).take(i + 1);
            assert(t.drop_last() == views(names@).take(i as int));
            assert(t.last() == names@[i as int]@);
            assert(views(out@ + lines@) == views(out@) + views(lines@));
        }
        out.append(&mut lines);
    }
    assert(views(names@).take(names@.len() as int) == views(names@));
    out
}

} // verus!
