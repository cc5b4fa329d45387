//! What a request changes in a list of names.

use crate::order::{
    all, in_order, law_sorted, lemma_filter_keeps, placed, sort, sorted, Ranked,
};
use crate::text::{
    before, copied, holds, lemma_before_total, lemma_before_transitive, stands_before, views,
};
use vstd::prelude::*;

verus! {

impl Ranked for String {
    /// The order of strings.
    open spec fn ranks(a: Seq<char>, b: Seq<char>) -> bool {
        before(a, b)
    }

    proof fn lemma_order(a: Seq<char>, b: Seq<char>, c: Seq<char>) {
        lemma_before_total(a, b);
        lemma_before_total(b, c);
        lemma_before_total(a, c);
        if before(c, a) && before(a, b) {
            lemma_before_transitive(c, a, b);
        }
    }

    fn ranks_before(&self, other: &Self) -> (r: bool) {
        stands_before(self.as_str(), other.as_str())
    }
}

/// The names in `install` that `target` does not hold yet, each once, in the order of the
/// request.
pub open spec fn fresh(target: Seq<Seq<char>>, install: Seq<Seq<char>>) -> Seq<Seq<char>>
    decreases install.len(),
{
    if install.len() == 0 {
        Seq::empty()
    } else {
        let names = fresh(target, install.drop_last());
        if target.contains(install.last()) || names.contains(install.last()) {
            names
        } else {
            names.push(install.last())
        }
    }
}

/// `target` with `names` added, in the order of strings.
pub open spec fn extended(target: Seq<Seq<char>>, names: Seq<Seq<char>>) -> Seq<Seq<char>> {
    sorted::<String>(target + names)
}

/// `target` without any of `names`.
pub open spec fn without(target: Seq<Seq<char>>, names: Seq<Seq<char>>) -> Seq<Seq<char>> {
    target.filter(|n: Seq<char>| !names.contains(n))
}

/// How many names of `remove`, from the front, can be taken out of `target` one after
/// another: a name that is not there, or not there any more, ends it.
pub open spec fn removable(target: Seq<Seq<char>>, remove: Seq<Seq<char>>) -> nat
    decreases remove.len(),
{
    if remove.len() == 0 {
        0
    } else {
        let done = removable(target, remove.drop_last());
        if done == remove.len() - 1 && target.contains(remove.last())
            && !remove.drop_last().contains(remove.last()) {
            remove.len()
        } else {
            done
        }
    }
}

/// The names in `install` that `target` does not hold yet, each once.
pub fn fresh_names(target: &Vec<String>, install: &Vec<String>) -> (r: Vec<String>)
    ensures
        views(r@) == fresh(views(target@), views(install@)),
{
    let mut names: Vec<String> = Vec::new();
    let ghost s = views(install@);
    assert(views(names@) == fresh(views(target@), s.take(0)));
    for i in 0..install.len()
        invariant
            s == views(install@),
            views(names@) == fresh(views(target@), s.take(i as int)),
    {
        let name = &install[i];
        proof {
            assert(s.take(i + 1).drop_last() == s.take(i as int));
            assert(s.take(i + 1).last() == name@);
        }
        if !holds(target, name) && !holds(&names, name) {
            let copy = name.clone();
            assert(views(names@.push(copy)) == views(names@).push(copy@));
            names.push(copy);
        }
    }
    assert(s.take(install@.len() as int) == s);
    names
}

/// `target` with `names` added, in the order of strings.
pub fn add_names(target: &Vec<String>, names: &Vec<String>) -> (r: Vec<String>)
    ensures
        views(r@) == extended(views(target@), views(names@)),
{
    let mut list = copied(target);
    let mut more = copied(names);
    assert(views(list@ + more@) == views(list@) + views(more@));
    list.append(&mut more);
    assert(all(list@) == views(list@));
    let r = sort(list);
    assert(all(r@) == views(r@));
    r
}

/// `target` without the text of `name`.
fn drop_name(target: &Vec<String>, name: &String) -> (r: Vec<String>)
    ensures
        views(r@) == views(target@).filter(|n: Seq<char>| n != name@),
{
    let mut out: Vec<String> = Vec::new();
    let ghost s = views(target@);
    let ghost f = |n: Seq<char>| n != name@;
    assert(s.take(0).filter(f) == Seq::<Seq<char>>::empty()) by {
        reveal(Seq::filter);
    }
    for i in 0..target.len()
        invariant
            s == views(target@),
            f == (|n: Seq<char>| n != name@),
            views(out@) == s.take(i as int).filter(f),
    {
        proof {
            assert(s.take(i + 1) == s.take(i as int).push(s[i as int]));
            s.take(i as int).lemma_filter_push(s[i as int], f);
        }
        if target[i] != *name {
            let copy = target[i].clone();
            assert(views(out@.push(copy)) == views(out@).push(copy@));
            out.push(copy);
        }
    }
    assert(s.take(target@.len() as int) == s);
    out
}

proof fn lemma_filter_contains(s: Seq<Seq<char>>, f: spec_fn(Seq<char>) -> bool, x: Seq<char>)
    ensures
        s.filter(f).contains(x) <==> s.contains(x) && f(x),
{
    if s.filter(f).contains(x) {
        let k = choose|k: int| 0 <= k < s.filter(f).len() && s.filter(f)[k] == x;
        s.lemma_filter_pred(f, k);
        s.lemma_filter_contains_rev(f, x);
    }
    if s.contains(x) && f(x) {
        let k = choose|k: int| 0 <= k < s.len() && s[k] == x;
        s.lemma_filter_contains(f, k);
    }
}

proof fn lemma_filter_twice(
    s: Seq<Seq<char>>,
    f: spec_fn(Seq<char>) -> bool,
    g: spec_fn(Seq<char>) -> bool,
    h: spec_fn(Seq<char>) -> bool,
)
    requires
        forall|x: Seq<char>| #[trigger] h(x) == (f(x) && g(x)),
    ensures
        s.filter(f).filter(g) == s.filter(h),
    decreases s.len(),
{
    reveal(Seq::filter);
    if s.len() > 0 {
        let t = s.drop_last();
        let x = s.last();
        lemma_filter_twice(t, f, g, h);
        assert(s == t.push(x));
        assert(h(x) == (f(x) && g(x)));
        if f(x) {
            t.filter(f).lemma_filter_push(x, g);
        }
    }
}

proof fn lemma_removable_bound(target: Seq<Seq<char>>, remove: Seq<Seq<char>>)
    ensures
        removable(target, remove) <= remove.len(),
    decreases remove.len(),
{
    if remove.len() > 0 {
        lemma_removable_bound(target, remove.drop_last());
    }
}

/// Once a name cannot be taken out, no later one is tried.
proof fn lemma_removable_stops(target: Seq<Seq<char>>, remove: Seq<Seq<char>>, k: int)
    requires
        0 <= k < remove.len(),
        removable(target, remove.take(k)) == k,
        !target.contains(remove[k]) || remove.take(k).contains(remove[k]),
    ensures
        removable(target, remove) == k,
    decreases remove.len(),
{
    let t = remove.drop_last();
    if k == remove.len() - 1 {
        assert(t == remove.take(k));
    } else {
        assert(t.take(k) == remove.take(k));
        lemma_removable_stops(target, t, k);
    }
}

/// Takes the names `remove` out of `target`, one after another, up to the first that is
/// not there; returns what is left, and how many could be taken out.
pub fn remove_names(target: &Vec<String>, remove: &Vec<String>) -> (r: (Vec<String>, usize))
    ensures
        r.1 == removable(views(target@), views(remove@)),
        views(r.0@) == without(views(target@), views(remove@).take(r.1 as int)),
{
    let mut list = copied(target);
    let ghost s = views(target@);
    let ghost names = views(remove@);
    proof {
        let f = |n: Seq<char>| !names.take(0).contains(n);
        assert(without(s, names.take(0)) == s) by {
            assert forall|i: int| 0 <= i < s.len() implies f(#[trigger] s[i]) by {}
            lemma_filter_keeps(s, f);
        }
    }
    for i in 0..remove.len()
        invariant
            s == views(target@),
            names == views(remove@),
            views(list@) == without(s, names.take(i as int)),
            removable(s, names.take(i as int)) == i,
    {
        let name = &remove[i];
        let ghost f = |n: Seq<char>| !names.take(i as int).contains(n);
        proof {
            lemma_filter_contains(s, f, name@);
            assert(names[i as int] == name@);
        }
        if !holds(&list, name) {
            proof {
                lemma_removable_stops(s, names, i as int);
            }
            return (list, i);
        }
        proof {
            let g = |n: Seq<char>| n != name@;
            let h = |n: Seq<char>| !names.take(i + 1).contains(n);
            assert(names.take(i + 1).drop_last() == names.take(i as int));
            assert(names.take(i + 1).last() == name@);
            assert forall|x: Seq<char>| #[trigger] h(x) == (f(x) && g(x)) by {
                let a = names.take(i as int);
                let b = names.take(i + 1);
                assert(b == a.push(name@));
                if a.contains(x) {
                    let k = choose|k: int| 0 <= k < a.len() && a[k] == x;
                    assert(b[k] == x);
                }
                assert(b[i as int] == name@);
                if b.contains(x) {
                    let k = choose|k: int| 0 <= k < b.len() && b[k] == x;
                    if k < i {
                        assert(a[k] == x);
                    }
                }
            }
            lemma_filter_twice(s, f, g, h);
        }
        list = drop_name(&list, name);
    }
    assert(names.take(remove@.len() as int) == names);
    (list, remove.len())
}

/// What is added is what was asked for and not there: each such name, and each once.
pub proof fn law_fresh(target: Seq<Seq<char>>, install: Seq<Seq<char>>)
    ensures
        fresh(target, install).no_duplicates(),
        forall|n: Seq<char>|
            #[trigger] fresh(target, install).contains(n) <==> install.contains(n)
                && !target.contains(n),
    decreases install.len(),
{
    if install.len() > 0 {
        let t = install.drop_last();
        let x = install.last();
        let a = fresh(target, t);
        let b = fresh(target, install);
        law_fresh(target, t);
        assert(install == t.push(x));
        assert forall|n: Seq<char>| #[trigger] b.contains(n) <==> install.contains(n)
            && !target.contains(n) by {
            assert(install[install.len() - 1] == x);
            if t.contains(n) {
                let k = choose|k: int| 0 <= k < t.len() && t[k] == n;
                assert(install[k] == n);
            }
            if install.contains(n) && n != x {
                let k = choose|k: int| 0 <= k < install.len() && install[k] == n;
                assert(t[k] == n);
            }
            assert(a.contains(n) <==> t.contains(n) && !target.contains(n));
            assert(a.contains(x) <==> t.contains(x) && !target.contains(x));
            if b != a {
                assert(b == a.push(x));
                assert(b[a.len() as int] == x);
                if a.contains(n) {
                    let k = choose|k: int| 0 <= k < a.len() && a[k] == n;
                    assert(b[k] == n);
                }
                if b.contains(n) && n != x {
                    let k = choose|k: int| 0 <= k < b.len() && b[k] == n;
                    assert(a[k] == n);
                }
            }
        }
        if b != a {
            assert forall|i: int, j: int| 0 <= i < b.len() && 0 <= j < b.len() && i != j implies b[i]
                != b[j] by {
                if i < a.len() && j < a.len() {
                    assert(b[i] == a[i] && b[j] == a[j]);
                } else if i < a.len() {
                    assert(a.contains(a[i]));
                } else {
                    assert(a.contains(a[j]));
                }
            }
        }
    }
}

/// A list that was added to is in the order of strings and holds what it held before and
/// what was added, as often as before and nothing else.
pub proof fn law_extended(target: Seq<Seq<char>>, names: Seq<Seq<char>>)
    ensures
        in_order::<String>(extended(target, names)),
        extended(target, names).to_multiset() == (target + names).to_multiset(),
        forall|n: Seq<char>|
            #[trigger] extended(target, names).contains(n) <==> target.contains(n)
                || names.contains(n),
{
    broadcast use vstd::seq_lib::group_to_multiset_ensures;

    let r = extended(target, names);
    let u = target + names;
    law_sorted::<String>(u);
    assert forall|n: Seq<char>| #[trigger] r.contains(n) <==> target.contains(n) || names.contains(
        n,
    ) by {
        vstd::seq_lib::to_multiset_contains(r, n);
        vstd::seq_lib::to_multiset_contains(u, n);
        vstd::seq_lib::lemma_seq_concat_contains_all_elements(target, names, n);
    }
}

/// What is left after a removal is what was there but for the names that were removed.
pub proof fn law_without(target: Seq<Seq<char>>, names: Seq<Seq<char>>, n: Seq<char>)
    ensures
        without(target, names).contains(n) <==> target.contains(n) && !names.contains(n),
{
    lemma_filter_contains(target, |x: Seq<char>| !names.contains(x), n);
}

/// To ask a second time for what was installed adds nothing.
pub proof fn law_installed_once(target: Seq<Seq<char>>, install: Seq<Seq<char>>)
    ensures
        fresh(extended(target, fresh(target, install)), install) == Seq::<Seq<char>>::empty(),
{
    let names = fresh(target, install);
    let after = extended(target, names);
    let again = fresh(after, install);
    law_fresh(target, install);
    law_fresh(after, install);
    law_extended(target, names);
    if again.len() > 0 {
        let n = again[0];
        assert(again.contains(n));
        assert(names.contains(n) <==> install.contains(n) && !target.contains(n));
        assert(after.contains(n) <==> target.contains(n) || names.contains(n));
    }
    assert(again =~= Seq::<Seq<char>>::empty());
}

proof fn lemma_placed_filter(s: Seq<Seq<char>>, x: Seq<char>, f: spec_fn(Seq<char>) -> bool)
    requires
        !f(x),
    ensures
        placed::<String>(s, x).filter(f) == s.filter(f),
    decreases s.len(),
{
    if s.len() > 0 && String::ranks(x, s.last()) {
        let t = s.drop_last();
        lemma_placed_filter(t, x, f);
        assert(s == t.push(s.last()));
        t.lemma_filter_push(s.last(), f);
        placed::<String>(t, x).lemma_filter_push(s.last(), f);
    } else {
        s.lemma_filter_push(x, f);
    }
}

proof fn lemma_extended_filter(
    target: Seq<Seq<char>>,
    names: Seq<Seq<char>>,
    f: spec_fn(Seq<char>) -> bool,
)
    requires
        forall|i: int| 0 <= i < names.len() ==> !f(#[trigger] names[i]),
    ensures
        extended(target, names).filter(f) == sorted::<String>(target).filter(f),
    decreases names.len(),
{
    let u = target + names;
    if names.len() == 0 {
        assert(u == target);
    } else {
        let t = names.drop_last();
        assert forall|i: int| 0 <= i < t.len() implies !f(#[trigger] t[i]) by {
            assert(t[i] == names[i]);
        }
        lemma_extended_filter(target, t, f);
        assert(u.drop_last() == target + t);
        assert(u.last() == names.last());
        assert(!f(names[names.len() - 1]));
        lemma_placed_filter(extended(target, t), names.last(), f);
    }
}

proof fn lemma_sorted_in_order(s: Seq<Seq<char>>)
    requires
        in_order::<String>(s),
    ensures
        sorted::<String>(s) == s,
    decreases s.len(),
{
    if s.len() > 0 {
        let t = s.drop_last();
        assert(in_order::<String>(t)) by {
            assert forall|i: int, j: int| 0 <= i < j < t.len() implies !String::ranks(
                #[trigger] t[j],
                #[trigger] t[i],
            ) by {
                assert(t[j] == s[j] && t[i] == s[i]);
            }
        }
        lemma_sorted_in_order(t);
        if t.len() > 0 {
            assert(!String::ranks(s[s.len() - 1], s[t.len() - 1]));
        }
        assert(s == t.push(s.last()));
    }
}

proof fn lemma_all_removable(target: Seq<Seq<char>>, names: Seq<Seq<char>>)
    requires
        names.no_duplicates(),
        forall|i: int| 0 <= i < names.len() ==> target.contains(#[trigger] names[i]),
    ensures
        removable(target, names) == names.len(),
    decreases names.len(),
{
    if names.len() > 0 {
        let t = names.drop_last();
        assert forall|i: int| 0 <= i < t.len() implies target.contains(#[trigger] t[i]) by {
            assert(t[i] == names[i]);
        }
        lemma_all_removable(target, t);
        assert(target.contains(names[names.len() - 1]));
        if t.contains(names.last()) {
            let k = choose|k: int| 0 <= k < t.len() && t[k] == names.last();
            assert(names[k] == names[names.len() - 1]);
        }
    }
}

/// To remove what was installed can always be done and brings the list back: what was
/// there before, in the order of strings, and unchanged where it was in that order.
pub proof fn law_removal_undoes_installation(target: Seq<Seq<char>>, install: Seq<Seq<char>>)
    ensures
        removable(extended(target, fresh(target, install)), fresh(target, install)) == fresh(
            target,
            install,
        ).len(),
        without(extended(target, fresh(target, install)), fresh(target, install)) == sorted::<
            String,
        >(target),
        in_order::<String>(target) ==> without(
            extended(target, fresh(target, install)),
            fresh(target, install),
        ) == target,
{
    let names = fresh(target, install);
    let after = extended(target, names);
    law_fresh(target, install);
    law_extended(target, names);
    assert forall|i: int| 0 <= i < names.len() implies after.contains(#[trigger] names[i]) by {
        assert(names.contains(names[i]));
    }
    lemma_all_removable(after, names);
    let f = |n: Seq<char>| !names.contains(n);
    assert forall|i: int| 0 <= i < names.len() implies !f(#[trigger] names[i]) by {
        assert(names.contains(names[i]));
    }
    lemma_extended_filter(target, names, f);
    let s = sorted::<String>(target);
    law_extended(target, Seq::empty());
    assert(target + Seq::<Seq<char>>::empty() == target);
    assert forall|i: int| 0 <= i < s.len() implies f(#[trigger] s[i]) by {
        assert(s.contains(s[i]));
        assert(extended(target, Seq::empty()).contains(s[i]) <==> target.contains(s[i])
            || Seq::<Seq<char>>::empty().contains(s[i]));
        assert(names.contains(s[i]) <==> install.contains(s[i]) && !target.contains(s[i]));
    }
    lemma_filter_keeps(s, f);
    if in_order::<String>(target) {
        lemma_sorted_in_order(target);
    }
}

/// A name that is not in the list, or was taken out before, is where a removal ends; the
/// names in front of it can all be taken out.
pub proof fn law_removable(target: Seq<Seq<char>>, remove: Seq<Seq<char>>)
    ensures
        removable(target, remove) <= remove.len(),
        forall|i: int|
            0 <= i < removable(target, remove) ==> target.contains(#[trigger] remove[i])
                && !remove.take(i).contains(remove[i]),
        removable(target, remove) < remove.len() ==> {
            let k = removable(target, remove) as int;
            !target.contains(remove[k]) || remove.take(k).contains(remove[k])
        },
    decreases remove.len(),
{
    if remove.len() > 0 {
        let t = remove.drop_last();
        let k = removable(target, remove);
        law_removable(target, t);
        lemma_removable_bound(target, remove);
        assert(t == remove.take(remove.len() - 1));
        assert forall|i: int| 0 <= i < k implies target.contains(#[trigger] remove[i])
            && !remove.take(i).contains(remove[i]) by {
            if i < t.len() {
                assert(t[i] == remove[i]);
                assert(t.take(i) == remove.take(i));
            }
        }
        if k < t.len() {
            assert(t[k as int] == remove[k as int]);
            assert(t.take(k as int) == remove.take(k as int));
        }
    }
}

/// The names to add are taken from the request in its order, each where it stands first,
/// and none that the list already holds; every other name of the request is one of them.
pub proof fn law_fresh_in_order(target: Seq<Seq<char>>, install: Seq<Seq<char>>) -> (at: Seq<int>)
    ensures
        at.len() == fresh(target, install).len(),
        forall|i: int|
            0 <= i < at.len() ==> 0 <= #[trigger] at[i] < install.len() && fresh(target, install)[i]
                == install[at[i]] && !install.take(at[i]).contains(install[at[i]])
                && !target.contains(install[at[i]]),
        forall|i: int, j: int| 0 <= i < j < at.len() ==> #[trigger] at[i] < #[trigger] at[j],
        forall|k: int|
            0 <= k < install.len() && !install.take(k).contains(#[trigger] install[k])
                && !target.contains(install[k]) ==> at.contains(k),
    decreases install.len(),
{
    if install.len() == 0 {
        Seq::empty()
    } else {
        let t = install.drop_last();
        let x = install.last();
        let n = install.len() - 1;
        let b = law_fresh_in_order(target, t);
        let names = fresh(target, t);
        law_fresh(target, t);
        assert(t == install.take(n));
        assert(names.contains(x) <==> t.contains(x) && !target.contains(x));
        let new = !target.contains(x) && !names.contains(x);
        let at = if new {
            b.push(n)
        } else {
            b
        };
        assert forall|i: int| 0 <= i < at.len() implies 0 <= #[trigger] at[i] < install.len()
            && fresh(target, install)[i] == install[at[i]] && !install.take(at[i]).contains(
            install[at[i]],
        ) && !target.contains(install[at[i]]) by {
            if i < b.len() {
                assert(at[i] == b[i]);
                assert(t[b[i]] == install[b[i]]);
                assert(t.take(b[i]) == install.take(b[i]));
            }
        }
        assert forall|i: int, j: int| 0 <= i < j < at.len() implies #[trigger] at[i]
            < #[trigger] at[j] by {
            assert(at[i] == b[i]);
            if j < b.len() {
                assert(at[j] == b[j]);
            }
        }
        assert forall|k: int|
            0 <= k < install.len() && !install.take(k).contains(#[trigger] install[k])
                && !target.contains(install[k]) implies at.contains(k) by {
            if k < n {
                assert(t[k] == install[k]);
                assert(t.take(k) == install.take(k));
                assert(b.contains(k));
                let i = choose|i: int| 0 <= i < b.len() && b[i] == k;
                assert(at[i] == k);
            } else {
                assert(at[b.len() as int] == k);
            }
        }
        at
    }
}

/// The list after a change is in order and holds each name as often as the list before and
/// the names that were added do together, but for the names to remove, which it does not
/// hold at all.
pub proof fn law_changed_list(
    target: Seq<Seq<char>>,
    names: Seq<Seq<char>>,
    remove: Seq<Seq<char>>,
    name: Seq<char>,
)
    ensures
        ({
            let r = without(extended(target, names), remove);
            &&& forall|i: int, j: int| 0 <= i < j < r.len() ==> !before(#[trigger] r[j], #[trigger] r[i])
            &&& r.to_multiset().count(name) == if remove.contains(name) {
                0
            } else {
                target.to_multiset().count(name) + names.to_multiset().count(name)
            }
        }),
{
    let g = extended(target, names);
    let f = |n: Seq<char>| !remove.contains(n);
    law_sorted::<String>(target + names);
    vstd::seq_lib::lemma_multiset_commutative(target, names);
    lemma_filter_order(g, f);
    lemma_filter_count(g, f, name);
}

proof fn lemma_filter_order(s: Seq<Seq<char>>, f: spec_fn(Seq<char>) -> bool)
    requires
        in_order::<String>(s),
    ensures
        in_order::<String>(s.filter(f)),
    decreases s.len(),
{
    reveal(Seq::filter);
    if s.len() > 0 {
        let t = s.drop_last();
        assert(in_order::<String>(t)) by {
            assert forall|i: int, j: int| 0 <= i < j < t.len() implies !String::ranks(
                #[trigger] t[j],
                #[trigger] t[i],
            ) by {
                assert(t[j] == s[j] && t[i] == s[i]);
            }
        }
        lemma_filter_order(t, f);
        let r = s.filter(f);
        let q = t.filter(f);
        assert forall|i: int, j: int| 0 <= i < j < r.len() implies !String::ranks(
            #[trigger] r[j],
            #[trigger] r[i],
        ) by {
            if j < q.len() {
                assert(r[j] == q[j] && r[i] == q[i]);
            } else {
                assert(r[i] == q[i]);
                assert(q.contains(q[i]));
                lemma_filter_contains(t, f, q[i]);
                let k = choose|k: int| 0 <= k < t.len() && t[k] == q[i];
                assert(!String::ranks(s[s.len() - 1], s[k]));
            }
        }
    }
}

proof fn lemma_filter_count(s: Seq<Seq<char>>, f: spec_fn(Seq<char>) -> bool, x: Seq<char>)
    ensures
        s.filter(f).to_multiset().count(x) == if f(x) {
            s.to_multiset().count(x)
        } else {
            0
        },
    decreases s.len(),
{
    broadcast use vstd::seq_lib::group_to_multiset_ensures;

    reveal(Seq::filter);
    if s.len() > 0 {
        let t = s.drop_last();
        lemma_filter_count(t, f, x);
        assert(s == t.push(s.last()));
    }
}

/// What is left when names are taken out of a list stands in the order in which it stood:
/// every entry that is none of them, and no other.
pub proof fn law_without_keeps_order(target: Seq<Seq<char>>, names: Seq<Seq<char>>) -> (at: Seq<int>)
    ensures
        at.len() == without(target, names).len(),
        forall|i: int|
            0 <= i < at.len() ==> 0 <= #[trigger] at[i] < target.len() && without(target, names)[i]
                == target[at[i]] && !names.contains(target[at[i]]),
        forall|i: int, j: int| 0 <= i < j < at.len() ==> #[trigger] at[i] < #[trigger] at[j],
        forall|k: int|
            0 <= k < target.len() && !names.contains(#[trigger] target[k]) ==> at.contains(k),
    decreases target.len(),
{
    reveal(Seq::filter);
    if target.len() == 0 {
        Seq::empty()
    } else {
        let t = target.drop_last();
        let n = target.len() - 1;
        let b = law_without_keeps_order(t, names);
        let at = if names.contains(target.last()) {
            b
        } else {
            b.push(n)
        };
        assert forall|i: int| 0 <= i < at.len() implies 0 <= #[trigger] at[i] < target.len()
            && without(target, names)[i] == target[at[i]] && !names.contains(target[at[i]]) by {
            if i < b.len() {
                assert(at[i] == b[i]);
                assert(t[b[i]] == target[b[i]]);
            }
        }
        assert forall|i: int, j: int| 0 <= i < j < at.len() implies #[trigger] at[i]
            < #[trigger] at[j] by {
            assert(at[i] == b[i]);
            if j < b.len() {
                assert(at[j] == b[j]);
            }
        }
        assert forall|k: int|
            0 <= k < target.len() && !names.contains(#[trigger] target[k]) implies at.contains(k) by {
            if k < n {
                assert(t[k] == target[k]);
                assert(b.contains(k));
                let i = choose|i: int| 0 <= i < b.len() && b[i] == k;
                assert(at[i] == k);
            } else {
                assert(at[b.len() as int] == k);
            }
        }
        at
    }
}

} // verus!
