//! The command line: grouped short flags.

use crate::order::lemma_filter_keeps;
use crate::text::{chars_of, views};
use vstd::prelude::*;
use vstd::string::*;

verus! {

/// Whether the short flag `c` takes the text behind it as its value.
pub open spec fn value_flag(c: char) -> bool {
    c == 'i' || c == 'r'
}

/// Whether `arg` is a group of short flags: a single dash in front.
pub open spec fn is_group(arg: Seq<char>) -> bool {
    arg.len() > 0 && arg[0] == '-' && !(arg.len() > 1 && arg[1] == '-')
}

/// `arg`, where it is a group of short flags with those that take a value moved to the end.
pub open spec fn reordered(arg: Seq<char>) -> Seq<char> {
    if is_group(arg) {
        let flags = arg.drop_first();
        seq!['-'] + flags.filter(|c: char| !value_flag(c)) + flags.filter(|c: char| value_flag(c))
    } else {
        arg
    }
}

/// Appends to `out` the flags that take a value, or those that do not.
fn push_flags(out: &mut String, arg: &Vec<char>, takes_value: bool)
    requires
        arg@.len() > 0,
    ensures
        final(out)@ == old(out)@ + arg@.drop_first().filter(
            |c: char| value_flag(c) == takes_value,
        ),
{
    let ghost f = |c: char| value_flag(c) == takes_value;
    let ghost flags = arg@.drop_first();
    assert(flags.take(0).filter(f) == Seq::<char>::empty()) by {
        reveal(Seq::filter);
    }
    for i in 1..arg.len()
        invariant
            arg@.len() > 0,
            flags == arg@.drop_first(),
            f == (|c: char| value_flag(c) == takes_value),
            out@ == old(out)@ + flags.take(i - 1).filter(f),
    {
        let c: char = arg[i];
        proof {
            assert(flags.take(i as int) == flags.take(i - 1).push(c));
            flags.take(i - 1).lemma_filter_push(c, f);
        }
        if (c == 'i' || c == 'r') == takes_value {
            out.push(c);
        }
    }
    assert(flags.take(arg@.len() - 1) == flags);
}

/// Moves the short flags that take a value (`-i`, `-r`) to the end of the group in which
/// they stand, as in `-ip`, which becomes `-pi`: what follows them in the group is a flag,
/// not their value.
pub fn reorder_args(args: Vec<String>) -> (r: Vec<String>)
    ensures
        views(r@) == views(args@).map_values(|a: Seq<char>| reordered(a)),
{
    let mut out: Vec<String> = Vec::new();
    let ghost g = |a: Seq<char>| reordered(a);
    for i in 0..args.len()
        invariant
            g == (|a: Seq<char>| reordered(a)),
            views(out@) == views(args@).take(i as int).map_values(g),
    {
        let arg = chars_of(args[i].as_str());
        let mut s = String::new();
        if arg.len() > 0 && arg[0] == '-' && !(arg.len() > 1 && arg[1] == '-') {
            s.push('-');
            push_flags(&mut s, &arg, false);
            push_flags(&mut s, &arg, true);
            proof {
                assert((|c: char| value_flag(c) == false) =~= (|c: char| !value_flag(c)));
                assert((|c: char| value_flag(c) == true) =~= (|c: char| value_flag(c)));
                assert(s@ == reordered(arg@));
            }
        } else {
            s.append(args[i].as_str());
            assert(s@ == arg@);
        }
        proof {
            assert(views(args@).take(i + 1).map_values(g) == views(args@).take(
                i as int,
            ).map_values(g).push(s@));
            assert(views(out@.push(s)) == views(out@).push(s@));
        }
        out.push(s);
    }
    assert(views(args@).take(args@.len() as int) == views(args@));
    out
}

/// Reordering loses no flag and adds none.
pub proof fn law_reordered_keeps_flags(arg: Seq<char>)
    ensures
        reordered(arg).to_multiset() == arg.to_multiset(),
{
    if is_group(arg) {
        let flags = arg.drop_first();
        let a = flags.filter(|c: char| !value_flag(c));
        let b = flags.filter(|c: char| value_flag(c));
        lemma_parts(flags);
        assert(arg == seq!['-'] + flags);
        assert(reordered(arg) == seq!['-'] + (a + b));
        vstd::seq_lib::lemma_multiset_commutative(seq!['-'], a + b);
        vstd::seq_lib::lemma_multiset_commutative(a, b);
        vstd::seq_lib::lemma_multiset_commutative(seq!['-'], flags);
    }
}

proof fn lemma_parts(flags: Seq<char>)
    ensures
        flags.filter(|c: char| !value_flag(c)).to_multiset().add(
            flags.filter(|c: char| value_flag(c)).to_multiset(),
        ) == flags.to_multiset(),
    decreases flags.len(),
{
    broadcast use vstd::seq_lib::group_to_multiset_ensures;

    let n = |c: char| !value_flag(c);
    let v = |c: char| value_flag(c);
    if flags.len() == 0 {
        reveal(Seq::filter);
        assert(flags.filter(n).to_multiset().add(flags.filter(v).to_multiset())
            =~= flags.to_multiset());
    } else {
        let t = flags.drop_last();
        lemma_parts(t);
        assert(flags == t.push(flags.last()));
        t.lemma_filter_push(flags.last(), n);
        t.lemma_filter_push(flags.last(), v);
        assert(flags.filter(n).to_multiset().add(flags.filter(v).to_multiset())
            =~= flags.to_multiset());
    }
}

/// In a reordered group no flag without a value stands behind one that takes a value.
pub proof fn law_reordered_values_last(arg: Seq<char>, i: int, j: int)
    requires
        is_group(arg),
        0 < i < j < reordered(arg).len(),
        value_flag(reordered(arg)[i]),
    ensures
        value_flag(reordered(arg)[j]),
{
    let flags = arg.drop_first();
    let n = |c: char| !value_flag(c);
    let v = |c: char| value_flag(c);
    let a = flags.filter(n);
    let b = flags.filter(v);
    let r = reordered(arg);
    if i <= a.len() {
        flags.lemma_filter_pred(n, i - 1);
        assert(r[i] == a[i - 1]);
    }
    assert(r[j] == b[j - 1 - a.len()]);
    flags.lemma_filter_pred(v, j - 1 - a.len());
}

proof fn lemma_filter_none(s: Seq<char>, f: spec_fn(char) -> bool)
    requires
        forall|i: int| 0 <= i < s.len() ==> !f(#[trigger] s[i]),
    ensures
        s.filter(f) == Seq::<char>::empty(),
    decreases s.len(),
{
    reveal(Seq::filter);
    if s.len() > 0 {
        let t = s.drop_last();
        assert forall|i: int| 0 <= i < t.len() implies !f(#[trigger] t[i]) by {
            assert(t[i] == s[i]);
        }
        lemma_filter_none(t, f);
        assert(!f(s[s.len() - 1]));
    }
}

/// Reordering a second time changes nothing.
pub proof fn law_reordered_once(arg: Seq<char>)
    ensures
        reordered(reordered(arg)) == reordered(arg),
{
    let r = reordered(arg);
    if is_group(arg) && is_group(r) {
        let flags = arg.drop_first();
        let n = |c: char| !value_flag(c);
        let v = |c: char| value_flag(c);
        let a = flags.filter(n);
        let b = flags.filter(v);
        assert(r.drop_first() == a + b);
        assert forall|i: int| 0 <= i < a.len() implies n(#[trigger] a[i]) && !v(a[i]) by {
            flags.lemma_filter_pred(n, i);
        }
        assert forall|i: int| 0 <= i < b.len() implies v(#[trigger] b[i]) && !n(b[i]) by {
            flags.lemma_filter_pred(v, i);
        }
        lemma_filter_keeps(a, n);
        lemma_filter_none(a, v);
        lemma_filter_keeps(b, v);
        lemma_filter_none(b, n);
        Seq::filter_distributes_over_add(a, b, n);
        Seq::filter_distributes_over_add(a, b, v);
        assert((a + b).filter(n) == a);
        assert((a + b).filter(v) == b);
    }
}

/// In a group of short flags `-i` and `-r` move to the end; the other flags stay in their
/// order, and so do those two. What is no group stays as it is.
pub proof fn law_reordered(arg: Seq<char>)
    ensures
        arg.len() == 0 || arg[0] != '-' || arg.len() > 1 && arg[1] == '-' ==> reordered(arg) == arg,
        arg.len() > 0 && arg[0] == '-' && !(arg.len() > 1 && arg[1] == '-') ==> {
            let r = reordered(arg);
            let m = 1 + arg.skip(1).filter(|c: char| c != 'i' && c != 'r').len();
            &&& r.len() == arg.len()
            &&& r[0] == '-'
            &&& 1 <= m <= r.len()
            &&& r.subrange(1, m as int) == arg.skip(1).filter(|c: char| c != 'i' && c != 'r')
            &&& r.skip(m as int) == arg.skip(1).filter(|c: char| c == 'i' || c == 'r')
        },
{
    if is_group(arg) {
        let flags = arg.drop_first();
        let a = flags.filter(|c: char| !value_flag(c));
        let b = flags.filter(|c: char| value_flag(c));
        assert(arg.skip(1) == flags);
        assert((|c: char| !value_flag(c)) =~= (|c: char| c != 'i' && c != 'r'));
        assert((|c: char| value_flag(c)) =~= (|c: char| c == 'i' || c == 'r'));
        let r = reordered(arg);
        let m = 1 + a.len();
        law_reordered_keeps_flags(arg);
        assert(r.to_multiset().len() == r.len() && arg.to_multiset().len() == arg.len()) by {
            broadcast use vstd::seq_lib::group_to_multiset_ensures;

        }
        assert(r.subrange(1, m as int) == a);
        assert(r.skip(m as int) == b);
    }
}

} // verus!
