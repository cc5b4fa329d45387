//! What holds of texts, their lines and their words.

use crate::text::{
    before, behind_last, decimal, digit, found_at, is_white_space, join, lemma_before_total,
    lemma_found_at, lemma_line_len_is, lemma_trim_end_range, lemma_trim_start_range, lines, occurs,
    trim, trim_end, trim_start, two_digits, words,
};
use vstd::prelude::*;

verus! {

/// A text stands in another where the other is the text with something in front and
/// something behind.
pub proof fn law_occurs(p: Seq<char>, s: Seq<char>)
    ensures
        occurs(p, s) <==> exists|a: Seq<char>, b: Seq<char>| s == #[trigger] (a + p + b),
{
    if occurs(p, s) {
        let i = choose|i: int| 0 <= i <= s.len() - p.len() && #[trigger] s.subrange(i, i + p.len()) == p;
        let (a, b) = (s.take(i), s.skip(i + p.len()));
        assert(s == a + p + b);
    }
    if exists|a: Seq<char>, b: Seq<char>| s == #[trigger] (a + p + b) {
        let (a, b) = choose|a: Seq<char>, b: Seq<char>| s == #[trigger] (a + p + b);
        law_stands_inside(a, p, b);
    }
}

/// A text stands in any text that is made of it with something around it.
pub proof fn law_stands_inside(a: Seq<char>, p: Seq<char>, b: Seq<char>)
    ensures
        occurs(p, a + p + b),
{
    let s = a + p + b;
    let i = a.len() as int;
    assert(s.subrange(i, i + p.len()) == p);
}

/// Whether `p` stands in `s` at the place `k`.
pub open spec fn stands_at(p: Seq<char>, s: Seq<char>, k: int) -> bool {
    p.is_prefix_of(s.skip(k))
}

proof fn lemma_stands_at(p: Seq<char>, s: Seq<char>, k: int)
    requires
        0 <= k <= s.len(),
    ensures
        stands_at(p, s, k) <==> k + p.len() <= s.len() && s.subrange(k, k + p.len()) == p,
{
    if k + p.len() <= s.len() {
        assert(s.skip(k).take(p.len() as int) == s.subrange(k, k + p.len()));
    }
}

/// A text is found at the first place at which it stands, and nowhere where it stands at
/// none.
pub proof fn law_found_first(p: Seq<char>, s: Seq<char>, n: int)
    requires
        0 <= n <= s.len(),
        stands_at(p, s, n),
        forall|k: int| 0 <= k < n ==> !#[trigger] stands_at(p, s, k),
    ensures
        found_at(p, s) == Some(n),
{
    lemma_stands_at(p, s, n);
    lemma_found_at(p, s);
    let m = found_at(p, s)->0;
    lemma_stands_at(p, s, m);
    if m < n {
        assert(stands_at(p, s, m));
    } else if n < m {
        assert(s.subrange(n, n + p.len()) != p);
    }
}

/// Two different characters, one behind the other, are found behind a text that does not
/// hold them.
pub proof fn law_pair_found(a: Seq<char>, p: Seq<char>, b: Seq<char>)
    requires
        p.len() == 2,
        p[0] != p[1],
        !occurs(p, a),
    ensures
        found_at(p, a + p + b) == Some(a.len() as int),
{
    let s = a + p + b;
    let n = a.len() as int;
    assert(s.skip(n) == p + b);
    assert((p + b).take(2) == p);
    assert forall|k: int| 0 <= k < n implies !#[trigger] stands_at(p, s, k) by {
        lemma_stands_at(p, s, k);
        if stands_at(p, s, k) {
            assert(s.subrange(k, k + 2)[0] == s[k]);
            assert(s.subrange(k, k + 2)[1] == s[k + 1]);
            if k + 2 <= n {
                assert(a.subrange(k, k + p.len()) == p);
            } else {
                assert(s[k + 1] == p[0]);
            }
        }
    }
    law_found_first(p, s, n);
}

/// Trimming takes white space off both ends and leaves none there.
pub proof fn law_trim(s: Seq<char>)
    ensures
        ({
            let n = s.len() - trim_start(s).len();
            &&& 0 <= n <= s.len()
            &&& trim_start(s) == s.skip(n)
            &&& forall|i: int| 0 <= i < n ==> is_white_space(#[trigger] s[i])
            &&& n < s.len() ==> !is_white_space(s[n])
        }),
        ({
            let t = trim_start(s);
            let n = trim(s).len();
            &&& n <= t.len()
            &&& trim(s) == t.take(n as int)
            &&& forall|i: int| n <= i < t.len() ==> is_white_space(#[trigger] t[i])
            &&& n > 0 ==> !is_white_space(t[n - 1])
        }),
{
    lemma_start(s);
    lemma_end(trim_start(s));
}

proof fn lemma_start(s: Seq<char>)
    ensures
        ({
            let n = s.len() - trim_start(s).len();
            &&& 0 <= n <= s.len()
            &&& trim_start(s) == s.skip(n)
            &&& forall|i: int| 0 <= i < n ==> is_white_space(#[trigger] s[i])
            &&& n < s.len() ==> !is_white_space(s[n])
        }),
    decreases s.len(),
{
    lemma_trim_start_range(s);
    let n = s.len() - trim_start(s).len();
    if s.len() > 0 && is_white_space(s[0]) {
        let t = s.drop_first();
        lemma_start(t);
        assert forall|i: int| 0 <= i < n implies is_white_space(#[trigger] s[i]) by {
            if i > 0 {
                assert(t[i - 1] == s[i]);
            }
        }
        if n < s.len() {
            assert(t[n - 1] == s[n]);
        }
    }
}

proof fn lemma_end(s: Seq<char>)
    ensures
        ({
            let n = trim_end(s).len();
            &&& n <= s.len()
            &&& trim_end(s) == s.take(n as int)
            &&& forall|i: int| n <= i < s.len() ==> is_white_space(#[trigger] s[i])
            &&& n > 0 ==> !is_white_space(s[n - 1])
        }),
    decreases s.len(),
{
    lemma_trim_end_range(s);
    let n = trim_end(s).len();
    if s.len() > 0 && is_white_space(s.last()) {
        let t = s.drop_last();
        lemma_end(t);
        assert forall|i: int| n <= i < s.len() implies is_white_space(#[trigger] s[i]) by {
            if i < t.len() {
                assert(t[i] == s[i]);
            }
        }
        if n > 0 {
            assert(t[n - 1] == s[n - 1]);
        }
    }
}

/// A line is what stands before a line feed, without a carriage return at its end; the
/// lines behind the line feed are those of the rest. A text without a line feed is a line
/// as it is.
pub proof fn law_lines(line: Seq<char>, rest: Seq<char>)
    requires
        !line.contains('\n'),
    ensures
        lines(line + seq!['\n'] + rest) == seq![
            if line.len() > 0 && line.last() == '\r' {
                line.drop_last()
            } else {
                line
            },
        ] + lines(rest),
        line.len() > 0 ==> lines(line) == seq![line],
        lines(Seq::<char>::empty()) == Seq::<Seq<char>>::empty(),
{
    let s = line + seq!['\n'] + rest;
    let n = line.len();
    assert forall|i: int| 0 <= i < n implies s[i] != '\n' && line[i] != '\n' by {
        assert(line.contains(line[i]));
    }
    lemma_line_len_is(s, n);
    lemma_line_len_is(line, n);
    assert(s.take(n as int) == line);
    assert(s.skip(n as int + 1) == rest);
}

/// Two words are apart where there is white space between them; a run without white space
/// is one word.
pub proof fn law_words(a: Seq<char>, c: char, b: Seq<char>)
    requires
        is_white_space(c),
    ensures
        words(a.push(c) + b) == words(a) + words(b),
        (forall|i: int| 0 <= i < a.len() ==> !is_white_space(#[trigger] a[i])) && a.len() > 0
            ==> words(a) == seq![a],
        words(Seq::<char>::empty()) == Seq::<Seq<char>>::empty(),
{
    lemma_words_add(a.push(c), b);
    assert(a.push(c).drop_last() == a);
    if (forall|i: int| 0 <= i < a.len() ==> !is_white_space(#[trigger] a[i])) && a.len() > 0 {
        lemma_one_word(a);
    }
}

proof fn lemma_words_add(a: Seq<char>, b: Seq<char>)
    requires
        a.len() > 0,
        is_white_space(a.last()),
    ensures
        words(a + b) == words(a) + words(b),
    decreases b.len(),
{
    let s = a + b;
    if b.len() == 0 {
        assert(s == a);
        assert(words(a) + words(b) == words(a));
    } else {
        let t = b.drop_last();
        lemma_words_add(a, t);
        assert(s.drop_last() == a + t);
        let (u, v, w) = (words(a), words(t), words(b));
        crate::text::lemma_words(t);
        if is_white_space(b.last()) {
        } else if t.len() > 0 && !is_white_space(t.last()) {
            assert((a + t).last() == t.last());
            assert((u + v).drop_last().push((u + v).last().push(b.last())) == u + v.drop_last().push(
                v.last().push(b.last()),
            ));
        } else {
            if t.len() == 0 {
                assert((a + t).last() == a.last());
            } else {
                assert((a + t).last() == t.last());
            }
            assert((u + v).push(seq![b.last()]) == u + v.push(seq![b.last()]));
        }
    }
}

proof fn lemma_one_word(a: Seq<char>)
    requires
        a.len() > 0,
        forall|i: int| 0 <= i < a.len() ==> !is_white_space(#[trigger] a[i]),
    ensures
        words(a) == seq![a],
    decreases a.len(),
{
    let t = a.drop_last();
    assert(!is_white_space(a[a.len() - 1]));
    if t.len() > 0 {
        assert forall|i: int| 0 <= i < t.len() implies !is_white_space(#[trigger] t[i]) by {
            assert(t[i] == a[i]);
        }
        lemma_one_word(t);
        assert(!is_white_space(t[t.len() - 1]));
        assert(t.push(a.last()) == a);
        assert(seq![t].drop_last().push(a) == seq![a]);
    } else {
        assert(words(t) == Seq::<Seq<char>>::empty());
        assert(seq![a.last()] == a);
    }
}

/// What stands behind the last of a character is what stands behind one that none follows.
pub proof fn law_behind_last(a: Seq<char>, c: char, b: Seq<char>)
    requires
        !b.contains(c),
    ensures
        behind_last(a.push(c) + b, c) == b,
        behind_last(b, c) == b,
    decreases b.len(),
{
    let s = a.push(c) + b;
    if b.len() == 0 {
        assert(s.last() == c);
        assert(behind_last(s, c) == b);
        assert(behind_last(b, c) == b);
    } else {
        let t = b.drop_last();
        assert(!t.contains(c)) by {
            if t.contains(c) {
                let k = choose|k: int| 0 <= k < t.len() && t[k] == c;
                assert(b[k] == c);
            }
        }
        law_behind_last(a, c, t);
        assert(b[b.len() - 1] != c);
        assert(s.drop_last() == a.push(c) + t);
        assert(t.push(b.last()) == b);
    }
}

/// Joined texts stand one behind the other, with the separator between neighbours only.
pub proof fn law_join(parts: Seq<Seq<char>>, last: Seq<char>, sep: Seq<char>)
    ensures
        join(Seq::empty(), sep) == Seq::<char>::empty(),
        join(seq![last], sep) == last,
        parts.len() > 0 ==> join(parts.push(last), sep) == join(parts, sep) + sep + last,
{
    assert(parts.push(last).drop_last() == parts);
}

/// The order of strings: a text comes before its extensions, and of two texts that differ
/// the one with the smaller character at the first difference comes first.
pub proof fn law_before(p: Seq<char>, c: char, x: Seq<char>, d: char, y: Seq<char>)
    ensures
        !before(p, p),
        before(p, p.push(c) + x) && !before(p.push(c) + x, p),
        c < d ==> before(p.push(c) + x, p.push(d) + y) && !before(p.push(d) + y, p.push(c) + x),
    decreases p.len(),
{
    let (u, v) = (p.push(c) + x, p.push(d) + y);
    lemma_before_total(p, u);
    lemma_before_total(u, v);
    lemma_before_total(p, p);
    if p.len() == 0 {
        assert(u[0] == c && v[0] == d);
    } else {
        let q = p.drop_first();
        law_before(q, c, x, d, y);
        assert(u.drop_first() == q.push(c) + x);
        assert(v.drop_first() == q.push(d) + y);
        assert(u[0] == p[0] && v[0] == p[0]);
    }
}

/// The number that a text of decimal digits stands for.
pub open spec fn number(s: Seq<char>) -> int
    decreases s.len(),
{
    if s.len() == 0 {
        0
    } else {
        10 * number(s.drop_last()) + (s.last() as int - '0' as int)
    }
}

/// The decimal digits of a number stand for it and have no needless zero in front; with a
/// zero in front of a single digit they are two at least.
pub proof fn law_decimal(n: nat)
    ensures
        number(decimal(n)) == n,
        decimal(n).len() > 0,
        decimal(n).len() > 1 ==> decimal(n)[0] != '0',
        forall|i: int| 0 <= i < decimal(n).len() ==> '0' <= #[trigger] decimal(n)[i] <= '9',
        n < 10 ==> two_digits(n) == seq!['0'] + decimal(n),
        n >= 10 ==> two_digits(n) == decimal(n),
    decreases n,
{
    let s = decimal(n);
    reveal_with_fuel(number, 2);
    if n < 10 {
        assert(s.drop_last() == Seq::<char>::empty());
    } else {
        law_decimal(n / 10);
        assert(s.drop_last() == decimal(n / 10));
        if n / 10 < 10 {
            assert(s[0] == digit(n / 10));
        }
    }
}

} // verus!
