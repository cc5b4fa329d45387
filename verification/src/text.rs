//! Text as sequences of characters: trimming, splitting into lines, searching.

use vstd::prelude::*;
use vstd::slice::*;
use vstd::string::*;

verus! {

/// `String::push` appends one character to the string and changes nothing else.
pub assume_specification[ String::push ](s: &mut String, c: char)
    ensures
        final(s)@ == old(s)@.push(c),
;

/// The characters that Unicode gives the `White_Space` property.
pub open spec fn is_white_space(c: char) -> bool {
    ||| '\u{9}' <= c <= '\u{d}'
    ||| c == ' '
    ||| c == '\u{85}'
    ||| c == '\u{a0}'
    ||| c == '\u{1680}'
    ||| '\u{2000}' <= c <= '\u{200a}'
    ||| c == '\u{2028}'
    ||| c == '\u{2029}'
    ||| c == '\u{202f}'
    ||| c == '\u{205f}'
    ||| c == '\u{3000}'
}

/// Whether `c` is white space.
pub fn white_space(c: char) -> (b: bool)
    ensures
        b == is_white_space(c),
{
    ('\u{9}' <= c && c <= '\u{d}') || c == ' ' || c == '\u{85}' || c == '\u{a0}' || c == '\u{1680}'
        || ('\u{2000}' <= c && c <= '\u{200a}') || c == '\u{2028}' || c == '\u{2029}' || c
        == '\u{202f}' || c == '\u{205f}' || c == '\u{3000}'
}

/// The characters of `s`, in order.
pub fn chars_of(s: &str) -> (v: Vec<char>)
    ensures
        v@ == s@,
{
    let mut v: Vec<char> = Vec::new();
    for c in it: s.chars()
        invariant
            v@ == s@.take(it.index() as int),
            it.seq() == s@,
    {
        v.push(c);
    }
    v
}

/// The string that holds the characters `cs`.
pub fn string_of(cs: &[char]) -> (s: String)
    ensures
        s@ == cs@,
{
    let mut s = String::new();
    for i in 0..cs.len()
        invariant
            s@ == cs@.take(i as int),
    {
        s.push(cs[i]);
    }
    s
}

/// The views of the strings in `v`, in order.
pub open spec fn views(v: Seq<String>) -> Seq<Seq<char>> {
    v.map_values(|s: String| s@)
}

/// The text in `s`, if any.
pub open spec fn opt_view(s: Option<String>) -> Option<Seq<char>> {
    match s {
        Some(t) => Some(t@),
        None => None,
    }
}

/// Whether the two character slices are the same text.
pub fn same(a: &[char], b: &[char]) -> (r: bool)
    ensures
        r == (a@ == b@),
{
    if a.len() != b.len() {
        return false;
    }
    for i in 0..a.len()
        invariant
            a.len() == b.len(),
            a@.take(i as int) == b@.take(i as int),
    {
        if a[i] != b[i] {
            assert(a@[i as int] != b@[i as int]);
            return false;
        }
        assert(a@.take(i + 1) == a@.take(i as int).push(a@[i as int]));
        assert(b@.take(i + 1) == b@.take(i as int).push(b@[i as int]));
    }
    assert(a@.take(a@.len() as int) == a@);
    assert(b@.take(b@.len() as int) == b@);
    true
}

/// `s` without its leading white space.
pub open spec fn trim_start(s: Seq<char>) -> Seq<char>
    decreases s.len(),
{
    if s.len() > 0 && is_white_space(s[0]) {
        trim_start(s.drop_first())
    } else {
        s
    }
}

/// `s` without its trailing white space.
pub open spec fn trim_end(s: Seq<char>) -> Seq<char>
    decreases s.len(),
{
    if s.len() > 0 && is_white_space(s.last()) {
        trim_end(s.drop_last())
    } else {
        s
    }
}

/// `s` without white space at either end.
pub open spec fn trim(s: Seq<char>) -> Seq<char> {
    trim_end(trim_start(s))
}

/// `s` without the run of `c` at its end.
pub open spec fn trim_end_char(s: Seq<char>, c: char) -> Seq<char>
    decreases s.len(),
{
    if s.len() > 0 && s.last() == c {
        trim_end_char(s.drop_last(), c)
    } else {
        s
    }
}

pub proof fn lemma_trim_start_range(s: Seq<char>)
    ensures
        trim_start(s).len() <= s.len(),
        trim_start(s) == s.skip(s.len() - trim_start(s).len()),
    decreases s.len(),
{
    if s.len() > 0 && is_white_space(s[0]) {
        lemma_trim_start_range(s.drop_first());
        assert(trim_start(s) == s.skip(s.len() - trim_start(s).len()));
    }
}

pub proof fn lemma_trim_end_range(s: Seq<char>)
    ensures
        trim_end(s).len() <= s.len(),
        trim_end(s) == s.take(trim_end(s).len() as int),
    decreases s.len(),
{
    if s.len() > 0 && is_white_space(s.last()) {
        lemma_trim_end_range(s.drop_last());
        assert(trim_end(s) == s.take(trim_end(s).len() as int));
    }
}

/// A trimmed text stands in the text.
pub proof fn lemma_trim_part(s: Seq<char>)
    ensures
        exists|a: int|
            0 <= a <= s.len() - trim(s).len() && #[trigger] s.subrange(a, a + trim(s).len()) == trim(
                s,
            ),
{
    lemma_trim_start_range(s);
    lemma_trim_end_range(trim_start(s));
    let a = s.len() - trim_start(s).len();
    assert(s.subrange(a, a + trim(s).len()) == trim(s));
}

/// Drops the leading white space of `s`.
pub fn trimmed_start(s: &[char]) -> (r: &[char])
    ensures
        r@ == trim_start(s@),
{
    let mut i: usize = 0;
    assert(s@.skip(0) == s@);
    while i < s.len() && white_space(s[i])
        invariant
            i <= s.len(),
            trim_start(s@.skip(i as int)) == trim_start(s@),
        decreases s.len() - i,
    {
        assert(s@.skip(i as int).drop_first() == s@.skip(i + 1));
        i = i + 1;
    }
    assert(s@.subrange(i as int, s@.len() as int) == s@.skip(i as int));
    &s[i..s.len()]
}

/// Drops the trailing white space of `s`.
pub fn trimmed_end(s: &[char]) -> (r: &[char])
    ensures
        r@ == trim_end(s@),
{
    let mut n: usize = s.len();
    assert(s@.take(n as int) == s@);
    while n > 0 && white_space(s[n - 1])
        invariant
            n <= s.len(),
            trim_end(s@.take(n as int)) == trim_end(s@),
        decreases n,
    {
        assert(s@.take(n as int).drop_last() == s@.take(n - 1));
        n = n - 1;
    }
    &s[0..n]
}

/// Drops the white space at both ends of `s`.
pub fn trimmed(s: &[char]) -> (r: &[char])
    ensures
        r@ == trim(s@),
{
    trimmed_end(trimmed_start(s))
}

/// Drops the run of `c` at the end of `s`.
pub fn trimmed_end_char(s: &[char], c: char) -> (r: &[char])
    ensures
        r@ == trim_end_char(s@, c),
{
    let mut n: usize = s.len();
    assert(s@.take(n as int) == s@);
    while n > 0 && s[n - 1] == c
        invariant
            n <= s.len(),
            trim_end_char(s@.take(n as int), c) == trim_end_char(s@, c),
        decreases n,
    {
        assert(s@.take(n as int).drop_last() == s@.take(n - 1));
        n = n - 1;
    }
    &s[0..n]
}

/// Whether `s` begins with `p`.
pub fn starts_with(s: &[char], p: &[char]) -> (r: bool)
    ensures
        r == p@.is_prefix_of(s@),
{
    p.len() <= s.len() && same(p, &s[0..p.len()])
}

/// Whether `s` ends with `p`.
pub fn ends_with(s: &[char], p: &[char]) -> (r: bool)
    ensures
        r == p@.is_suffix_of(s@),
{
    p.len() <= s.len() && same(p, &s[s.len() - p.len()..s.len()])
}

/// Whether `p` stands somewhere in `s`, as one run of characters.
pub open spec fn occurs(p: Seq<char>, s: Seq<char>) -> bool {
    exists|i: int| 0 <= i <= s.len() - p.len() && #[trigger] s.subrange(i, i + p.len()) == p
}

/// Whether `p` stands somewhere in `s`.
pub fn contains(s: &[char], p: &[char]) -> (r: bool)
    ensures
        r == occurs(p@, s@),
{
    if p.len() > s.len() {
        return false;
    }
    let last: usize = s.len() - p.len();
    let mut i: usize = 0;
    while i <= last
        invariant
            i <= last + 1,
            last == s.len() - p.len(),
            forall|j: int| 0 <= j < i ==> #[trigger] s@.subrange(j, j + p@.len()) != p@,
        decreases last + 1 - i,
    {
        if same(&s[i..i + p.len()], p) {
            return true;
        }
        if i == last {
            return false;
        }
        i = i + 1;
    }
    false
}

/// Trimming finds no text that was not there before.
pub proof fn lemma_trim_occurs(p: Seq<char>, s: Seq<char>)
    requires
        occurs(p, trim(s)),
    ensures
        occurs(p, s),
{
    lemma_trim_start_range(s);
    lemma_trim_end_range(trim_start(s));
    let a = s.len() - trim_start(s).len();
    let t = trim(s);
    let i = choose|i: int| 0 <= i <= t.len() - p.len() && #[trigger] t.subrange(i, i + p.len()) == p;
    assert(s.subrange(a + i, a + i + p.len()) == t.subrange(i, i + p.len()));
}

/// The place in `s` at which `p` stands first.
pub open spec fn found_at(p: Seq<char>, s: Seq<char>) -> Option<int>
    decreases s.len(),
{
    if p.is_prefix_of(s) {
        Some(0)
    } else if s.len() == 0 {
        None
    } else {
        match found_at(p, s.drop_first()) {
            Some(n) => Some(n + 1),
            None => None,
        }
    }
}

/// A text is found at the first place at which it stands, if it stands anywhere.
pub proof fn lemma_found_at(p: Seq<char>, s: Seq<char>)
    ensures
        match found_at(p, s) {
            Some(n) => 0 <= n <= s.len() - p.len() && s.subrange(n, n + p.len()) == p && forall|
                j: int,
            |
                0 <= j < n ==> #[trigger] s.subrange(j, j + p.len()) != p,
            None => !occurs(p, s),
        },
        found_at(p, s) is Some <==> occurs(p, s),
    decreases s.len(),
{
    if p.is_prefix_of(s) {
        let i: int = 0;
        assert(s.subrange(i, i + p.len()) == p);
    } else if s.len() == 0 {
        if occurs(p, s) {
            assert(s.take(0) == p);
        }
    } else {
        let t = s.drop_first();
        lemma_found_at(p, t);
        match found_at(p, t) {
            Some(n) => {
                let k = n + 1;
                assert(s.subrange(k, k + p.len()) == t.subrange(n, n + p.len()));
                assert forall|j: int| 0 <= j < k implies #[trigger] s.subrange(j, j + p.len())
                    != p by {
                    if j > 0 {
                        let i = j - 1;
                        assert(t.subrange(i, i + p.len()) == s.subrange(j, j + p.len()));
                    } else if s.subrange(j, j + p.len()) == p {
                        assert(p.is_prefix_of(s));
                    }
                }
            },
            None => {
                if occurs(p, s) {
                    let j = choose|j: int|
                        0 <= j <= s.len() - p.len() && #[trigger] s.subrange(j, j + p.len()) == p;
                    if j > 0 {
                        let i = j - 1;
                        assert(t.subrange(i, i + p.len()) == s.subrange(j, j + p.len()));
                    } else {
                        assert(p.is_prefix_of(s));
                    }
                }
            },
        }
    }
}

/// A text is found where it stands, if its first character is nowhere before.
pub proof fn lemma_found_at_is(p: Seq<char>, s: Seq<char>, n: int)
    requires
        p.len() > 0,
        0 <= n <= s.len() - p.len(),
        s.subrange(n, n + p.len()) == p,
        forall|j: int| 0 <= j < n ==> s[j] != p[0],
    ensures
        found_at(p, s) == Some(n),
{
    lemma_found_at(p, s);
    let m = found_at(p, s)->0;
    if m < n {
        assert(s.subrange(m, m + p.len())[0] == s[m]);
    } else if m > n {
        assert(s.subrange(n, n + p.len()) == p);
    }
}

/// The place in `s` at which `p` stands first.
pub fn position(s: &[char], p: &[char]) -> (r: Option<usize>)
    ensures
        match r {
            Some(n) => found_at(p@, s@) == Some(n as int),
            None => found_at(p@, s@) is None,
        },
{
    let mut i: usize = 0;
    assert(s@.skip(0) == s@);
    while i < s.len()
        invariant
            i <= s.len(),
            found_at(p@, s@) == match found_at(p@, s@.skip(i as int)) {
                Some(n) => Some(n + i as int),
                None => None,
            },
        decreases s.len() - i,
    {
        if starts_with(&s[i..s.len()], p) {
            assert(s@.subrange(i as int, s@.len() as int) == s@.skip(i as int));
            return Some(i);
        }
        assert(s@.subrange(i as int, s@.len() as int) == s@.skip(i as int));
        assert(s@.skip(i as int).drop_first() == s@.skip(i + 1));
        i = i + 1;
    }
    assert(s@.skip(i as int) == Seq::<char>::empty());
    if p.len() == 0 {
        assert(p@.is_prefix_of(s@.skip(i as int)));
        Some(i)
    } else {
        None
    }
}

/// Whether `s` has the character `c`.
pub fn has_char(s: &[char], c: char) -> (r: bool)
    ensures
        r == s@.contains(c),
{
    for i in 0..s.len()
        invariant
            forall|j: int| 0 <= j < i ==> s@[j] != c,
    {
        if s[i] == c {
            assert(s@[i as int] == c);
            return true;
        }
    }
    false
}

/// What stands behind the last `c` in `s`, or all of `s` where there is none.
pub open spec fn behind_last(s: Seq<char>, c: char) -> Seq<char>
    decreases s.len(),
{
    if s.len() == 0 || s.last() == c {
        Seq::empty()
    } else {
        behind_last(s.drop_last(), c).push(s.last())
    }
}

/// What stands behind the last `c` in a text is its end.
pub proof fn lemma_behind_last(s: Seq<char>, c: char)
    ensures
        behind_last(s, c).len() <= s.len(),
        behind_last(s, c) == s.skip(s.len() - behind_last(s, c).len()),
    decreases s.len(),
{
    if s.len() > 0 && s.last() != c {
        lemma_behind_last(s.drop_last(), c);
        assert(behind_last(s, c) == s.skip(s.len() - behind_last(s, c).len()));
    } else {
        assert(s.skip(s.len() as int) == Seq::<char>::empty());
    }
}

/// What stands behind the last `c` in `s`, or all of `s` where there is none.
pub fn after_last(s: &[char], c: char) -> (r: &[char])
    ensures
        r@ == behind_last(s@, c),
{
    let mut n: usize = s.len();
    assert(s@.take(n as int) == s@);
    assert(behind_last(s@, c) == behind_last(s@.take(n as int), c) + s@.skip(n as int));
    while n > 0 && s[n - 1] != c
        invariant
            n <= s.len(),
            behind_last(s@, c) == behind_last(s@.take(n as int), c) + s@.skip(n as int),
        decreases n,
    {
        assert(s@.take(n as int).drop_last() == s@.take(n - 1));
        assert(behind_last(s@.take(n - 1), c).push(s@[n - 1]) + s@.skip(n as int) == behind_last(
            s@.take(n - 1),
            c,
        ) + s@.skip(n - 1));
        n = n - 1;
    }
    assert(behind_last(s@.take(n as int), c) == Seq::<char>::empty());
    assert(s@.subrange(n as int, s@.len() as int) == s@.skip(n as int));
    &s[n..s.len()]
}

/// The words of `s`: the runs of characters between white space.
pub open spec fn words(s: Seq<char>) -> Seq<Seq<char>>
    decreases s.len(),
{
    if s.len() == 0 {
        Seq::empty()
    } else {
        let ws = words(s.drop_last());
        let c = s.last();
        if is_white_space(c) {
            ws
        } else if ends_in_word(s.drop_last()) {
            ws.drop_last().push(ws.last().push(c))
        } else {
            ws.push(seq![c])
        }
    }
}

/// Whether `s` ends with a word.
pub open spec fn ends_in_word(s: Seq<char>) -> bool {
    s.len() > 0 && !is_white_space(s.last())
}

/// Every word stands in the text, and the last one, where the text ends with a word, at its
/// end.
pub proof fn lemma_words(s: Seq<char>)
    ensures
        forall|k: int| 0 <= k < words(s).len() ==> occurs(#[trigger] words(s)[k], s),
        ends_in_word(s) ==> words(s).len() > 0 && words(s).last().is_suffix_of(s),
    decreases s.len(),
{
    if s.len() > 0 {
        let t = s.drop_last();
        let c = s.last();
        let ws = words(t);
        lemma_words(t);
        assert forall|k: int| 0 <= k < words(s).len() implies occurs(#[trigger] words(s)[k], s) by {
            let w = words(s)[k];
            if k < ws.len() && w == ws[k] {
                assert(occurs(ws[k], t));
                let i = choose|i: int|
                    0 <= i <= t.len() - w.len() && #[trigger] t.subrange(i, i + w.len()) == w;
                assert(s.subrange(i, i + w.len()) == t.subrange(i, i + w.len()));
            } else {
                let i = s.len() - w.len();
                assert(w == if ends_in_word(t) {
                    ws.last().push(c)
                } else {
                    seq![c]
                });
                assert(s.subrange(i, i + w.len()) == w);
            }
        }
        if ends_in_word(s) {
            let w = words(s).last();
            assert(w == s.skip(s.len() - w.len()));
        }
    }
}

/// Splits `s` into its words.
pub fn split_words(s: &[char]) -> (r: Vec<Vec<char>>)
    ensures
        texts(r@) == words(s@),
{
    let mut out: Vec<Vec<char>> = Vec::new();
    let mut word: Vec<char> = Vec::new();
    assert(texts(out@) == words(s@.take(0)));
    for i in 0..s.len()
        invariant
            word@.len() > 0 <==> ends_in_word(s@.take(i as int)),
            word@.len() == 0 ==> texts(out@) == words(s@.take(i as int)),
            word@.len() > 0 ==> texts(out@).push(word@) == words(s@.take(i as int)),
    {
        let c: char = s[i];
        let ghost t = s@.take(i + 1);
        let ghost old_word = word@;
        assert(t.drop_last() == s@.take(i as int));
        assert(t.last() == c);
        if white_space(c) {
            if word.len() > 0 {
                assert(texts(out@.push(word)) == texts(out@).push(word@));
                out.push(word);
                word = Vec::new();
            }
        } else {
            word.push(c);
            proof {
                if old_word.len() > 0 {
                    let ws = texts(out@).push(old_word);
                    assert(ws.drop_last() == texts(out@));
                } else {
                    assert(word@ == seq![c]);
                }
            }
        }
    }
    assert(s@.take(s@.len() as int) == s@);
    if word.len() > 0 {
        assert(texts(out@.push(word)) == texts(out@).push(word@));
        out.push(word);
    }
    out
}

/// The number of characters before the first line feed of `s`, or before its end.
pub open spec fn line_len(s: Seq<char>) -> nat
    decreases s.len(),
{
    if s.len() == 0 || s[0] == '\n' {
        0
    } else {
        1 + line_len(s.drop_first())
    }
}

/// `s` without the carriage return at its end, if it has one.
pub open spec fn strip_return(s: Seq<char>) -> Seq<char> {
    if s.len() > 0 && s.last() == '\r' {
        s.drop_last()
    } else {
        s
    }
}

/// The lines of `s`. A line ends at a line feed, which is not part of it, nor is a
/// carriage return right before that line feed; a last line may lack its line feed.
pub open spec fn lines(s: Seq<char>) -> Seq<Seq<char>>
    decreases s.len(),
{
    if s.len() == 0 {
        Seq::empty()
    } else {
        let n = line_len(s);
        if n < s.len() {
            seq![strip_return(s.take(n as int))] + lines(s.skip(n as int + 1))
        } else {
            seq![s]
        }
    }
}

pub proof fn lemma_line_len(s: Seq<char>)
    ensures
        line_len(s) <= s.len(),
        line_len(s) < s.len() ==> s[line_len(s) as int] == '\n',
        forall|i: int| 0 <= i < line_len(s) ==> s[i] != '\n',
    decreases s.len(),
{
    if s.len() > 0 && s[0] != '\n' {
        lemma_line_len(s.drop_first());
        assert forall|i: int| 0 <= i < line_len(s) implies s[i] != '\n' by {
            if i > 0 {
                assert(s[i] == s.drop_first()[i - 1]);
            }
        }
    }
}

/// A line length is settled by where the first line feed stands.
pub proof fn lemma_line_len_is(s: Seq<char>, n: nat)
    requires
        n <= s.len(),
        n < s.len() ==> s[n as int] == '\n',
        forall|i: int| 0 <= i < n ==> s[i] != '\n',
    ensures
        line_len(s) == n,
{
    lemma_line_len(s);
    if line_len(s) < n {
        assert(s[line_len(s) as int] != '\n');
    }
}

/// The views of the character vectors in `v`, in order.
pub open spec fn texts(v: Seq<Vec<char>>) -> Seq<Seq<char>> {
    v.map_values(|s: Vec<char>| s@)
}

/// Splits `s` into its lines.
pub fn split_lines(s: &[char]) -> (r: Vec<Vec<char>>)
    ensures
        texts(r@) == lines(s@),
{
    let mut out: Vec<Vec<char>> = Vec::new();
    let mut start: usize = 0;
    let mut i: usize = 0;
    assert(s@.skip(0) == s@);
    assert(texts(out@) == Seq::<Seq<char>>::empty());
    while i < s.len()
        invariant
            start <= i <= s.len(),
            forall|j: int| start <= j < i ==> s@[j] != '\n',
            texts(out@) + lines(s@.skip(start as int)) == lines(s@),
        decreases s.len() - i,
    {
        if s[i] == '\n' {
            let end: usize = if start < i && s[i - 1] == '\r' {
                i - 1
            } else {
                i
            };
            let line = slice_to_vec(&s[start..end]);
            proof {
                let rest = s@.skip(start as int);
                lemma_line_len_is(rest, (i - start) as nat);
                assert(rest.take(i - start) == s@.subrange(start as int, i as int));
                assert(strip_return(rest.take(i - start)) == line@);
                assert(rest.skip(i - start + 1) == s@.skip(i + 1));
                assert(texts(out@.push(line)) == texts(out@).push(line@));
                assert(texts(out@).push(line@) + lines(s@.skip(i + 1)) == texts(out@) + (seq![
                    line@,
                ] + lines(s@.skip(i + 1))));
            }
            out.push(line);
            start = i + 1;
        }
        i = i + 1;
    }
    if start < s.len() {
        let line = slice_to_vec(&s[start..s.len()]);
        proof {
            let rest = s@.skip(start as int);
            lemma_line_len_is(rest, (s.len() - start) as nat);
            assert(line@ == rest);
            assert(texts(out@.push(line)) == texts(out@) + seq![line@]);
        }
        out.push(line);
    } else {
        assert(s@.skip(start as int) == Seq::<char>::empty());
        assert(texts(out@) + lines(s@.skip(start as int)) == texts(out@));
    }
    out
}

/// The texts `parts` one after another, with `sep` between neighbours.
pub open spec fn join(parts: Seq<Seq<char>>, sep: Seq<char>) -> Seq<char>
    decreases parts.len(),
{
    if parts.len() == 0 {
        Seq::empty()
    } else if parts.len() == 1 {
        parts[0]
    } else {
        join(parts.drop_last(), sep) + sep + parts.last()
    }
}

/// Joins the strings `parts` with `sep` between neighbours.
pub fn joined(parts: &Vec<String>, sep: &str) -> (s: String)
    ensures
        s@ == join(views(parts@), sep@),
{
    let mut s = String::new();
    for i in 0..parts.len()
        invariant
            s@ == join(views(parts@).take(i as int), sep@),
    {
        if i > 0 {
            s.append(sep);
        }
        s.append(parts[i].as_str());
        proof {
            let t = views(parts@).take(i + 1);
            assert(t.drop_last() == views(parts@).take(i as int));
            assert(t.last() == parts@[i as int]@);
            if i == 0 {
                assert(s@ == t[0]);
            }
        }
    }
    assert(views(parts@).take(parts@.len() as int) == views(parts@));
    s
}

/// Whether `a` stands before `b` in the order of strings: by the first character in
/// which they differ, a proper prefix first.
pub open spec fn before(a: Seq<char>, b: Seq<char>) -> bool
    decreases a.len(),
{
    if b.len() == 0 {
        false
    } else if a.len() == 0 {
        true
    } else if a[0] != b[0] {
        a[0] < b[0]
    } else {
        before(a.drop_first(), b.drop_first())
    }
}

/// Whether `a` stands before `b` in the order of strings.
pub fn stands_before(a: &str, b: &str) -> (r: bool)
    ensures
        r == before(a@, b@),
{
    let x = chars_of(a);
    let y = chars_of(b);
    let mut i: usize = 0;
    assert(x@.skip(0) == x@ && y@.skip(0) == y@);
    while i < x.len() && i < y.len()
        invariant
            i <= x.len(),
            i <= y.len(),
            before(x@.skip(i as int), y@.skip(i as int)) == before(a@, b@),
        decreases x.len() - i,
    {
        let c: char = x[i];
        let d: char = y[i];
        if c != d {
            return c < d;
        }
        assert(x@.skip(i as int).drop_first() == x@.skip(i + 1));
        assert(y@.skip(i as int).drop_first() == y@.skip(i + 1));
        i = i + 1;
    }
    i < y.len()
}

/// The order of strings ranks any two different strings, and one way only.
pub proof fn lemma_before_total(a: Seq<char>, b: Seq<char>)
    ensures
        before(a, b) ==> !before(b, a),
        before(a, b) || before(b, a) || a == b,
        !before(a, a),
    decreases a.len(),
{
    if a.len() > 0 {
        lemma_before_total(a.drop_first(), a.drop_first());
    }
    if a.len() > 0 && b.len() > 0 && a[0] == b[0] {
        lemma_before_total(a.drop_first(), b.drop_first());
        if a.drop_first() == b.drop_first() {
            assert(a == seq![a[0]] + a.drop_first());
            assert(b == seq![b[0]] + b.drop_first());
        }
    } else if a.len() == 0 && b.len() == 0 {
        assert(a == b);
    }
}

/// The order of strings is transitive.
pub proof fn lemma_before_transitive(a: Seq<char>, b: Seq<char>, c: Seq<char>)
    requires
        before(a, b),
        before(b, c),
    ensures
        before(a, c),
    decreases a.len(),
{
    if a.len() > 0 && a[0] == b[0] && b[0] == c[0] {
        lemma_before_transitive(a.drop_first(), b.drop_first(), c.drop_first());
    }
}

/// The decimal digit for `d`.
pub open spec fn digit(d: nat) -> char {
    (48 + d) as char
}

/// The decimal digits of `n`.
pub open spec fn decimal(n: nat) -> Seq<char>
    decreases n,
{
    if n < 10 {
        seq![digit(n)]
    } else {
        decimal(n / 10).push(digit(n % 10))
    }
}

/// The decimal digits of `n`, at least two of them.
pub open spec fn two_digits(n: nat) -> Seq<char> {
    if n < 10 {
        seq!['0'] + decimal(n)
    } else {
        decimal(n)
    }
}

/// Appends the decimal digits of `n` to `out`.
pub fn push_decimal(out: &mut String, n: u64)
    ensures
        final(out)@ == old(out)@ + decimal(n as nat),
    decreases n,
{
    if n >= 10 {
        push_decimal(out, n / 10);
    }
    let d: u8 = (n % 10) as u8;
    out.push((48u8 + d) as char);
    assert(out@ == old(out)@ + decimal(n as nat));
}

/// Appends the decimal digits of `n` to `out`, with a leading zero where there is one digit.
pub fn push_two_digits(out: &mut String, n: u64)
    ensures
        final(out)@ == old(out)@ + two_digits(n as nat),
{
    if n < 10 {
        out.push('0');
    }
    push_decimal(out, n);
    assert(out@ == old(out)@ + two_digits(n as nat));
}

/// Whether `list` holds a string with the text of `name`.
pub fn holds(list: &Vec<String>, name: &String) -> (r: bool)
    ensures
        r == views(list@).contains(name@),
{
    for i in 0..list.len()
        invariant
            forall|j: int| 0 <= j < i ==> views(list@)[j] != name@,
    {
        if list[i] == *name {
            assert(views(list@)[i as int] == name@);
            return true;
        }
    }
    false
}

/// The texts `a`, `b` and `c`, one after another.
pub fn glued(a: &str, b: &str, c: &str) -> (s: String)
    ensures
        s@ == a@ + b@ + c@,
{
    let mut s = String::new();
    s.append(a);
    s.append(b);
    s.append(c);
    assert(s@ == a@ + b@ + c@);
    s
}

/// A copy of `strings`.
pub fn copied(strings: &[String]) -> (r: Vec<String>)
    ensures
        views(r@) == views(strings@),
{
    let mut out: Vec<String> = Vec::new();
    for i in 0..strings.len()
        invariant
            views(out@) == views(strings@).take(i as int),
    {
        let s = strings[i].clone();
        proof {
            assert(views(out@.push(s)) == views(out@).push(s@));
            assert(views(strings@).take(i + 1) == views(strings@).take(i as int).push(s@));
        }
        out.push(s);
    }
    assert(views(strings@).take(strings@.len() as int) == views(strings@));
    out
}

} // verus!
