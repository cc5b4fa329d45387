//! The file `packages.conf`: the two lists in it, how they are read and written.

use crate::text::{
    after_last, behind_last, chars_of, contains, found_at, has_char, lemma_behind_last,
    lemma_found_at, lemma_trim_occurs, lemma_words, lines, occurs, position, same, split_lines,
    split_words, starts_with, string_of, texts, trim, trim_end_char, trim_start, trimmed,
    trimmed_end_char, trimmed_start, views, words,
};
use vstd::prelude::*;
use vstd::slice::*;
use vstd::string::*;

verus! {

/// The file that holds the managed lists.
pub const PACKAGES_FILE: &'static str = "/etc/nixos/packages.conf";

/// The system configuration, which has to import `PACKAGES_FILE`.
pub const CONFIG_FILE: &'static str = "/etc/nixos/configuration.nix";

/// The text that marks the opening line of the list of system packages.
pub const PACKAGES_MARKER: &'static str = "systemPackages";

/// The text that marks the opening line of the list of fonts.
pub const FONTS_MARKER: &'static str = "fonts.packages";

/// Whether `text` is a comment.
pub open spec fn is_comment(text: Seq<char>) -> bool {
    trim(text).len() > 0 && trim(text)[0] == '#'
}

/// Whether `line` opens the list with the marker `marker`: it holds the marker and is no
/// comment.
pub open spec fn opens(line: Seq<char>, marker: Seq<char>) -> bool {
    occurs(marker, trim(line)) && !is_comment(line)
}

/// The lines of `ls` from the first that opens the list with the marker `marker`.
pub open spec fn from_opening(ls: Seq<Seq<char>>, marker: Seq<char>) -> Seq<Seq<char>>
    decreases ls.len(),
{
    if ls.len() == 0 || opens(ls[0], marker) {
        ls
    } else {
        from_opening(ls.drop_first(), marker)
    }
}

/// `s` without its comments: those from `#` to the end of the line and those between `/*`
/// and `*/`.
pub open spec fn uncommented(s: Seq<char>) -> Seq<char>
    decreases s.len(),
{
    if s.len() == 0 || s[0] == '#' {
        Seq::empty()
    } else if s.len() > 1 && s[0] == '/' && s[1] == '*' {
        match found_at("*/"@, s.skip(2)) {
            Some(n) => if 0 <= n <= s.len() - 4 {
                uncommented(s.skip(n + 4))
            } else {
                Seq::empty()
            },
            None => Seq::empty(),
        }
    } else {
        seq![s[0]] + uncommented(s.drop_first())
    }
}

/// What a line has of a list that begins on it: the text in which the first names stand,
/// and whether the list ends on the line.
#[verifier::ext_equal]
pub struct Opening {
    pub names: Seq<char>,
    pub ended: bool,
}

/// What `text` has of the list whose opening bracket is in it. Where the last bracket is
/// not closed in the text, it is the one: the list goes on below. Where all are closed, the
/// list ends with the first `];`, or nothing of it is in the text.
pub open spec fn opening_in(text: Seq<char>) -> Option<Opening> {
    let code = uncommented(text);
    let last = behind_last(code, '[');
    let inside = code.skip(found_at("["@, code)->0 + 1);
    let below = Opening { names: Seq::empty(), ended: false };
    if trim(text).len() > 0 && trim(text).last() == '[' {
        Some(below)
    } else if !occurs("["@, code) {
        None
    } else if !last.contains(']') {
        Some(Opening { names: last, ended: false })
    } else {
        match found_at("];"@, inside) {
            Some(n) => Some(Opening { names: behind_last(inside.take(n), '['), ended: true }),
            None => Some(below),
        }
    }
}

/// What stands behind the marker on the opening line `line`.
pub open spec fn behind_marker(line: Seq<char>, marker: Seq<char>) -> Seq<char> {
    let t = trim(line);
    t.skip(found_at(marker, t)->0 + marker.len())
}

/// The lines of a list with `opening` at its bracket and `rest` below: each name on the
/// line of the bracket is a line of its own.
pub open spec fn bracketed(opening: Opening, rest: Seq<Seq<char>>) -> Seq<Seq<char>> {
    if opening.ended {
        words(opening.names)
    } else {
        words(opening.names) + rest
    }
}

/// The lines of a list whose opening line is above `ls` and has no bracket: the bracket may
/// stand at the beginning of one of them.
pub open spec fn unbracketed(ls: Seq<Seq<char>>) -> Seq<Seq<char>>
    decreases ls.len(),
{
    if ls.len() == 0 || closes(ls[0]) {
        Seq::empty()
    } else if "["@.is_prefix_of(trim(ls[0])) {
        match opening_in(trim(ls[0])) {
            Some(opening) => bracketed(opening, ls.drop_first()),
            None => Seq::empty(),
        }
    } else {
        seq![ls[0]] + unbracketed(ls.drop_first())
    }
}

/// The lines of the list with the marker `marker`, and what is below it in `ls`.
pub open spec fn body(ls: Seq<Seq<char>>, marker: Seq<char>) -> Seq<Seq<char>> {
    let block = from_opening(ls, marker);
    if block.len() == 0 {
        Seq::empty()
    } else {
        match opening_in(behind_marker(block[0], marker)) {
            Some(opening) => bracketed(opening, block.drop_first()),
            None => unbracketed(block.drop_first()),
        }
    }
}

/// Whether `line` closes a list.
pub open spec fn closes(line: Seq<char>) -> bool {
    "];"@.is_prefix_of(trim(line))
}

/// The list entry that stands on `line`: nothing on a blank line, a comment or an
/// opening bracket, else the line without white space and semicolons around it.
pub open spec fn entry(line: Seq<char>) -> Option<Seq<char>> {
    let t = trim(line);
    let e = trim(trim_end_char(t, ';'));
    if t.len() == 0 || t[0] == '#' || t == "["@ || e.len() == 0 {
        None
    } else {
        Some(e)
    }
}

/// The entries on the lines `ls`, up to the line that closes the list.
pub open spec fn entries(ls: Seq<Seq<char>>) -> Seq<Seq<char>>
    decreases ls.len(),
{
    if ls.len() == 0 || closes(ls[0]) {
        Seq::empty()
    } else {
        match entry(ls[0]) {
            Some(e) => seq![e] + entries(ls.drop_first()),
            None => entries(ls.drop_first()),
        }
    }
}

/// The entries of the list in `content` whose opening line holds `marker`.
pub open spec fn list_in(content: Seq<char>, marker: Seq<char>) -> Seq<Seq<char>> {
    entries(body(lines(content), marker))
}

/// The entry on `line`, if any, as a list.
pub open spec fn entry_list(line: Seq<char>) -> Seq<Seq<char>> {
    match entry(line) {
        Some(e) => seq![e],
        None => Seq::empty(),
    }
}

/// Lines of which none closes the list have their entries in front of those below.
pub proof fn lemma_entries_add(a: Seq<Seq<char>>, b: Seq<Seq<char>>)
    requires
        forall|k: int| 0 <= k < a.len() ==> !closes(#[trigger] a[k]),
    ensures
        entries(a + b) == entries(a) + entries(b),
    decreases a.len(),
{
    let ls = a + b;
    if a.len() == 0 {
        assert(ls == b);
        assert(entries(a) + entries(b) == entries(b));
    } else {
        let tail = a.drop_first();
        assert forall|k: int| 0 <= k < tail.len() implies !closes(#[trigger] tail[k]) by {
            assert(tail[k] == a[k + 1]);
        }
        lemma_entries_add(tail, b);
        assert(ls[0] == a[0]);
        assert(!closes(a[0]));
        assert(ls.drop_first() == tail + b);
        assert(entries(ls) == entry_list(a[0]) + entries(tail + b));
        assert(entries(a) == entry_list(a[0]) + entries(tail));
        assert(entry_list(a[0]) + (entries(tail) + entries(b)) == entries(a) + entries(b));
    }
}

/// No name on the line of the bracket closes the list.
pub proof fn lemma_opening_words(text: Seq<char>)
    ensures
        opening_in(text) matches Some(opening) ==> forall|k: int|
            0 <= k < words(opening.names).len() ==> !closes(#[trigger] words(opening.names)[k]),
{
    reveal_strlit("];");
    let close = "];"@;
    let code = uncommented(text);
    let inside = code.skip(found_at("["@, code)->0 + 1);
    if opening_in(text) is Some {
        let names = opening_in(text)->0.names;
        lemma_found_at(close, inside);
        assert(!occurs(close, names)) by {
            if occurs(close, names) {
                let i = choose|i: int|
                    0 <= i <= names.len() - close.len() && #[trigger] names.subrange(
                        i,
                        i + close.len(),
                    ) == close;
                assert(names[i] == close[0]);
                if opening_in(text)->0.ended {
                    let n = found_at(close, inside)->0;
                    let part = inside.take(n);
                    lemma_behind_last(part, '[');
                    let j = i + (part.len() - names.len());
                    assert(inside.subrange(j, j + close.len()) == names.subrange(
                        i,
                        i + close.len(),
                    ));
                }
            }
        }
        let ws = words(names);
        lemma_words(names);
        assert forall|k: int| 0 <= k < ws.len() implies !closes(#[trigger] ws[k]) by {
            let w = ws[k];
            if closes(w) {
                let start: int = 0;
                assert(trim(w).subrange(start, start + close.len()) == close);
                lemma_trim_occurs(close, w);
                assert(occurs(w, names));
                let i = choose|i: int|
                    0 <= i <= w.len() - close.len() && #[trigger] w.subrange(i, i + close.len())
                        == close;
                let j = choose|j: int|
                    0 <= j <= names.len() - w.len() && #[trigger] names.subrange(j, j + w.len())
                        == w;
                let m = i + j;
                assert(names.subrange(m, m + close.len()) == w.subrange(i, i + close.len()));
            }
        }
    }
}

/// The entries of a list are those on the line of its bracket, then those below.
pub proof fn lemma_bracketed(text: Seq<char>, rest: Seq<Seq<char>>)
    ensures
        opening_in(text) matches Some(opening) ==> entries(bracketed(opening, rest)) == entries(
            words(opening.names),
        ) + if opening.ended {
            Seq::empty()
        } else {
            entries(rest)
        },
{
    if opening_in(text) is Some {
        let names = opening_in(text)->0.names;
        lemma_opening_words(text);
        lemma_entries_add(words(names), rest);
        assert(entries(words(names)) + Seq::<Seq<char>>::empty() == entries(words(names)));
    }
}

/// Whether `text` is a comment.
fn comment(text: &[char]) -> (r: bool)
    ensures
        r == is_comment(text@),
{
    let t = trimmed(text);
    t.len() > 0 && t[0] == '#'
}

/// `s` without its comments.
fn without_comments(s: &[char]) -> (r: Vec<char>)
    ensures
        r@ == uncommented(s@),
{
    let end = chars_of("*/");
    let mut out: Vec<char> = Vec::new();
    let mut i: usize = 0;
    assert(s@.skip(0) == s@);
    assert(out@ + uncommented(s@) == uncommented(s@));
    while i < s.len()
        invariant
            i <= s.len(),
            end@ == "*/"@,
            out@ + uncommented(s@.skip(i as int)) == uncommented(s@),
        decreases s.len() - i,
    {
        let ghost rest = s@.skip(i as int);
        assert(rest[0] == s@[i as int]);
        if s[i] == '#' {
            assert(out@ + uncommented(rest) == out@);
            return out;
        }
        if i + 1 < s.len() && s[i] == '/' && s[i + 1] == '*' {
            assert(rest[1] == s@[i + 1]);
            assert(s@.subrange(i + 2, s@.len() as int) == rest.skip(2));
            proof {
                reveal_strlit("*/");
                lemma_found_at("*/"@, rest.skip(2));
            }
            match position(&s[i + 2..s.len()], &end) {
                Some(n) => {
                    assert(n <= s.len() - i - 4);
                    assert(rest.skip(n + 4) == s@.skip(i + n + 4));
                    i = i + n + 4;
                },
                None => {
                    assert(out@ + uncommented(rest) == out@);
                    return out;
                },
            }
        } else {
            let c: char = s[i];
            proof {
                assert(rest.drop_first() == s@.skip(i + 1));
                if rest.len() > 1 {
                    assert(rest[1] == s@[i + 1]);
                }
                assert(out@.push(c) + uncommented(s@.skip(i + 1)) == out@ + (seq![c] + uncommented(
                    s@.skip(i + 1),
                )));
            }
            out.push(c);
            i = i + 1;
        }
    }
    assert(s@.skip(i as int) == Seq::<char>::empty());
    assert(out@ + uncommented(s@.skip(i as int)) == out@);
    out
}

/// What `text` has of the list whose opening bracket is in it: the text in which the first
/// names stand, and whether the list ends there.
fn read_opening(text: &[char]) -> (r: Option<(Vec<char>, bool)>)
    ensures
        match r {
            Some(o) => opening_in(text@) == Some(Opening { names: o.0@, ended: o.1 }),
            None => opening_in(text@) is None,
        },
{
    let t = trimmed(text);
    let bracket = chars_of("[");
    let close = chars_of("];");
    proof {
        reveal_strlit("[");
    }
    let none: Vec<char> = Vec::new();
    assert(none@ == Seq::<char>::empty());
    if t.len() > 0 && t[t.len() - 1] == '[' {
        return Some((none, false));
    }
    let code = without_comments(text);
    proof {
        lemma_found_at("["@, code@);
    }
    match position(&code, &bracket) {
        Some(n) => {
            let last = after_last(&code, '[');
            if !has_char(last, ']') {
                return Some((slice_to_vec(last), false));
            }
            assert(n < code.len());
            assert(code@.subrange(n + 1, code@.len() as int) == code@.skip(n + 1));
            let inside = slice_to_vec(&code[n + 1..code.len()]);
            proof {
                lemma_found_at("];"@, inside@);
            }
            match position(&inside, &close) {
                Some(k) => {
                    assert(inside@.subrange(0, k as int) == inside@.take(k as int));
                    let names = after_last(&inside[0..k], '[');
                    Some((slice_to_vec(names), true))
                },
                None => Some((none, false)),
            }
        },
        None => None,
    }
}

/// What the opening line `line` has of the list with the marker `marker`.
fn read_opening_line(line: &[char], marker: &[char]) -> (r: Option<(Vec<char>, bool)>)
    requires
        opens(line@, marker@),
    ensures
        match r {
            Some(o) => opening_in(behind_marker(line@, marker@)) == Some(
                Opening { names: o.0@, ended: o.1 },
            ),
            None => opening_in(behind_marker(line@, marker@)) is None,
        },
{
    let t = trimmed(line);
    proof {
        lemma_found_at(marker@, t@);
    }
    match position(t, marker) {
        Some(n) => {
            assert(n + marker.len() <= t.len());
            assert(t@.subrange(n + marker@.len(), t@.len() as int) == behind_marker(
                line@,
                marker@,
            ));
            read_opening(&t[n + marker.len()..t.len()])
        },
        None => None,
    }
}

/// Appends the entry on `line`, if any, to `list`.
fn push_entry(list: &mut Vec<String>, line: &[char])
    ensures
        views(final(list)@) == views(old(list)@) + entry_list(line@),
{
    let t = trimmed(line);
    let bracket = chars_of("[");
    if !(t.len() == 0 || t[0] == '#' || same(t, &bracket)) {
        let e = trimmed(trimmed_end_char(t, ';'));
        if e.len() > 0 {
            let name = string_of(e);
            assert(views(list@.push(name)) == views(list@) + seq![name@]);
            list.push(name);
        }
    }
    assert(views(list@) == views(old(list)@) + entry_list(line@));
}

/// Appends the entries among the words of `text` to `list`.
fn push_words(list: &mut Vec<String>, text: &[char])
    requires
        forall|k: int| 0 <= k < words(text@).len() ==> !closes(#[trigger] words(text@)[k]),
    ensures
        views(final(list)@) == views(old(list)@) + entries(words(text@)),
{
    let ws = split_words(text);
    let ghost all = words(text@);
    let ghost start = views(list@);
    assert(start + entries(all.take(0)) == start);
    for i in 0..ws.len()
        invariant
            all == texts(ws@),
            forall|k: int| 0 <= k < all.len() ==> !closes(#[trigger] all[k]),
            views(list@) == start + entries(all.take(i as int)),
    {
        push_entry(list, &ws[i]);
        proof {
            let w = all[i as int];
            assert(w == ws@[i as int]@);
            assert forall|k: int| 0 <= k < i implies !closes(#[trigger] all.take(i as int)[k]) by {
                assert(all.take(i as int)[k] == all[k]);
            }
            lemma_entries_add(all.take(i as int), seq![w]);
            assert(all.take(i as int) + seq![w] == all.take(i + 1));
            assert(seq![w].drop_first() == Seq::<Seq<char>>::empty());
            assert(!closes(w));
            assert(entries(Seq::<Seq<char>>::empty()) == Seq::<Seq<char>>::empty());
            assert(entries(seq![w]) == entry_list(w));
            assert(start + entries(all.take(i as int)) + entry_list(w) == start + (entries(
                all.take(i as int),
            ) + entry_list(w)));
        }
    }
    assert(all.take(ws@.len() as int) == all);
}

/// How far the search for a list has come.
enum Stage {
    /// The opening line is still to come.
    Ahead,
    /// The opening line was there, the bracket is still to come.
    Opened,
    /// The list has begun.
    Within,
}

/// The entries in `ls` that are still to come.
spec fn to_come(stage: Stage, ls: Seq<Seq<char>>, marker: Seq<char>) -> Seq<Seq<char>> {
    match stage {
        Stage::Ahead => entries(body(ls, marker)),
        Stage::Opened => entries(unbracketed(ls)),
        Stage::Within => entries(ls),
    }
}

/// Collects the entries of the list in `content` whose opening line holds `marker`.
pub fn parse_list(content: &str, marker: &str) -> (r: Vec<String>)
    ensures
        views(r@) == list_in(content@, marker@),
{
    let text = chars_of(content);
    let mark = chars_of(marker);
    let close = chars_of("];");
    let bracket = chars_of("[");
    let ls = split_lines(&text);
    let ghost all = lines(content@);
    let ghost want = list_in(content@, marker@);
    let mut packages: Vec<String> = Vec::new();
    let mut stage = Stage::Ahead;
    let mut i: usize = 0;
    proof {
        reveal_strlit("[");
        assert(all.skip(0) == all);
        assert(views(packages@) + want == want);
    }
    while i < ls.len()
        invariant
            i <= ls.len(),
            all == texts(ls@),
            mark@ == marker@,
            close@ == "];"@,
            bracket@ == "["@,
            "["@.len() == 1,
            want == list_in(content@, marker@),
            views(packages@) + to_come(stage, all.skip(i as int), marker@) == want,
        decreases ls.len() - i,
    {
        let line = &ls[i];
        let t = trimmed(line);
        let ghost before = views(packages@);
        let ghost below = all.skip(i + 1);
        proof {
            assert(all[i as int] == line@);
            assert(all.skip(i as int)[0] == line@);
            assert(all.skip(i as int).drop_first() == below);
        }
        match stage {
            Stage::Ahead => {
                if contains(t, &mark) && !comment(line) {
                    stage = Stage::Opened;
                    match read_opening_line(line, &mark) {
                        Some((names, ended)) => {
                            let ghost text = behind_marker(line@, marker@);
                            proof {
                                lemma_bracketed(text, below);
                                lemma_opening_words(text);
                            }
                            push_words(&mut packages, &names);
                            assert(before + (entries(words(names@)) + entries(below)) == (before
                                + entries(words(names@))) + entries(below));
                            if ended {
                                assert(views(packages@) == want);
                                return packages;
                            }
                            stage = Stage::Within;
                        },
                        None => {},
                    }
                }
            },
            Stage::Opened => {
                if starts_with(t, &close) {
                    assert(views(packages@) == want);
                    return packages;
                }
                if starts_with(t, &bracket) {
                    match read_opening(t) {
                        Some((names, ended)) => {
                            proof {
                                lemma_bracketed(t@, below);
                                lemma_opening_words(t@);
                            }
                            push_words(&mut packages, &names);
                            assert(before + (entries(words(names@)) + entries(below)) == (before
                                + entries(words(names@))) + entries(below));
                            if ended {
                                assert(views(packages@) == want);
                                return packages;
                            }
                            stage = Stage::Within;
                        },
                        None => {
                            assert(views(packages@) == want);
                            return packages;
                        },
                    }
                } else {
                    push_entry(&mut packages, line);
                    proof {
                        let u = unbracketed(below);
                        assert((seq![line@] + u).drop_first() == u);
                        assert(entries(seq![line@] + u) == entry_list(line@) + entries(u));
                        assert(before + (entry_list(line@) + entries(u)) == (before + entry_list(
                            line@,
                        )) + entries(u));
                    }
                }
            },
            Stage::Within => {
                if starts_with(t, &close) {
                    assert(views(packages@) == want);
                    return packages;
                }
                push_entry(&mut packages, line);
                assert(entries(all.skip(i as int)) == entry_list(line@) + entries(below));
                assert(before + (entry_list(line@) + entries(below)) == (before + entry_list(line@))
                    + entries(below));
            },
        }
        i = i + 1;
    }
    assert(all.skip(i as int) == Seq::<Seq<char>>::empty());
    assert(views(packages@) == want);
    packages
}

/// Reads the two lists, packages and fonts, out of `content`; both are empty where there
/// is no file.
pub fn read_conf(content: Option<&str>) -> (r: (Vec<String>, Vec<String>))
    ensures
        match content {
            Some(text) => views(r.0@) == list_in(text@, PACKAGES_MARKER@) && views(r.1@) == list_in(
                text@,
                FONTS_MARKER@,
            ),
            None => r.0@.len() == 0 && r.1@.len() == 0,
        },
{
    match content {
        Some(text) => (parse_list(text, PACKAGES_MARKER), parse_list(text, FONTS_MARKER)),
        None => (Vec::new(), Vec::new()),
    }
}

/// The lines `ls` as one text, a line feed behind each.
pub open spec fn unlines(ls: Seq<Seq<char>>) -> Seq<char>
    decreases ls.len(),
{
    if ls.len() == 0 {
        Seq::empty()
    } else {
        unlines(ls.drop_last()) + ls.last() + seq!['\n']
    }
}

/// The lines of a list with the names `names`, its closing line included.
pub open spec fn list_lines(names: Seq<Seq<char>>) -> Seq<Seq<char>> {
    names.map_values(|n: Seq<char>| "    "@ + n) + seq!["  ];"@]
}

/// The lines of `packages.conf` with the lists `packages` and `fonts`.
pub open spec fn conf_lines(packages: Seq<Seq<char>>, fonts: Seq<Seq<char>>) -> Seq<Seq<char>> {
    seq![
        "# Managed by spin - Simple Package Installer for Nix"@,
        "# Do not edit manually. Use: spin -i <pkg> / -r <pkg>  (fonts: spin -fi / -fr)"@,
        "{ pkgs, ... }:"@,
        "{"@,
        "  environment.systemPackages = with pkgs; ["@,
    ] + list_lines(packages) + seq!["  fonts.packages = with pkgs; ["@] + list_lines(fonts) + seq![
        "}"@,
    ]
}

/// The text of `packages.conf` with the lists `packages` and `fonts`.
pub open spec fn conf_text(packages: Seq<Seq<char>>, fonts: Seq<Seq<char>>) -> Seq<char> {
    unlines(conf_lines(packages, fonts))
}

/// Appends `line` and a line feed to `out`.
fn push_line(out: &mut String, line: &str, Ghost(ls): Ghost<Seq<Seq<char>>>)
    requires
        old(out)@ == unlines(ls),
    ensures
        final(out)@ == unlines(ls.push(line@)),
{
    out.append(line);
    out.push('\n');
    assert(ls.push(line@).drop_last() == ls);
    assert(out@ == unlines(ls) + line@ + seq!['\n']);
}

/// Appends the lines of a list with the names `names` to `out`.
fn push_list(out: &mut String, names: &[String], Ghost(ls): Ghost<Seq<Seq<char>>>)
    requires
        old(out)@ == unlines(ls),
    ensures
        final(out)@ == unlines(ls + list_lines(views(names@))),
{
    let ghost rows = views(names@).map_values(|n: Seq<char>| "    "@ + n);
    assert(ls + rows.take(0) == ls);
    for i in 0..names.len()
        invariant
            out@ == unlines(ls + rows.take(i as int)),
            rows == views(names@).map_values(|n: Seq<char>| "    "@ + n),
    {
        let mut line = String::new();
        line.append("    ");
        line.append(names[i].as_str());
        assert(line@ == rows[i as int]);
        push_line(out, line.as_str(), Ghost(ls + rows.take(i as int)));
        assert((ls + rows.take(i as int)).push(rows[i as int]) == ls + rows.take(i + 1));
    }
    assert(rows.take(names@.len() as int) == rows);
    push_line(out, "  ];", Ghost(ls + rows));
    assert((ls + rows).push("  ];"@) == ls + list_lines(views(names@)));
}

/// The text of `packages.conf` with the lists `packages` and `fonts`.
pub fn write_conf(packages: &[String], fonts: &[String]) -> (content: String)
    ensures
        content@ == conf_text(views(packages@), views(fonts@)),
{
    let mut content = String::new();
    let ghost mut ls: Seq<Seq<char>> = Seq::empty();
    push_line(&mut content, "# Managed by spin - Simple Package Installer for Nix", Ghost(ls));
    proof {
        ls = ls.push("# Managed by spin - Simple Package Installer for Nix"@);
    }
    push_line(
        &mut content,
        "# Do not edit manually. Use: spin -i <pkg> / -r <pkg>  (fonts: spin -fi / -fr)",
        Ghost(ls),
    );
    proof {
        ls =
        ls.push("# Do not edit manually. Use: spin -i <pkg> / -r <pkg>  (fonts: spin -fi / -fr)"@);
    }
    push_line(&mut content, "{ pkgs, ... }:", Ghost(ls));
    proof {
        ls = ls.push("{ pkgs, ... }:"@);
    }
    push_line(&mut content, "{", Ghost(ls));
    proof {
        ls = ls.push("{"@);
    }
    push_line(&mut content, "  environment.systemPackages = with pkgs; [", Ghost(ls));
    proof {
        ls = ls.push("  environment.systemPackages = with pkgs; ["@);
    }
    push_list(&mut content, packages, Ghost(ls));
    proof {
        ls = ls + list_lines(views(packages@));
    }
    push_line(&mut content, "  fonts.packages = with pkgs; [", Ghost(ls));
    proof {
        ls = ls.push("  fonts.packages = with pkgs; ["@);
    }
    push_list(&mut content, fonts, Ghost(ls));
    proof {
        ls = ls + list_lines(views(fonts@));
    }
    push_line(&mut content, "}", Ghost(ls));
    assert(ls.push("}"@) == conf_lines(views(packages@), views(fonts@)));
    content
}

/// Whether `line` of the system configuration imports `packages.conf`: it names the file
/// and is no comment.
pub open spec fn imports_on(line: Seq<char>) -> bool {
    &&& !(trim_start(line).len() > 0 && trim_start(line)[0] == '#')
    &&& occurs("packages.conf"@, line)
}

/// Whether the system configuration `config` imports `packages.conf`.
pub open spec fn imported(config: Seq<char>) -> bool {
    exists|i: int| 0 <= i < lines(config).len() && #[trigger] imports_on(lines(config)[i])
}

/// What the user is told where the system configuration does not import the file.
pub open spec fn import_advice() -> Seq<char> {
    "[spin] Error: "@ + PACKAGES_FILE@ + " is not imported in "@ + CONFIG_FILE@
        + ".\n\nAdd it to the imports list in "@ + CONFIG_FILE@
        + " and re-run:\n\n  imports = [\n    ./hardware-configuration.nix\n    ./packages.conf        # <-- add this\n  ];\n"@
}

/// Whether the system configuration `config` imports `packages.conf`.
pub fn imports_packages(config: &str) -> (r: bool)
    ensures
        r == imported(config@),
{
    let text = chars_of(config);
    let file = chars_of("packages.conf");
    let ls = split_lines(&text);
    let ghost all = lines(config@);
    for i in 0..ls.len()
        invariant
            all == lines(config@),
            all == texts(ls@),
            file@ == "packages.conf"@,
            forall|j: int| 0 <= j < i ==> !#[trigger] imports_on(all[j]),
    {
        let line = &ls[i];
        let start = trimmed_start(line);
        assert(all[i as int] == line@);
        if !(start.len() > 0 && start[0] == '#') && contains(line, &file) {
            assert(imports_on(all[i as int]));
            return true;
        }
    }
    false
}

/// What to tell the user about the system configuration `config`: nothing where it imports
/// `packages.conf`, or where it could not be read.
pub fn check_config_imports(config: &Option<String>) -> (r: Option<String>)
    ensures
        match *config {
            Some(text) => r is Some <==> !imported(text@),
            None => r is None,
        },
        r matches Some(advice) ==> advice@ == import_advice(),
{
    match config {
        Some(text) => {
            if imports_packages(text.as_str()) {
                None
            } else {
                let mut s = String::new();
                s.append("[spin] Error: ");
                s.append(PACKAGES_FILE);
                s.append(" is not imported in ");
                s.append(CONFIG_FILE);
                s.append(".\n\nAdd it to the imports list in ");
                s.append(CONFIG_FILE);
                s.append(
                    " and re-run:\n\n  imports = [\n    ./hardware-configuration.nix\n    ./packages.conf        # <-- add this\n  ];\n",
                );
                assert(s@ == import_advice());
                Some(s)
            }
        },
        None => None,
    }
}

} // verus!
