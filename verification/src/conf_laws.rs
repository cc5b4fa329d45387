//! What a reader of `packages.conf` gets back of what was written to it.

use crate::conf::{
    behind_marker, body, bracketed, closes, conf_lines, conf_text, entries, entry, from_opening,
    is_comment, lemma_bracketed, list_in, list_lines, opening_in, opens, unbracketed, uncommented,
    unlines, Opening, FONTS_MARKER, PACKAGES_MARKER,
};
use crate::text::{
    behind_last, found_at, is_white_space, lemma_behind_last, lemma_found_at, lemma_found_at_is,
    lemma_line_len, lemma_line_len_is, lemma_trim_end_range, lemma_trim_occurs, lemma_trim_part,
    lemma_trim_start_range, lemma_words, line_len, lines, occurs, strip_return, trim, trim_end,
    trim_end_char, trim_start, words,
};
use vstd::prelude::*;

verus! {

/// Whether `name` can stand on a line of a list as it is: it is not blank, has no white
/// space at its ends and no line feed, and is not taken for a comment, a bracket or the
/// end of the list; no semicolon is cut off its end.
pub open spec fn listable(name: Seq<char>) -> bool {
    &&& name.len() > 0
    &&& !is_white_space(name[0])
    &&& !is_white_space(name.last())
    &&& !name.contains('\n')
    &&& name[0] != '#'
    &&& name.last() != ';'
    &&& name != "["@
    &&& !"];"@.is_prefix_of(name)
}

/// Whether each of `names` can stand in a list.
pub open spec fn all_listable(names: Seq<Seq<char>>) -> bool {
    forall|i: int| 0 <= i < names.len() ==> #[trigger] listable(names[i])
}

/// Whether no line of any of `names` opens the list with the marker `marker`.
pub open spec fn none_opens(names: Seq<Seq<char>>, marker: Seq<char>) -> bool {
    forall|i: int| 0 <= i < names.len() ==> #[trigger] opens_nothing(names[i], marker)
}

/// Whether no line of `text` opens the list with the marker `marker`.
pub open spec fn opens_nothing(text: Seq<char>, marker: Seq<char>) -> bool {
    forall|k: int| 0 <= k < lines(text).len() ==> !opens(#[trigger] lines(text)[k], marker)
}

/// Whether `line` comes back unchanged when it is written with a line feed behind it.
spec fn is_line(line: Seq<char>) -> bool {
    !line.contains('\n') && strip_return(line) == line
}

proof fn lemma_unlines_front(ls: Seq<Seq<char>>)
    requires
        ls.len() > 0,
    ensures
        unlines(ls) == ls[0] + seq!['\n'] + unlines(ls.drop_first()),
    decreases ls.len(),
{
    if ls.len() == 1 {
        assert(ls.drop_last() == Seq::<Seq<char>>::empty());
        assert(ls.drop_first() == Seq::<Seq<char>>::empty());
        assert(unlines(ls) == ls[0] + seq!['\n'] + unlines(ls.drop_first()));
    } else {
        lemma_unlines_front(ls.drop_last());
        assert(ls.drop_last().drop_first() == ls.drop_first().drop_last());
        assert(unlines(ls) == ls[0] + seq!['\n'] + unlines(ls.drop_first()));
    }
}

pub proof fn lemma_unlines_add(a: Seq<Seq<char>>, b: Seq<Seq<char>>)
    ensures
        unlines(a + b) == unlines(a) + unlines(b),
    decreases b.len(),
{
    if b.len() == 0 {
        assert(a + b == a);
        assert(unlines(a) + unlines(b) == unlines(a));
    } else {
        lemma_unlines_add(a, b.drop_last());
        assert((a + b).drop_last() == a + b.drop_last());
        assert(unlines(a + b) == unlines(a) + unlines(b));
    }
}

proof fn lemma_lines_unlines(ls: Seq<Seq<char>>, rest: Seq<char>)
    requires
        forall|i: int| 0 <= i < ls.len() ==> #[trigger] is_line(ls[i]),
    ensures
        lines(unlines(ls) + rest) == ls + lines(rest),
    decreases ls.len(),
{
    let s = unlines(ls) + rest;
    if ls.len() > 0 {
        let tail = ls.drop_first();
        lemma_unlines_front(ls);
        assert forall|i: int| 0 <= i < tail.len() implies #[trigger] is_line(tail[i]) by {
            assert(is_line(ls[i + 1]));
        }
        lemma_lines_unlines(tail, rest);
        let n = ls[0].len();
        assert(is_line(ls[0]));
        assert forall|i: int| 0 <= i < n implies s[i] != '\n' by {
            assert(ls[0].contains(ls[0][i]));
        }
        lemma_line_len_is(s, n);
        assert(s.take(n as int) == ls[0]);
        assert(s.skip(n as int + 1) == unlines(tail) + rest);
        assert(ls + lines(rest) == seq![ls[0]] + (tail + lines(rest)));
    } else {
        assert(s == rest);
        assert(ls + lines(rest) == lines(rest));
    }
}

proof fn lemma_row(name: Seq<char>)
    requires
        listable(name),
    ensures
        is_line("    "@ + name),
        trim("    "@ + name) == name,
        !closes("    "@ + name),
        entry("    "@ + name) == Some(name),
{
    reveal_strlit("    ");
    let r = "    "@ + name;
    assert(r.drop_first().drop_first().drop_first().drop_first() == name);
    assert(r[0] == ' ' && r.drop_first()[0] == ' ' && r.drop_first().drop_first()[0] == ' '
        && r.drop_first().drop_first().drop_first()[0] == ' ');
    reveal_with_fuel(trim_start, 6);
    assert(trim_start(r) == name);
    assert(r.last() == name.last());
    assert forall|i: int| 0 <= i < r.len() implies r[i] != '\n' by {
        if i >= 4 {
            assert(r[i] == name[i - 4]);
            assert(name.contains(name[i - 4]));
        }
    }
}

proof fn lemma_entries_of_rows(names: Seq<Seq<char>>, rest: Seq<Seq<char>>)
    requires
        all_listable(names),
    ensures
        entries(list_lines(names) + rest) == names,
    decreases names.len(),
{
    let ls = list_lines(names) + rest;
    if names.len() == 0 {
        reveal_strlit("  ];");
        reveal_strlit("];");
        let c = "  ];"@;
        assert(ls[0] == c);
        assert(c.drop_first().drop_first() == "];"@);
        assert(c[0] == ' ' && c.drop_first()[0] == ' ');
        reveal_with_fuel(trim_start, 4);
        assert(trim_start(c) == "];"@);
        assert(closes(c));
        assert(entries(ls) == names);
    } else {
        let tail = names.drop_first();
        assert forall|i: int| 0 <= i < tail.len() implies #[trigger] listable(tail[i]) by {
            assert(listable(names[i + 1]));
        }
        lemma_entries_of_rows(tail, rest);
        assert(listable(names[0]));
        lemma_row(names[0]);
        assert(ls[0] == "    "@ + names[0]);
        assert(ls.drop_first() == list_lines(tail) + rest);
        assert(names == seq![names[0]] + tail);
    }
}

/// Lines that do not open a list are passed over.
proof fn lemma_from_opening(head: Seq<Seq<char>>, rest: Seq<Seq<char>>, marker: Seq<char>)
    requires
        forall|i: int| 0 <= i < head.len() ==> !opens(#[trigger] head[i], marker),
    ensures
        from_opening(head + rest, marker) == from_opening(rest, marker),
    decreases head.len(),
{
    let ls = head + rest;
    if head.len() == 0 {
        assert(ls == rest);
    } else {
        let tail = head.drop_first();
        assert forall|i: int| 0 <= i < tail.len() implies !opens(#[trigger] tail[i], marker) by {
            assert(tail[i] == head[i + 1]);
        }
        lemma_from_opening(tail, rest, marker);
        assert(ls[0] == head[0]);
        assert(ls.drop_first() == tail + rest);
    }
}

/// A list that begins below its opening line has the entries that stand there.
proof fn lemma_entries_below(opening: Seq<char>, rest: Seq<Seq<char>>, marker: Seq<char>)
    requires
        opens(opening, marker),
        begins_below(opening, marker),
    ensures
        entries(body(seq![opening] + rest, marker)) == entries(rest),
{
    let text = behind_marker(opening, marker);
    let ls = seq![opening] + rest;
    assert(ls[0] == opening);
    assert(ls.drop_first() == rest);
    lemma_opening_below(text);
    lemma_bracketed(text, rest);
    assert(entries(Seq::<Seq<char>>::empty()) == Seq::<Seq<char>>::empty());
    assert(Seq::<Seq<char>>::empty() + entries(rest) == entries(rest));
}

/// Whether the list with the opening line `opening` begins below that line: what is behind
/// the marker ends in a bracket, with a comment behind it or not.
pub open spec fn begins_below(opening: Seq<char>, marker: Seq<char>) -> bool {
    let text = behind_marker(opening, marker);
    let code = trim(uncommented(text));
    ||| trim(text).len() > 0 && trim(text).last() == '['
    ||| code.len() > 0 && code.last() == '['
}

/// Behind a bracket at the end there is no name.
proof fn lemma_opening_below(text: Seq<char>)
    requires
        ({
            let code = trim(uncommented(text));
            ||| trim(text).len() > 0 && trim(text).last() == '['
            ||| code.len() > 0 && code.last() == '['
        }),
    ensures
        opening_in(text) matches Some(opening) && !opening.ended && words(opening.names) == Seq::<
            Seq<char>,
        >::empty(),
{
    let code = uncommented(text);
    let t = trim(code);
    reveal_strlit("[");
    if !(trim(text).len() > 0 && trim(text).last() == '[') {
        lemma_trim_part(code);
        let a = choose|a: int|
            0 <= a <= code.len() - t.len() && #[trigger] code.subrange(a, a + t.len()) == t;
        let k = a + t.len() - 1;
        assert(code[k] == t[t.len() - 1]);
        assert(code.subrange(k, k + "["@.len()) == "["@);
        lemma_blank_behind(code);
        let last = behind_last(code, '[');
        lemma_blank_words(last);
        assert(!last.contains(']')) by {
            if last.contains(']') {
                let i = choose|i: int| 0 <= i < last.len() && last[i] == ']';
                assert(is_white_space(last[i]));
            }
        }
    }
}

/// Where a text, but for white space, ends in a bracket, there is only white space behind
/// that bracket.
proof fn lemma_blank_behind(s: Seq<char>)
    requires
        trim(s).len() > 0,
        trim(s).last() == '[',
    ensures
        forall|i: int|
            0 <= i < behind_last(s, '[').len() ==> is_white_space(#[trigger] behind_last(s, '[')[i]),
    decreases s.len(),
{
    lemma_trim_start_range(s);
    lemma_trim_end_range(trim_start(s));
    let c = s.last();
    if c != '[' {
        assert(trim_start(s).last() == c);
        if !is_white_space(c) {
            assert(trim(s) == trim_start(s));
        }
        lemma_trim_before_white(s.drop_last(), c);
        assert(s.drop_last().push(c) == s);
        lemma_blank_behind(s.drop_last());
        let b = behind_last(s.drop_last(), '[');
        assert(behind_last(s, '[') == b.push(c));
        assert forall|i: int| 0 <= i < b.push(c).len() implies is_white_space(
            #[trigger] b.push(c)[i],
        ) by {
            if i < b.len() {
                assert(b.push(c)[i] == b[i]);
            }
        }
    }
}

proof fn lemma_blank_words(s: Seq<char>)
    requires
        forall|i: int| 0 <= i < s.len() ==> is_white_space(#[trigger] s[i]),
    ensures
        words(s) == Seq::<Seq<char>>::empty(),
    decreases s.len(),
{
    if s.len() > 0 {
        let t = s.drop_last();
        assert forall|i: int| 0 <= i < t.len() implies is_white_space(#[trigger] t[i]) by {
            assert(t[i] == s[i]);
        }
        assert(is_white_space(s[s.len() - 1]));
        lemma_blank_words(t);
    }
}

/// Whether `a` is followed by `b` somewhere in `s`.
spec fn adjacent(s: Seq<char>, a: char, b: char) -> bool {
    exists|j: int| 0 <= j < s.len() - 1 && #[trigger] s[j] == a && s[j + 1] == b
}

proof fn lemma_no_packages_marker(s: Seq<char>)
    requires
        !adjacent(s, 'm', 'P'),
    ensures
        !occurs(PACKAGES_MARKER@, trim(s)),
{
    reveal_strlit("systemPackages");
    let p = PACKAGES_MARKER@;
    if occurs(p, trim(s)) {
        lemma_trim_occurs(p, s);
        let i = choose|i: int|
            0 <= i <= s.len() - p.len() && #[trigger] s.subrange(i, i + p.len()) == p;
        assert(s[i + 5] == p[5] && s[i + 6] == p[6]);
    }
}

proof fn lemma_no_fonts_marker(s: Seq<char>)
    requires
        !adjacent(s, 's', '.'),
    ensures
        !occurs(FONTS_MARKER@, trim(s)),
{
    reveal_strlit("fonts.packages");
    let p = FONTS_MARKER@;
    if occurs(p, trim(s)) {
        lemma_trim_occurs(p, s);
        let i = choose|i: int|
            0 <= i <= s.len() - p.len() && #[trigger] s.subrange(i, i + p.len()) == p;
        assert(s[i + 4] == p[4] && s[i + 5] == p[5]);
    }
}

/// Lines that end in a line feed are split apart from what follows.
proof fn lemma_lines_add(a: Seq<char>, b: Seq<char>)
    requires
        a.len() > 0 ==> a.last() == '\n',
    ensures
        lines(a + b) == lines(a) + lines(b),
    decreases a.len(),
{
    let s = a + b;
    if a.len() == 0 {
        assert(s == b);
        assert(lines(a) + lines(b) == lines(b));
    } else {
        let n = line_len(a);
        lemma_line_len(a);
        assert(n < a.len());
        lemma_line_len_is(s, n);
        let tail = a.skip(n as int + 1);
        if tail.len() > 0 {
            assert(tail.last() == a.last());
        }
        lemma_lines_add(tail, b);
        assert(s.skip(n as int + 1) == tail + b);
        assert(s.take(n as int) == a.take(n as int));
        let first = seq![strip_return(a.take(n as int))];
        assert(first + (lines(tail) + lines(b)) == (first + lines(tail)) + lines(b));
    }
}

/// White space at either end of a text makes no difference to what is left of it.
proof fn lemma_trim_outside(s: Seq<char>)
    ensures
        trim("    "@ + s) == trim(s),
        trim(strip_return(s)) == trim(s),
{
    reveal_strlit("    ");
    let r = "    "@ + s;
    assert(r.drop_first().drop_first().drop_first().drop_first() == s);
    assert(r[0] == ' ' && r.drop_first()[0] == ' ' && r.drop_first().drop_first()[0] == ' '
        && r.drop_first().drop_first().drop_first()[0] == ' ');
    reveal_with_fuel(trim_start, 6);
    assert(trim_start(r) == trim_start(s));
    if s.len() > 0 && s.last() == '\r' {
        lemma_trim_before_white(s.drop_last(), '\r');
        assert(s == s.drop_last().push('\r'));
    }
}

proof fn lemma_trim_before_white(s: Seq<char>, w: char)
    requires
        is_white_space(w),
    ensures
        trim(s.push(w)) == trim(s),
        trim_start(s).len() > 0 ==> trim_start(s.push(w)) == trim_start(s).push(w),
        trim_start(s).len() == 0 ==> trim_start(s.push(w)).len() == 0,
    decreases s.len(),
{
    let t = s.push(w);
    if s.len() == 0 {
        reveal_with_fuel(trim_start, 2);
        assert(t.drop_first() == s);
        assert(trim_start(t) == s);
    } else if is_white_space(s[0]) {
        lemma_trim_before_white(s.drop_first(), w);
        assert(t.drop_first() == s.drop_first().push(w));
    } else {
        assert(t.drop_last() == s);
    }
}

/// A line feed behind a text brings no new line that opens a list.
proof fn lemma_feed_opens_nothing(s: Seq<char>, marker: Seq<char>)
    requires
        opens_nothing(s, marker),
        marker.len() > 0,
    ensures
        opens_nothing(s.push('\n'), marker),
    decreases s.len(),
{
    let t = s.push('\n');
    let n = line_len(s);
    lemma_line_len(s);
    assert(forall|i: int| 0 <= i < n ==> t[i] == s[i]);
    lemma_line_len_is(t, n);
    assert(t.take(n as int) == s.take(n as int));
    let ls = lines(t);
    if n < s.len() {
        let tail = s.skip(n as int + 1);
        assert(t.skip(n as int + 1) == tail.push('\n'));
        assert forall|k: int| 0 <= k < lines(tail).len() implies !opens(
            #[trigger] lines(tail)[k],
            marker,
        ) by {
            assert(lines(s)[k + 1] == lines(tail)[k]);
        }
        lemma_feed_opens_nothing(tail, marker);
        assert forall|k: int| 0 <= k < ls.len() implies !opens(#[trigger] ls[k], marker) by {
            if k == 0 {
                assert(ls[k] == lines(s)[0]);
            } else {
                assert(ls[k] == lines(tail.push('\n'))[k - 1]);
            }
        }
    } else {
        assert(s.take(n as int) == s);
        assert(t.skip(n as int + 1) == Seq::<char>::empty());
        assert(lines(Seq::<char>::empty()) == Seq::<Seq<char>>::empty());
        lemma_trim_outside(s);
        if s.len() > 0 {
            assert(lines(s)[0] == s);
        } else {
            assert(trim(s) == s);
        }
        assert forall|k: int| 0 <= k < ls.len() implies !opens(#[trigger] ls[k], marker) by {
            assert(ls[k] == strip_return(s));
        }
    }
}

/// A name opens no list where it stands in one, if it opens none by itself.
proof fn lemma_row_opens_nothing(name: Seq<char>, marker: Seq<char>)
    requires
        opens_nothing(name, marker),
        marker.len() > 0,
    ensures
        opens_nothing(("    "@ + name).push('\n'), marker),
{
    reveal_strlit("    ");
    let s = name.push('\n');
    let t = ("    "@ + name).push('\n');
    let n = line_len(s);
    lemma_feed_opens_nothing(name, marker);
    lemma_line_len(s);
    assert(s[s.len() - 1] == '\n');
    assert(t == "    "@ + s);
    assert forall|i: int| 0 <= i < n + 4 implies t[i] != '\n' by {
        if i >= 4 {
            assert(t[i] == s[i - 4]);
        }
    }
    lemma_line_len_is(t, n + 4);
    let x = s.take(n as int);
    assert(t.take(n as int + 4) == "    "@ + x);
    assert(strip_return("    "@ + x) == "    "@ + strip_return(x));
    assert(t.skip(n as int + 5) == s.skip(n as int + 1));
    lemma_trim_outside(strip_return(x));
    assert forall|k: int| 0 <= k < lines(t).len() implies !opens(#[trigger] lines(t)[k], marker) by {
        if k == 0 {
            assert(lines(s)[0] == strip_return(x));
            assert(lines(t)[0] == "    "@ + strip_return(x));
        } else {
            assert(lines(t)[k] == lines(s)[k]);
        }
    }
}

/// Lines of which none opens a list make a text that opens none.
proof fn lemma_unlines_open_nothing(ls: Seq<Seq<char>>, marker: Seq<char>)
    requires
        forall|i: int| 0 <= i < ls.len() ==> opens_nothing((#[trigger] ls[i]).push('\n'), marker),
    ensures
        opens_nothing(unlines(ls), marker),
        unlines(ls).len() > 0 ==> unlines(ls).last() == '\n',
    decreases ls.len(),
{
    if ls.len() > 0 {
        let front = ls.drop_last();
        let last = ls.last().push('\n');
        assert forall|i: int| 0 <= i < front.len() implies opens_nothing(
            (#[trigger] front[i]).push('\n'),
            marker,
        ) by {
            assert(front[i] == ls[i]);
        }
        lemma_unlines_open_nothing(front, marker);
        assert(unlines(ls) == unlines(front) + last);
        lemma_lines_add(unlines(front), last);
        assert(opens_nothing(ls[ls.len() - 1].push('\n'), marker));
        let all = lines(unlines(ls));
        assert forall|k: int| 0 <= k < all.len() implies !opens(#[trigger] all[k], marker) by {
            let n = lines(unlines(front)).len();
            if k < n {
                assert(all[k] == lines(unlines(front))[k]);
            } else {
                assert(all[k] == lines(last)[k - n]);
            }
        }
    }
}

/// A line without the marker opens no list.
proof fn lemma_line_opens_nothing(line: Seq<char>, marker: Seq<char>)
    requires
        is_line(line),
        !occurs(marker, trim(line)),
    ensures
        opens_nothing(line.push('\n'), marker),
{
    let t = line.push('\n');
    assert forall|i: int| 0 <= i < line.len() implies t[i] != '\n' by {
        assert(line.contains(line[i]));
    }
    lemma_line_len_is(t, line.len());
    assert(t.take(line.len() as int) == line);
    assert(t.skip(line.len() as int + 1) == Seq::<char>::empty());
    assert(lines(Seq::<char>::empty()) == Seq::<Seq<char>>::empty());
    assert(lines(t) == seq![line]);
}

/// The lines of `packages.conf` before those of the list of packages.
spec fn top_lines() -> Seq<Seq<char>> {
    seq![
        "# Managed by spin - Simple Package Installer for Nix"@,
        "# Do not edit manually. Use: spin -i <pkg> / -r <pkg>  (fonts: spin -fi / -fr)"@,
        "{ pkgs, ... }:"@,
        "{"@,
    ]
}

proof fn lemma_first_comment()
    ensures
        is_line("# Managed by spin - Simple Package Installer for Nix"@),
        !adjacent("# Managed by spin - Simple Package Installer for Nix"@, 'm', 'P'),
        !adjacent("# Managed by spin - Simple Package Installer for Nix"@, 's', '.'),
{
    reveal_strlit("# Managed by spin - Simple Package Installer for Nix");
}

proof fn lemma_second_comment()
    ensures
        is_line("# Do not edit manually. Use: spin -i <pkg> / -r <pkg>  (fonts: spin -fi / -fr)"@),
        !adjacent(
            "# Do not edit manually. Use: spin -i <pkg> / -r <pkg>  (fonts: spin -fi / -fr)"@,
            'm',
            'P',
        ),
        !adjacent(
            "# Do not edit manually. Use: spin -i <pkg> / -r <pkg>  (fonts: spin -fi / -fr)"@,
            's',
            '.',
        ),
{
    reveal_strlit("# Do not edit manually. Use: spin -i <pkg> / -r <pkg>  (fonts: spin -fi / -fr)");
}

proof fn lemma_braces()
    ensures
        is_line("{ pkgs, ... }:"@),
        !adjacent("{ pkgs, ... }:"@, 'm', 'P'),
        !adjacent("{ pkgs, ... }:"@, 's', '.'),
        is_line("{"@),
        !adjacent("{"@, 'm', 'P'),
        !adjacent("{"@, 's', '.'),
        is_line("}"@),
        is_line("  ];"@),
        !adjacent("  ];"@, 's', '.'),
{
    reveal_strlit("{ pkgs, ... }:");
    reveal_strlit("{");
    reveal_strlit("}");
    reveal_strlit("  ];");
}

proof fn lemma_packages_opening()
    ensures
        is_line("  environment.systemPackages = with pkgs; ["@),
        opens("  environment.systemPackages = with pkgs; ["@, PACKAGES_MARKER@),
        begins_below("  environment.systemPackages = with pkgs; ["@, PACKAGES_MARKER@),
        !adjacent("  environment.systemPackages = with pkgs; ["@, 's', '.'),
{
    reveal_strlit("  environment.systemPackages = with pkgs; [");
    reveal_strlit("systemPackages");
    let l = "  environment.systemPackages = with pkgs; ["@;
    let t = l.drop_first().drop_first();
    let m = PACKAGES_MARKER@;
    reveal_with_fuel(trim_start, 4);
    assert(trim(l) == t);
    assert(t.subrange(12, 12int + m.len()) == m);
    lemma_found_at_is(m, t, 12);
    lemma_ends_in_bracket(l, m, 12);
}

proof fn lemma_fonts_opening()
    ensures
        is_line("  fonts.packages = with pkgs; ["@),
        opens("  fonts.packages = with pkgs; ["@, FONTS_MARKER@),
        begins_below("  fonts.packages = with pkgs; ["@, FONTS_MARKER@),
{
    reveal_strlit("  fonts.packages = with pkgs; [");
    reveal_strlit("fonts.packages");
    let l = "  fonts.packages = with pkgs; ["@;
    let t = l.drop_first().drop_first();
    let m = FONTS_MARKER@;
    reveal_with_fuel(trim_start, 4);
    assert(trim(l) == t);
    let i: int = 0;
    assert(t.subrange(i, i + m.len()) == m);
    lemma_found_at_is(m, t, 0);
    lemma_ends_in_bracket(l, m, 0);
}

/// A line that ends in a bracket has its list below.
proof fn lemma_ends_in_bracket(line: Seq<char>, marker: Seq<char>, n: int)
    requires
        found_at(marker, trim(line)) == Some(n),
        0 <= n,
        n + marker.len() < trim(line).len(),
        trim(line).last() == '[',
    ensures
        begins_below(line, marker),
{
    let r = behind_marker(line, marker);
    assert(r.last() == '[');
    lemma_trim_keeps_last(r);
}

/// Trimming keeps the last character of a text, unless it is white space.
proof fn lemma_trim_keeps_last(s: Seq<char>)
    requires
        s.len() > 0,
        !is_white_space(s.last()),
    ensures
        trim(s).len() > 0,
        trim(s).last() == s.last(),
    decreases s.len(),
{
    if is_white_space(s[0]) {
        assert(s.drop_first().len() > 0);
        assert(s.drop_first().last() == s.last());
        lemma_trim_keeps_last(s.drop_first());
        assert(trim(s) == trim(s.drop_first()));
    }
}

proof fn lemma_rows(names: Seq<Seq<char>>, i: int)
    requires
        all_listable(names),
        0 <= i < list_lines(names).len(),
    ensures
        is_line(list_lines(names)[i]),
{
    if i < names.len() {
        assert(listable(names[i]));
        lemma_row(names[i]);
    } else {
        lemma_braces();
    }
}

/// The packages that were written are those that are read, where each of their names can
/// stand in a list.
pub proof fn law_written_packages_read_back(packages: Seq<Seq<char>>, fonts: Seq<Seq<char>>)
    requires
        all_listable(packages),
    ensures
        list_in(conf_text(packages, fonts), PACKAGES_MARKER@) == packages,
{
    lemma_first_comment();
    lemma_second_comment();
    lemma_braces();
    lemma_packages_opening();
    let top = top_lines();
    let opening = "  environment.systemPackages = with pkgs; ["@;
    let rows = list_lines(packages);
    let head = top + seq![opening] + rows;
    let rest = seq!["  fonts.packages = with pkgs; ["@] + list_lines(fonts) + seq!["}"@];
    assert(conf_lines(packages, fonts) == head + rest);
    lemma_unlines_add(head, rest);
    assert forall|i: int| 0 <= i < head.len() implies #[trigger] is_line(head[i]) by {
        if i >= 5 {
            lemma_rows(packages, i - 5);
            assert(head[i] == rows[i - 5]);
        }
    }
    lemma_lines_unlines(head, unlines(rest));
    let more = lines(unlines(rest));
    let below = seq![opening] + (rows + more);
    assert(head + more == top + below);
    assert forall|i: int| 0 <= i < top.len() implies !opens(#[trigger] top[i], PACKAGES_MARKER@) by {
        lemma_no_packages_marker(top[i]);
    }
    lemma_from_opening(top, below, PACKAGES_MARKER@);
    assert(below[0] == opening);
    lemma_entries_below(opening, rows + more, PACKAGES_MARKER@);
    lemma_entries_of_rows(packages, more);
}

/// The fonts that were written are those that are read, where each of their names can stand
/// in a list and no package is taken for the opening line of the fonts list.
pub proof fn law_written_fonts_read_back(packages: Seq<Seq<char>>, fonts: Seq<Seq<char>>)
    requires
        all_listable(fonts),
        none_opens(packages, FONTS_MARKER@),
    ensures
        list_in(conf_text(packages, fonts), FONTS_MARKER@) == fonts,
{
    lemma_first_comment();
    lemma_second_comment();
    lemma_braces();
    lemma_packages_opening();
    lemma_fonts_opening();
    reveal_strlit("fonts.packages");
    let marker = FONTS_MARKER@;
    let opening = "  fonts.packages = with pkgs; ["@;
    let head = top_lines() + seq!["  environment.systemPackages = with pkgs; ["@] + list_lines(
        packages,
    );
    let rows = list_lines(fonts);
    let rest = seq![opening] + (rows + seq!["}"@]);
    assert(conf_lines(packages, fonts) == head + rest);
    lemma_unlines_add(head, rest);
    assert forall|i: int| 0 <= i < head.len() implies opens_nothing(
        (#[trigger] head[i]).push('\n'),
        marker,
    ) by {
        if 5 <= i < 5 + packages.len() {
            assert(head[i] == "    "@ + packages[i - 5]);
            assert(opens_nothing(packages[i - 5], marker));
            lemma_row_opens_nothing(packages[i - 5], marker);
        } else {
            lemma_no_fonts_marker(head[i]);
            lemma_line_opens_nothing(head[i], marker);
        }
    }
    lemma_unlines_open_nothing(head, marker);
    lemma_lines_add(unlines(head), unlines(rest));
    assert forall|i: int| 0 <= i < rest.len() implies #[trigger] is_line(rest[i]) by {
        if 1 <= i <= rows.len() {
            lemma_rows(fonts, i - 1);
            assert(rest[i] == rows[i - 1]);
        }
    }
    lemma_lines_unlines(rest, Seq::empty());
    assert(unlines(rest) + Seq::<char>::empty() == unlines(rest));
    assert(rest + lines(Seq::empty()) == rest);
    lemma_from_opening(lines(unlines(head)), rest, marker);
    assert(rest[0] == opening);
    lemma_entries_below(opening, rows + seq!["}"@], marker);
    lemma_entries_of_rows(fonts, seq!["}"@]);
}

/// A comment above a file makes no difference to the lists in it.
pub proof fn law_comment_opens_no_list(comment: Seq<char>, content: Seq<char>, marker: Seq<char>)
    requires
        is_comment(comment),
        !comment.contains('\n'),
    ensures
        list_in(comment.push('\n') + content, marker) == list_in(content, marker),
{
    let t = comment.push('\n');
    assert forall|i: int| 0 <= i < comment.len() implies t[i] != '\n' by {
        assert(comment.contains(comment[i]));
    }
    lemma_line_len_is(t, comment.len());
    assert(t.take(comment.len() as int) == comment);
    assert(t.skip(comment.len() as int + 1) == Seq::<char>::empty());
    assert(lines(Seq::<char>::empty()) == Seq::<Seq<char>>::empty());
    assert(lines(t) == seq![strip_return(comment)]);
    lemma_trim_outside(comment);
    lemma_lines_add(t, content);
    lemma_from_opening(lines(t), lines(content), marker);
}

/// A list that begins below its opening line has exactly the entries on the lines below, up
/// to the one that closes it.
pub proof fn law_list_is_read_below(opening: Seq<char>, content: Seq<char>, marker: Seq<char>)
    requires
        opens(opening, marker),
        begins_below(opening, marker),
        !opening.contains('\n'),
    ensures
        list_in(opening.push('\n') + content, marker) == entries(lines(content)),
{
    let t = opening.push('\n');
    let line = strip_return(opening);
    assert forall|i: int| 0 <= i < opening.len() implies t[i] != '\n' by {
        assert(opening.contains(opening[i]));
    }
    lemma_line_len_is(t, opening.len());
    assert(t.take(opening.len() as int) == opening);
    assert(t.skip(opening.len() as int + 1) == Seq::<char>::empty());
    assert(lines(Seq::<char>::empty()) == Seq::<Seq<char>>::empty());
    assert(lines(t) == seq![line]);
    lemma_trim_outside(opening);
    lemma_lines_add(t, content);
    lemma_entries_below(line, lines(content), marker);
}

/// An entry that was read can be written again and read once more, unless it ends in a
/// semicolon or is a single bracket.
pub proof fn law_read_names_listable(content: Seq<char>, marker: Seq<char>, i: int)
    requires
        0 <= i < list_in(content, marker).len(),
    ensures
        ({
            let name = list_in(content, marker)[i];
            listable(name) <==> name.last() != ';' && name != "["@
        }),
{
    let ls = body(lines(content), marker);
    lemma_lines_have_no_feed(content);
    lemma_body_without_feed(lines(content), marker);
    lemma_entry_from(ls, i);
    let k = choose|k: int|
        0 <= k < ls.len() && !closes(#[trigger] ls[k]) && entry(ls[k]) == Some(entries(ls)[i]);
    let line = ls[k];
    let t = trim(line);
    let c = trim_end_char(t, ';');
    let name = entries(ls)[i];
    assert(!line.contains('\n'));
    lemma_trim_start_range(line);
    lemma_trim_end_range(trim_start(line));
    lemma_trim_end_char_range(t, ';');
    lemma_trim_start_range(c);
    lemma_trim_end_range(trim_start(c));
    lemma_trim_ends(line);
    lemma_trim_ends(c);
    assert(trim_start(c) == c) by {
        assert(c.len() > 0);
        assert(c[0] == t[0]);
    }
    assert(name == t.take(name.len() as int));
    assert(name[0] == t[0]);
    assert forall|j: int| 0 <= j < name.len() implies name[j] != '\n' by {
        let d = line.len() - trim_start(line).len();
        assert(name[j] == line[d + j]);
        assert(line.contains(line[d + j]));
    }
    if "];"@.is_prefix_of(name) {
        assert("];"@ == name.take("];"@.len() as int));
        assert("];"@ == t.take("];"@.len() as int));
        assert("];"@.is_prefix_of(t));
    }
}

/// Whether no line of `ls` has a line feed in it.
spec fn without_feed(ls: Seq<Seq<char>>) -> bool {
    forall|k: int| 0 <= k < ls.len() ==> !(#[trigger] ls[k]).contains('\n')
}

proof fn lemma_lines_have_no_feed(s: Seq<char>)
    ensures
        without_feed(lines(s)),
    decreases s.len(),
{
    if s.len() > 0 {
        let n = line_len(s);
        lemma_line_len(s);
        if n < s.len() {
            let rest = s.skip(n as int + 1);
            lemma_lines_have_no_feed(rest);
            assert forall|k: int| 0 <= k < lines(s).len() implies !(
            #[trigger] lines(s)[k]).contains('\n') by {
                if k > 0 {
                    assert(lines(s)[k] == lines(rest)[k - 1]);
                }
            }
        }
    }
}

/// A part of a line has no line feed in it either.
proof fn lemma_part_without_feed(s: Seq<char>, a: int, b: int)
    requires
        !s.contains('\n'),
        0 <= a <= b <= s.len(),
    ensures
        !s.subrange(a, b).contains('\n'),
{
    let t = s.subrange(a, b);
    if t.contains('\n') {
        let k = choose|k: int| 0 <= k < t.len() && t[k] == '\n';
        assert(s[a + k] == '\n');
    }
}

proof fn lemma_trim_without_feed(s: Seq<char>)
    requires
        !s.contains('\n'),
    ensures
        !trim(s).contains('\n'),
{
    lemma_trim_part(s);
    let t = trim(s);
    let a = choose|a: int| 0 <= a <= s.len() - t.len() && #[trigger] s.subrange(a, a + t.len()) == t;
    lemma_part_without_feed(s, a, a + t.len());
}

proof fn lemma_uncommented_without_feed(s: Seq<char>)
    requires
        !s.contains('\n'),
    ensures
        !uncommented(s).contains('\n'),
    decreases s.len(),
{
    let u = uncommented(s);
    if s.len() == 0 || s[0] == '#' {
    } else if s.len() > 1 && s[0] == '/' && s[1] == '*' {
        match found_at("*/"@, s.skip(2)) {
            Some(n) => {
                if 0 <= n <= s.len() - 4 {
                    lemma_part_without_feed(s, n + 4, s.len() as int);
                    assert(s.subrange(n + 4, s.len() as int) == s.skip(n + 4));
                    lemma_uncommented_without_feed(s.skip(n + 4));
                }
            },
            None => {},
        }
    } else {
        lemma_part_without_feed(s, 1, s.len() as int);
        assert(s.subrange(1, s.len() as int) == s.drop_first());
        lemma_uncommented_without_feed(s.drop_first());
        let v = uncommented(s.drop_first());
        if u.contains('\n') {
            let k = choose|k: int| 0 <= k < u.len() && u[k] == '\n';
            if k > 0 {
                assert(v[k - 1] == '\n');
            } else {
                assert(s[0] == '\n');
            }
        }
    }
}

proof fn lemma_behind_last_without_feed(s: Seq<char>, c: char)
    requires
        !s.contains('\n'),
    ensures
        !behind_last(s, c).contains('\n'),
{
    let a = s.len() - behind_last(s, c).len();
    lemma_behind_last(s, c);
    lemma_part_without_feed(s, a, s.len() as int);
    assert(s.subrange(a, s.len() as int) == s.skip(a));
}

proof fn lemma_opening_without_feed(text: Seq<char>)
    requires
        !text.contains('\n'),
    ensures
        opening_in(text) matches Some(opening) ==> !opening.names.contains('\n'),
{
    let code = uncommented(text);
    lemma_uncommented_without_feed(text);
    lemma_behind_last_without_feed(code, '[');
    lemma_found_at("["@, code);
    if occurs("["@, code) {
        reveal_strlit("[");
        let a = found_at("["@, code)->0 + 1;
        let inside = code.skip(a);
        lemma_part_without_feed(code, a, code.len() as int);
        assert(code.subrange(a, code.len() as int) == inside);
        lemma_found_at("];"@, inside);
        match found_at("];"@, inside) {
            Some(n) => {
                lemma_part_without_feed(inside, 0, n);
                assert(inside.subrange(0, n) == inside.take(n));
                lemma_behind_last_without_feed(inside.take(n), '[');
            },
            None => {},
        }
    }
}

proof fn lemma_bracketed_without_feed(opening: Opening, rest: Seq<Seq<char>>)
    requires
        !opening.names.contains('\n'),
        without_feed(rest),
    ensures
        without_feed(bracketed(opening, rest)),
{
    let names = opening.names;
    let ws = words(names);
    let ls = bracketed(opening, rest);
    lemma_words(names);
    assert forall|k: int| 0 <= k < ls.len() implies !(#[trigger] ls[k]).contains('\n') by {
        if k < ws.len() {
            let w = ws[k];
            assert(occurs(w, names));
            let i = choose|i: int|
                0 <= i <= names.len() - w.len() && #[trigger] names.subrange(i, i + w.len()) == w;
            lemma_part_without_feed(names, i, i + w.len());
            assert(ls[k] == w);
        } else {
            assert(ls[k] == rest[k - ws.len()]);
        }
    }
}

proof fn lemma_unbracketed_without_feed(ls: Seq<Seq<char>>)
    requires
        without_feed(ls),
    ensures
        without_feed(unbracketed(ls)),
    decreases ls.len(),
{
    if ls.len() > 0 {
        let tail = ls.drop_first();
        assert(without_feed(tail)) by {
            assert forall|k: int| 0 <= k < tail.len() implies !(#[trigger] tail[k]).contains('\n') by {
                assert(tail[k] == ls[k + 1]);
            }
        }
        let t = trim(ls[0]);
        lemma_trim_without_feed(ls[0]);
        if "["@.is_prefix_of(t) {
            lemma_opening_without_feed(t);
            if opening_in(t) is Some {
                lemma_bracketed_without_feed(opening_in(t)->0, tail);
            }
        } else {
            lemma_unbracketed_without_feed(tail);
            let r = seq![ls[0]] + unbracketed(tail);
            assert forall|k: int| 0 <= k < r.len() implies !(#[trigger] r[k]).contains('\n') by {
                if k > 0 {
                    assert(r[k] == unbracketed(tail)[k - 1]);
                }
            }
        }
    }
}

proof fn lemma_body_without_feed(ls: Seq<Seq<char>>, marker: Seq<char>)
    requires
        without_feed(ls),
    ensures
        without_feed(body(ls, marker)),
    decreases ls.len(),
{
    if ls.len() > 0 {
        let tail = ls.drop_first();
        assert(without_feed(tail)) by {
            assert forall|k: int| 0 <= k < tail.len() implies !(#[trigger] tail[k]).contains('\n') by {
                assert(tail[k] == ls[k + 1]);
            }
        }
        if opens(ls[0], marker) {
            let t = trim(ls[0]);
            lemma_trim_without_feed(ls[0]);
            lemma_found_at(marker, t);
            let a = found_at(marker, t)->0 + marker.len();
            let r = t.skip(a);
            lemma_part_without_feed(t, a, t.len() as int);
            assert(t.subrange(a, t.len() as int) == r);
            lemma_opening_without_feed(r);
            match opening_in(r) {
                Some(opening) => {
                    lemma_bracketed_without_feed(opening, tail);
                },
                None => {
                    lemma_unbracketed_without_feed(tail);
                },
            }
        } else {
            lemma_body_without_feed(tail, marker);
        }
    }
}

/// Every entry stands on a line that does not close the list.
proof fn lemma_entry_from(ls: Seq<Seq<char>>, i: int)
    requires
        0 <= i < entries(ls).len(),
    ensures
        exists|k: int|
            0 <= k < ls.len() && !closes(#[trigger] ls[k]) && entry(ls[k]) == Some(entries(ls)[i]),
    decreases ls.len(),
{
    let tail = ls.drop_first();
    let first = entry(ls[0]) is Some;
    if first && i == 0 {
        assert(entry(ls[0]) == Some(entries(ls)[i]));
    } else {
        let j = if first {
            i - 1
        } else {
            i
        };
        assert(entries(tail)[j] == entries(ls)[i]);
        lemma_entry_from(tail, j);
        let k = choose|k: int|
            0 <= k < tail.len() && !closes(#[trigger] tail[k]) && entry(tail[k]) == Some(
                entries(tail)[j],
            );
        assert(ls[k + 1] == tail[k]);
    }
}

proof fn lemma_trim_end_char_range(s: Seq<char>, c: char)
    ensures
        trim_end_char(s, c).len() <= s.len(),
        trim_end_char(s, c) == s.take(trim_end_char(s, c).len() as int),
    decreases s.len(),
{
    if s.len() > 0 && s.last() == c {
        lemma_trim_end_char_range(s.drop_last(), c);
        assert(trim_end_char(s, c) == s.take(trim_end_char(s, c).len() as int));
    }
}

/// What was trimmed has no white space at its ends.
proof fn lemma_trim_ends(s: Seq<char>)
    ensures
        trim(s).len() > 0 ==> !is_white_space(trim(s)[0]) && !is_white_space(trim(s).last()),
{
    lemma_trim_start_head(s);
    lemma_trim_end_last(trim_start(s));
    lemma_trim_end_range(trim_start(s));
}

proof fn lemma_trim_start_head(s: Seq<char>)
    ensures
        trim_start(s).len() > 0 ==> !is_white_space(trim_start(s)[0]),
    decreases s.len(),
{
    if s.len() > 0 && is_white_space(s[0]) {
        lemma_trim_start_head(s.drop_first());
    }
}

proof fn lemma_trim_end_last(s: Seq<char>)
    ensures
        trim_end(s).len() > 0 ==> !is_white_space(trim_end(s).last()),
    decreases s.len(),
{
    if s.len() > 0 && is_white_space(s.last()) {
        lemma_trim_end_last(s.drop_last());
    }
}

} // verus!
