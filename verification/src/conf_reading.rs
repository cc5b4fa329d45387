//! How `packages.conf` is read and written, piece by piece.

use crate::conf::{
    behind_marker, body, closes, conf_lines, conf_text, entries, entry, imported, imports_on,
    list_in, list_lines, opening_in, opens, unbracketed, uncommented, unlines, Opening,
};
use crate::conf_laws::lemma_unlines_add;
use crate::request::ListsView;
use crate::session::lists_in;
use crate::text::{
    behind_last, lemma_found_at, lemma_found_at_is, lines, occurs, trim, trim_end_char, trim_start,
    words,
};
use crate::text_laws::{
    law_behind_last, law_found_first, law_occurs, law_pair_found, law_stands_inside, stands_at,
};
use vstd::prelude::*;

verus! {

/// The two lists of a file are those with their own markers, each read by itself.
pub proof fn law_lists_have_their_markers(text: Seq<char>)
    ensures
        lists_in(text) == (ListsView {
            packages: entries(body(lines(text), "systemPackages"@)),
            fonts: entries(body(lines(text), "fonts.packages"@)),
        }),
{
}

/// A line opens a list where it holds the marker and does not begin with `#`.
pub proof fn law_opens(line: Seq<char>, marker: Seq<char>)
    ensures
        opens(line, marker) <==> {
            &&& exists|a: Seq<char>, b: Seq<char>| trim(line) == #[trigger] (a + marker + b)
            &&& !(exists|b: Seq<char>| trim(line) == #[trigger] (seq!['#'] + b))
        },
{
    let t = trim(line);
    law_occurs(marker, t);
    if t.len() > 0 && t[0] == '#' {
        let b = t.drop_first();
        assert(t == seq!['#'] + b);
    }
    if exists|b: Seq<char>| t == #[trigger] (seq!['#'] + b) {
        let b = choose|b: Seq<char>| t == #[trigger] (seq!['#'] + b);
        assert(t[0] == '#');
    }
}

/// A line that opens no list is passed over; one that does has its list on it, or below.
pub proof fn law_list_begins_at_its_opening(
    line: Seq<char>,
    rest: Seq<Seq<char>>,
    marker: Seq<char>,
    content: Seq<char>,
)
    ensures
        list_in(content, marker) == entries(body(lines(content), marker)),
        body(Seq::empty(), marker) == Seq::<Seq<char>>::empty(),
        !opens(line, marker) ==> body(seq![line] + rest, marker) == body(rest, marker),
        opens(line, marker) ==> match opening_in(behind_marker(line, marker)) {
            Some(opening) => body(seq![line] + rest, marker) == words(opening.names) + (
            if opening.ended {
                Seq::empty()
            } else {
                rest
            }),
            None => body(seq![line] + rest, marker) == unbracketed(rest),
        },
{
    let ls = seq![line] + rest;
    assert(ls[0] == line);
    assert(ls.drop_first() == rest);
    if opens(line, marker) && opening_in(behind_marker(line, marker)) is Some {
        let ws = words(opening_in(behind_marker(line, marker))->0.names);
        assert(ws + Seq::<Seq<char>>::empty() == ws);
    }
}

/// Below an opening line without a bracket, lines are read as they are until the list is
/// closed or a line begins with the bracket.
pub proof fn law_bracket_below(line: Seq<char>, rest: Seq<Seq<char>>)
    ensures
        unbracketed(Seq::empty()) == Seq::<Seq<char>>::empty(),
        (exists|x: Seq<char>| trim(line) == #[trigger] ("];"@ + x)) ==> unbracketed(
            seq![line] + rest,
        ) == Seq::<Seq<char>>::empty(),
        (exists|x: Seq<char>| trim(line) == #[trigger] ("["@ + x)) ==> {
            &&& opening_in(trim(line)) is Some
            &&& unbracketed(seq![line] + rest) == words(opening_in(trim(line))->0.names) + (
            if opening_in(trim(line))->0.ended {
                Seq::empty()
            } else {
                rest
            })
        },
        !(exists|x: Seq<char>| trim(line) == #[trigger] ("];"@ + x)) && !(exists|x: Seq<char>|
            trim(line) == #[trigger] ("["@ + x)) ==> unbracketed(seq![line] + rest) == seq![line]
            + unbracketed(rest),
{
    let ls = seq![line] + rest;
    let t = trim(line);
    assert(ls[0] == line);
    assert(ls.drop_first() == rest);
    lemma_begins(t, "];"@);
    lemma_begins(t, "["@);
    reveal_strlit("];");
    reveal_strlit("[");
    if "["@.is_prefix_of(t) {
        assert(t[0] == "["@[0]);
        if "];"@.is_prefix_of(t) {
            assert(t[0] == "];"@[0]);
        }
        let code = uncommented(t);
        assert(code[0] == '[');
        let start: int = 0;
        assert(code.subrange(start, start + "["@.len()) == "["@);
        let ws = words(opening_in(t)->0.names);
        assert(ws + Seq::<Seq<char>>::empty() == ws);
    }
}

proof fn lemma_begins(t: Seq<char>, p: Seq<char>)
    ensures
        p.is_prefix_of(t) <==> exists|x: Seq<char>| t == #[trigger] (p + x),
{
    if p.is_prefix_of(t) {
        let x = t.skip(p.len() as int);
        assert(t == p + x);
    }
    if exists|x: Seq<char>| t == #[trigger] (p + x) {
        let x = choose|x: Seq<char>| t == #[trigger] (p + x);
        assert((p + x).take(p.len() as int) == p);
    }
}

/// A line that begins with `];` closes the list. One that is blank, a comment, a bracket or
/// only semicolons has no entry; any other has one: the line without the semicolons at its
/// end and white space around it.
pub proof fn law_entries(line: Seq<char>, rest: Seq<Seq<char>>, name: Seq<char>, semis: Seq<char>)
    requires
        trim(line) == name + semis,
        forall|i: int| 0 <= i < semis.len() ==> #[trigger] semis[i] == ';',
        name.len() > 0 ==> name.last() != ';',
    ensures
        entries(Seq::empty()) == Seq::<Seq<char>>::empty(),
        (exists|x: Seq<char>| trim(line) == #[trigger] ("];"@ + x)) ==> entries(seq![line] + rest)
            == Seq::<Seq<char>>::empty(),
        !(exists|x: Seq<char>| trim(line) == #[trigger] ("];"@ + x)) ==> entries(seq![line] + rest)
            == (if trim(name).len() == 0 || trim(line)[0] == '#' || trim(line) == "["@ {
            Seq::empty()
        } else {
            seq![trim(name)]
        }) + entries(rest),
{
    let ls = seq![line] + rest;
    assert(ls[0] == line);
    assert(ls.drop_first() == rest);
    lemma_begins(trim(line), "];"@);
    lemma_semicolons(name, semis);
    assert(Seq::<Seq<char>>::empty() + entries(rest) == entries(rest));
    if trim(line).len() == 0 {
        assert(name == Seq::<char>::empty());
        assert(trim(name).len() == 0);
    }
}

proof fn lemma_semicolons(name: Seq<char>, semis: Seq<char>)
    requires
        forall|i: int| 0 <= i < semis.len() ==> #[trigger] semis[i] == ';',
        name.len() > 0 ==> name.last() != ';',
    ensures
        trim_end_char(name + semis, ';') == name,
    decreases semis.len(),
{
    let s = name + semis;
    if semis.len() == 0 {
        assert(s == name);
    } else {
        let t = semis.drop_last();
        assert forall|i: int| 0 <= i < t.len() implies #[trigger] t[i] == ';' by {
            assert(t[i] == semis[i]);
        }
        lemma_semicolons(name, t);
        assert(semis[semis.len() - 1] == ';');
        assert(s.drop_last() == name + t);
    }
}

/// What is behind the marker is what follows the first place at which it stands.
pub proof fn law_behind_marker(line: Seq<char>, marker: Seq<char>, n: int)
    requires
        0 <= n <= trim(line).len(),
        stands_at(marker, trim(line), n),
        forall|k: int| 0 <= k < n ==> !#[trigger] stands_at(marker, trim(line), k),
    ensures
        behind_marker(line, marker) == trim(line).skip(n + marker.len()),
{
    law_found_first(marker, trim(line), n);
}

/// A comment is what follows `#`, or stands between `/*` and the next `*/`; everything else
/// is kept as it is.
pub proof fn law_uncommented(c: char, s: Seq<char>, b: Seq<char>)
    ensures
        uncommented(Seq::empty()) == Seq::<char>::empty(),
        uncommented(seq!['#'] + s) == Seq::<char>::empty(),
        c != '#' && !(c == '/' && s.len() > 0 && s[0] == '*') ==> uncommented(seq![c] + s) == seq![c]
            + uncommented(s),
        !occurs("*/"@, b) ==> uncommented(seq!['/', '*'] + b) == Seq::<char>::empty(),
        !occurs("*/"@, b) ==> uncommented(seq!['/', '*'] + b + "*/"@ + s) == uncommented(s),
{
    reveal_strlit("*/");
    let end = "*/"@;
    assert((seq!['#'] + s)[0] == '#');
    let t = seq![c] + s;
    assert(t[0] == c);
    assert(t.drop_first() == s);
    if s.len() > 0 {
        assert(t[1] == s[0]);
    }
    if !occurs(end, b) {
        let u = seq!['/', '*'] + b;
        assert(u.skip(2) == b);
        assert(u[0] == '/' && u[1] == '*');
        lemma_found_at(end, b);
        let v = seq!['/', '*'] + b + end + s;
        assert(v[0] == '/' && v[1] == '*');
        assert(v.skip(2) == b + end + s);
        law_pair_found(b, end, s);
        let n = b.len() as int;
        assert(v.skip(n + 4) == s);
    }
}

/// Where a text ends in a bracket, the list is below. Else comments do not count: where the
/// last bracket has no bracket of either kind behind it, the names behind it are the first
/// of the list; without a bracket the list has not begun.
pub proof fn law_open_bracket(text: Seq<char>, a: Seq<char>, names: Seq<char>)
    requires
        uncommented(text) == a.push('[') + names,
        !names.contains('['),
        !names.contains(']'),
    ensures
        opening_in(text) == Some(
            Opening {
                names: if trim(text).len() > 0 && trim(text).last() == '[' {
                    Seq::empty()
                } else {
                    names
                },
                ended: false,
            },
        ),
{
    let code = a.push('[') + names;
    law_behind_last(a, '[', names);
    reveal_strlit("[");
    assert(code == a + "["@ + names);
    law_stands_inside(a, "["@, names);
}

/// A text without a bracket outside of comments has nothing of a list.
pub proof fn law_no_bracket(text: Seq<char>)
    requires
        !uncommented(text).contains('['),
        !(trim(text).len() > 0 && trim(text).last() == '['),
    ensures
        opening_in(text) is None,
{
    let code = uncommented(text);
    reveal_strlit("[");
    if occurs("["@, code) {
        let i = choose|i: int|
            0 <= i <= code.len() - "["@.len() && #[trigger] code.subrange(i, i + "["@.len()) == "["@;
        assert(code.subrange(i, i + "["@.len())[0] == code[i]);
        assert(code[i] == '[');
    }
}

/// Where every bracket is closed in the text, the list ends with the first `];` behind the
/// first bracket, and its names are behind the last bracket before that; where there is no
/// such end, nothing of the list is in the text.
pub proof fn law_closed_bracket(
    text: Seq<char>,
    a: Seq<char>,
    inside: Seq<char>,
    names: Seq<char>,
    rest: Seq<char>,
)
    requires
        !(trim(text).len() > 0 && trim(text).last() == '['),
        uncommented(text) == a.push('[') + inside,
        !a.contains('['),
        behind_last(inside, '[').contains(']'),
    ensures
        inside == names + "];"@ + rest && !occurs("];"@, names) ==> opening_in(text) == Some(
            Opening { names: behind_last(names, '['), ended: true },
        ),
        !occurs("];"@, inside) ==> opening_in(text) == Some(
            Opening { names: Seq::empty(), ended: false },
        ),
{
    let code = uncommented(text);
    let open = "["@;
    let close = "];"@;
    reveal_strlit("[");
    reveal_strlit("];");
    let n = a.len() as int;
    assert(code.subrange(n, n + open.len()) == open);
    assert forall|j: int| 0 <= j < n implies code[j] != open[0] by {
        assert(a.contains(a[j]));
    }
    lemma_found_at_is(open, code, n);
    assert(code == a + open + inside);
    law_stands_inside(a, open, inside);
    assert(code.skip(n + 1) == inside);
    lemma_last_inside(a, inside);
    lemma_found_at(close, inside);
    if inside == names + close + rest && !occurs(close, names) {
        law_pair_found(names, close, rest);
        let m = names.len() as int;
        assert(inside.take(m) == names);
    }
}

proof fn lemma_last_inside(a: Seq<char>, inside: Seq<char>)
    ensures
        behind_last(a.push('[') + inside, '[') == behind_last(inside, '['),
    decreases inside.len(),
{
    let s = a.push('[') + inside;
    if inside.len() == 0 {
        assert(s.last() == '[');
    } else {
        assert(s.last() == inside.last());
        assert(s.drop_last() == a.push('[') + inside.drop_last());
        if inside.last() != '[' {
            lemma_last_inside(a, inside.drop_last());
        }
    }
}

/// The rows of a list: each name on a line of its own, behind four spaces.
pub open spec fn rows_text(names: Seq<Seq<char>>) -> Seq<char>
    decreases names.len(),
{
    if names.len() == 0 {
        Seq::empty()
    } else {
        rows_text(names.drop_last()) + "    "@ + names.last() + seq!['\n']
    }
}

/// The file has every package and then every font, each on a row of its own and in order,
/// and around them always the same lines.
pub proof fn law_conf_text(packages: Seq<Seq<char>>, fonts: Seq<Seq<char>>)
    ensures
        conf_text(packages, fonts) == "# Managed by spin - Simple Package Installer for Nix"@.push(
            '\n',
        )
            + "# Do not edit manually. Use: spin -i <pkg> / -r <pkg>  (fonts: spin -fi / -fr)"@.push(
            '\n',
        ) + "{ pkgs, ... }:"@.push('\n') + "{"@.push('\n')
            + "  environment.systemPackages = with pkgs; ["@.push('\n') + rows_text(packages)
            + "  ];"@.push('\n') + "  fonts.packages = with pkgs; ["@.push('\n') + rows_text(fonts)
            + "  ];"@.push('\n') + "}"@.push('\n'),
{
    let l1 = "# Managed by spin - Simple Package Installer for Nix"@;
    let l2 = "# Do not edit manually. Use: spin -i <pkg> / -r <pkg>  (fonts: spin -fi / -fr)"@;
    let l3 = "{ pkgs, ... }:"@;
    let l4 = "{"@;
    let l5 = "  environment.systemPackages = with pkgs; ["@;
    let l6 = "  fonts.packages = with pkgs; ["@;
    let l7 = "}"@;
    let (p, f) = (list_lines(packages), list_lines(fonts));
    let a = seq![l1] + seq![l2] + seq![l3] + seq![l4] + seq![l5];
    assert(conf_lines(packages, fonts) == a + p + seq![l6] + f + seq![l7]);
    lemma_unlines_add(a + p + seq![l6] + f, seq![l7]);
    lemma_unlines_add(a + p + seq![l6], f);
    lemma_unlines_add(a + p, seq![l6]);
    lemma_unlines_add(a, p);
    lemma_unlines_add(seq![l1] + seq![l2] + seq![l3] + seq![l4], seq![l5]);
    lemma_unlines_add(seq![l1] + seq![l2] + seq![l3], seq![l4]);
    lemma_unlines_add(seq![l1] + seq![l2], seq![l3]);
    lemma_unlines_add(seq![l1], seq![l2]);
    lemma_unline(l1);
    lemma_unline(l2);
    lemma_unline(l3);
    lemma_unline(l4);
    lemma_unline(l5);
    lemma_unline(l6);
    lemma_unline(l7);
    lemma_rows_text(packages);
    lemma_rows_text(fonts);
    let h = unlines(a);
    assert(conf_text(packages, fonts) == h + (rows_text(packages) + "  ];"@.push('\n')) + l6.push(
        '\n',
    ) + (rows_text(fonts) + "  ];"@.push('\n')) + l7.push('\n'));
    assert(h + (rows_text(packages) + "  ];"@.push('\n')) == h + rows_text(packages) + "  ];"@.push(
        '\n',
    ));
    let g = h + rows_text(packages) + "  ];"@.push('\n') + l6.push('\n');
    assert(g + (rows_text(fonts) + "  ];"@.push('\n')) == g + rows_text(fonts) + "  ];"@.push('\n'));
}

proof fn lemma_unline(line: Seq<char>)
    ensures
        unlines(seq![line]) == line.push('\n'),
{
    assert(seq![line].drop_last() == Seq::<Seq<char>>::empty());
    assert(unlines(Seq::<Seq<char>>::empty()) == Seq::<char>::empty());
    assert(Seq::<char>::empty() + line + seq!['\n'] == line.push('\n'));
}

proof fn lemma_rows_text(names: Seq<Seq<char>>)
    ensures
        unlines(list_lines(names)) == rows_text(names) + "  ];"@.push('\n'),
{
    let rows = names.map_values(|n: Seq<char>| "    "@ + n);
    lemma_rows_unlined(names);
    lemma_unlines_add(rows, seq!["  ];"@]);
    lemma_unline("  ];"@);
}

proof fn lemma_rows_unlined(names: Seq<Seq<char>>)
    ensures
        unlines(names.map_values(|n: Seq<char>| "    "@ + n)) == rows_text(names),
    decreases names.len(),
{
    let g = |n: Seq<char>| "    "@ + n;
    if names.len() > 0 {
        let t = names.drop_last();
        lemma_rows_unlined(t);
        assert(names.map_values(g).drop_last() == t.map_values(g));
        assert(names.map_values(g).last() == "    "@ + names.last());
        assert(rows_text(t) + ("    "@ + names.last()) + seq!['\n'] == rows_text(t) + "    "@
            + names.last() + seq!['\n']);
    }
}

/// The system configuration imports the file where a line names it that does not begin,
/// behind white space, with `#`.
pub proof fn law_imported(config: Seq<char>)
    ensures
        imported(config) <==> exists|i: int, a: Seq<char>, b: Seq<char>|
            0 <= i < lines(config).len() && #[trigger] lines(config)[i] == #[trigger] (a
                + "packages.conf"@ + b) && !(trim_start(lines(config)[i]).len() > 0 && trim_start(
                lines(config)[i],
            )[0] == '#'),
{
    let ls = lines(config);
    let file = "packages.conf"@;
    if imported(config) {
        let i = choose|i: int| 0 <= i < ls.len() && #[trigger] imports_on(ls[i]);
        law_occurs(file, ls[i]);
        let (a, b) = choose|a: Seq<char>, b: Seq<char>| ls[i] == #[trigger] (a + file + b);
        assert(ls[i] == a + file + b);
    }
    if exists|i: int, a: Seq<char>, b: Seq<char>|
        0 <= i < ls.len() && #[trigger] ls[i] == #[trigger] (a + file + b) && !(trim_start(
            ls[i],
        ).len() > 0 && trim_start(ls[i])[0] == '#') {
        let (i, a, b) = choose|i: int, a: Seq<char>, b: Seq<char>|
            0 <= i < ls.len() && #[trigger] ls[i] == #[trigger] (a + file + b) && !(trim_start(
                ls[i],
            ).len() > 0 && trim_start(ls[i])[0] == '#');
        law_stands_inside(a, file, b);
        assert(imports_on(ls[i]));
    }
}

} // verus!
