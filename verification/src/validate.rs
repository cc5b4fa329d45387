//! Checking that names stand for attributes of nixpkgs, and what to say where they do not.

use crate::json::{
    as_truth, bool_in, entry_of, get, is_first_with, law_entry, object_text, read_object,
    read_strings, strings_text, Json,
};
use crate::suggest::{attr_char, attr_name, is_attr_name};
use crate::text::{join, joined, opt_view, views};
use vstd::prelude::*;
use vstd::string::*;

verus! {

/// The names that could be attribute paths: nixpkgs is asked about these.
pub open spec fn checkable(names: Seq<Seq<char>>) -> Seq<Seq<char>> {
    names.filter(|n: Seq<char>| attr_name(n))
}

/// The names that could not be attribute paths.
pub open spec fn malformed(names: Seq<Seq<char>>) -> Seq<Seq<char>> {
    names.filter(|n: Seq<char>| !attr_name(n))
}

fn names_with(names: &Vec<String>, wanted: bool) -> (r: Vec<String>)
    ensures
        views(r@) == views(names@).filter(|n: Seq<char>| attr_name(n) == wanted),
{
    let mut out: Vec<String> = Vec::new();
    let ghost s = views(names@);
    let ghost f = |n: Seq<char>| attr_name(n) == wanted;
    assert(s.take(0).filter(f) == Seq::<Seq<char>>::empty()) by {
        reveal(Seq::filter);
    }
    for i in 0..names.len()
        invariant
            s == views(names@),
            f == (|n: Seq<char>| attr_name(n) == wanted),
            views(out@) == s.take(i as int).filter(f),
    {
        proof {
            assert(s.take(i + 1) == s.take(i as int).push(s[i as int]));
            s.take(i as int).lemma_filter_push(s[i as int], f);
        }
        if is_attr_name(names[i].as_str()) == wanted {
            let copy = names[i].clone();
            assert(views(out@.push(copy)) == views(out@).push(copy@));
            out.push(copy);
        }
    }
    assert(s.take(names@.len() as int) == s);
    out
}

/// The names that could be attribute paths.
pub fn checkable_names(names: &Vec<String>) -> (r: Vec<String>)
    ensures
        views(r@) == checkable(views(names@)),
{
    let r = names_with(names, true);
    assert((|n: Seq<char>| attr_name(n) == true) =~= (|n: Seq<char>| attr_name(n)));
    r
}

/// The names that could not be attribute paths.
pub fn malformed_names(names: &Vec<String>) -> (r: Vec<String>)
    ensures
        views(r@) == malformed(views(names@)),
{
    let r = names_with(names, false);
    assert((|n: Seq<char>| attr_name(n) == false) =~= (|n: Seq<char>| !attr_name(n)));
    r
}

/// `name` as a string of the Nix language.
pub open spec fn quoted(name: Seq<char>) -> Seq<char> {
    "\""@ + name + "\""@
}

/// The Nix expression that tells, for each of `names`, whether nixpkgs has it.
pub open spec fn existence_expr(names: Seq<Seq<char>>) -> Seq<char> {
    "let pkgs = import <nixpkgs> { }; lib = pkgs.lib; names = [ "@ + join(
        names.map_values(|n: Seq<char>| quoted(n)),
        " "@,
    )
        + " ]; in builtins.listToAttrs (map (n: { name = n; value = lib.hasAttrByPath (lib.splitString \".\" n) pkgs; }) names)"@
}

/// The arguments with which `nix` evaluates `expr` to JSON.
pub open spec fn eval_args(expr: Seq<char>) -> Seq<Seq<char>> {
    seq!["eval"@, "--impure"@, "--json"@, "--expr"@, expr]
}

/// The Nix expression for the names of all attributes of nixpkgs.
pub open spec fn attr_names_expr() -> Seq<char> {
    "builtins.attrNames (import <nixpkgs> { })"@
}

fn eval(expr: String) -> (r: Vec<String>)
    ensures
        views(r@) == eval_args(expr@),
{
    let mut args: Vec<String> = Vec::new();
    args.push("eval".to_string());
    args.push("--impure".to_string());
    args.push("--json".to_string());
    args.push("--expr".to_string());
    args.push(expr);
    assert(views(args@) =~= eval_args(expr@));
    args
}

/// The arguments with which `nix` tells, for each of `names`, whether nixpkgs has it.
pub fn existence_query(names: &Vec<String>) -> (r: Vec<String>)
    ensures
        views(r@) == eval_args(existence_expr(views(names@))),
{
    let mut list: Vec<String> = Vec::new();
    let ghost s = views(names@);
    let ghost g = |n: Seq<char>| quoted(n);
    for i in 0..names.len()
        invariant
            s == views(names@),
            g == (|n: Seq<char>| quoted(n)),
            views(list@) == s.take(i as int).map_values(g),
    {
        let mut q = String::new();
        q.append("\"");
        q.append(names[i].as_str());
        q.append("\"");
        proof {
            assert(q@ == quoted(s[i as int]));
            assert(s.take(i + 1).map_values(g) == s.take(i as int).map_values(g).push(q@));
            assert(views(list@.push(q)) == views(list@).push(q@));
        }
        list.push(q);
    }
    assert(s.take(names@.len() as int) == s);
    let joint = joined(&list, " ");
    let mut expr = String::new();
    expr.append("let pkgs = import <nixpkgs> { }; lib = pkgs.lib; names = [ ");
    expr.append(joint.as_str());
    expr.append(
        " ]; in builtins.listToAttrs (map (n: { name = n; value = lib.hasAttrByPath (lib.splitString \".\" n) pkgs; }) names)",
    );
    assert(expr@ == existence_expr(s));
    eval(expr)
}

/// The arguments with which `nix` tells the names of all attributes of nixpkgs.
pub fn attr_names_query() -> (r: Vec<String>)
    ensures
        views(r@) == eval_args(attr_names_expr()),
{
    eval("builtins.attrNames (import <nixpkgs> { })".to_string())
}

/// What the object with the entries `entries` says of `name`.
pub open spec fn flag_of(entries: Seq<(Seq<char>, Json)>, name: Seq<char>) -> Option<bool> {
    match entry_of(entries, name) {
        Some(value) => bool_in(value),
        None => None,
    }
}

/// What `output`, if any, says of each of `names`; nothing where it holds no object.
pub open spec fn flags_in(output: Option<Seq<char>>, names: Seq<Seq<char>>) -> Option<
    Seq<Option<bool>>,
> {
    match output {
        Some(text) => match object_text(text) {
            Some(entries) => Some(names.map_values(|n: Seq<char>| flag_of(entries, n))),
            None => None,
        },
        None => None,
    }
}

/// What was said of each name, as a mathematical value.
pub open spec fn flags_view(flags: Option<Vec<Option<bool>>>) -> Option<Seq<Option<bool>>> {
    match flags {
        Some(v) => Some(v@),
        None => None,
    }
}

/// What the output of the existence query, if any, says of each of `names`.
pub fn existence_flags(output: &Option<String>, names: &Vec<String>) -> (r: Option<
    Vec<Option<bool>>,
>)
    ensures
        flags_view(r) == flags_in(opt_view(*output), views(names@)),
{
    match output {
        Some(text) => match read_object(text.as_str()) {
            Ok(object) => {
                let ghost es = object_text(text@)->0;
                let ghost s = views(names@);
                let ghost g = |n: Seq<char>| flag_of(es, n);
                let mut flags: Vec<Option<bool>> = Vec::new();
                for i in 0..names.len()
                    invariant
                        s == views(names@),
                        es == crate::json::entries_of(object),
                        g == (|n: Seq<char>| flag_of(es, n)),
                        flags@ == s.take(i as int).map_values(g),
                {
                    let flag: Option<bool> = match get(&object, names[i].as_str()) {
                        Some(value) => as_truth(value),
                        None => None,
                    };
                    proof {
                        assert(flag == flag_of(es, s[i as int]));
                        assert(s.take(i + 1).map_values(g) == s.take(i as int).map_values(g).push(
                            flag,
                        ));
                    }
                    flags.push(flag);
                }
                assert(s.take(names@.len() as int) == s);
                Some(flags)
            },
            Err(_) => None,
        },
        None => None,
    }
}

/// The names in the JSON text `output`; none where it is no array of strings.
pub open spec fn attrs_in(output: Option<Seq<char>>) -> Seq<Seq<char>> {
    match output {
        Some(text) => match strings_text(text) {
            Some(names) => names,
            None => Seq::empty(),
        },
        None => Seq::empty(),
    }
}

/// The names of all attributes of nixpkgs, out of what `nix` printed, if anything.
pub fn nixpkgs_attr_names(output: &Option<String>) -> (r: Vec<String>)
    ensures
        views(r@) == attrs_in(opt_view(*output)),
{
    let none: Vec<String> = Vec::new();
    assert(views(none@) == Seq::<Seq<char>>::empty());
    match output {
        Some(text) => match read_strings(text.as_str()) {
            Ok(names) => names,
            Err(_) => none,
        },
        None => none,
    }
}

/// The names that nixpkgs does not have, by what was said of each of them.
pub open spec fn absent(names: Seq<Seq<char>>, flags: Seq<Option<bool>>) -> Seq<Seq<char>>
    decreases names.len(),
{
    if names.len() == 0 {
        Seq::empty()
    } else {
        let rest = absent(names.drop_last(), flags);
        if flags[names.len() - 1] == Some(true) {
            rest
        } else {
            rest.push(names.last())
        }
    }
}

/// The names among `names` that are not valid, with what was said of the checkable ones.
/// Where nothing could be found out, these are the malformed names alone.
pub open spec fn missing(names: Seq<Seq<char>>, flags: Option<Seq<Option<bool>>>) -> Seq<Seq<char>> {
    match flags {
        Some(fs) => malformed(names) + absent(checkable(names), fs),
        None => malformed(names),
    }
}

/// Whether there is something said of each checkable name in `names`.
pub open spec fn answers(names: Seq<Seq<char>>, flags: Option<Seq<Option<bool>>>) -> bool {
    flags matches Some(fs) ==> fs.len() == checkable(names).len()
}

/// The names among `names` that are not valid, with what was said of the checkable ones.
pub fn validate_packages(names: &Vec<String>, flags: &Option<Vec<Option<bool>>>) -> (r: Vec<String>)
    requires
        answers(views(names@), flags_view(*flags)),
    ensures
        views(r@) == missing(views(names@), flags_view(*flags)),
{
    let mut out = malformed_names(names);
    match flags {
        Some(fs) => {
            let known = checkable_names(names);
            let ghost s = views(known@);
            let ghost bad = views(out@);
            assert(bad + absent(s.take(0), fs@) == bad);
            for i in 0..known.len()
                invariant
                    s == views(known@),
                    fs@.len() == s.len(),
                    views(out@) == bad + absent(s.take(i as int), fs@),
            {
                let there = match fs[i] {
                    Some(b) => b,
                    None => false,
                };
                proof {
                    assert(s.take(i + 1).drop_last() == s.take(i as int));
                    assert(s.take(i + 1).last() == known@[i as int]@);
                }
                if !there {
                    let copy = known[i].clone();
                    proof {
                        assert(views(out@.push(copy)) == views(out@).push(copy@));
                        assert(bad + absent(s.take(i as int), fs@).push(copy@) == (bad + absent(
                            s.take(i as int),
                            fs@,
                        )).push(copy@));
                    }
                    out.push(copy);
                }
            }
            assert(s.take(known@.len() as int) == s);
        },
        None => {},
    }
    out
}

/// The lines that report the missing name `name`, with the names suggested for it.
pub open spec fn missing_lines(name: Seq<char>, suggestions: Seq<Seq<char>>) -> Seq<Seq<char>> {
    let head = "[spin] Error: '"@ + name + "' was not found in nixpkgs."@;
    if suggestions.len() == 0 {
        seq![head]
    } else {
        seq![head, "       Did you mean: "@ + join(suggestions, ", "@) + "?"@]
    }
}

/// The lines that report the missing names `names`, with the names suggested for each.
pub open spec fn missing_report(
    names: Seq<Seq<char>>,
    suggestions: Seq<Seq<Seq<char>>>,
) -> Seq<Seq<char>>
    decreases names.len(),
{
    if names.len() == 0 {
        Seq::empty()
    } else {
        missing_report(names.drop_last(), suggestions) + missing_lines(
            names.last(),
            suggestions[names.len() - 1],
        )
    }
}

/// The views of the lists of strings in `v`.
pub open spec fn list_views(v: Seq<Vec<String>>) -> Seq<Seq<Seq<char>>> {
    v.map_values(|l: Vec<String>| views(l@))
}

/// The lines that report the missing names `names`, with the names suggested for each.
pub fn report_missing(names: &Vec<String>, suggestions: &Vec<Vec<String>>) -> (r: Vec<String>)
    requires
        suggestions@.len() == names@.len(),
    ensures
        views(r@) == missing_report(views(names@), list_views(suggestions@)),
{
    let mut out: Vec<String> = Vec::new();
    let ghost s = views(names@);
    let ghost t = list_views(suggestions@);
    assert(views(out@) == missing_report(s.take(0), t));
    for i in 0..names.len()
        invariant
            suggestions@.len() == names@.len(),
            s == views(names@),
            t == list_views(suggestions@),
            views(out@) == missing_report(s.take(i as int), t),
    {
        let ghost before = out@;
        let mut head = String::new();
        head.append("[spin] Error: '");
        head.append(names[i].as_str());
        head.append("' was not found in nixpkgs.");
        proof {
            assert(s.take(i + 1).drop_last() == s.take(i as int));
            assert(s.take(i + 1).last() == names@[i as int]@);
            assert(t[i as int] == views(suggestions@[i as int]@));
            assert(views(out@.push(head)) == views(out@).push(head@));
        }
        out.push(head);
        if suggestions[i].len() > 0 {
            let list = joined(&suggestions[i], ", ");
            let mut hint = String::new();
            hint.append("       Did you mean: ");
            hint.append(list.as_str());
            hint.append("?");
            assert(views(out@.push(hint)) == views(out@).push(hint@));
            out.push(hint);
        }
        assert(views(out@) == views(before) + missing_lines(s[i as int], t[i as int]));
    }
    assert(s.take(names@.len() as int) == s);
    out
}

/// An attribute path needs no escaping inside a string of the Nix language: it holds no
/// quotation mark, backslash or dollar sign.
pub proof fn law_attr_name_needs_no_escaping(name: Seq<char>)
    requires
        attr_name(name),
    ensures
        !name.contains('"'),
        !name.contains('\\'),
        !name.contains('$'),
{
    assert forall|i: int| 0 <= i < name.len() implies name[i] != '"' && name[i] != '\\' && name[i]
        != '$' by {
        assert(attr_char(name[i]));
    }
}

/// Where nixpkgs could not be asked, no name is turned down but for the way it is written.
pub proof fn law_validation_skipped(names: Seq<Seq<char>>)
    requires
        forall|i: int| 0 <= i < names.len() ==> #[trigger] attr_name(names[i]),
    ensures
        missing(names, None) == Seq::<Seq<char>>::empty(),
{
    let f = |n: Seq<char>| !attr_name(n);
    let m = names.filter(f);
    if m.len() > 0 {
        names.lemma_filter_pred(f, 0);
        names.lemma_filter_contains_rev(f, m[0]);
        let k = choose|k: int| 0 <= k < names.len() && names[k] == m[0];
        assert(attr_name(names[k]));
    }
    assert(m =~= Seq::<Seq<char>>::empty());
}

/// All names are valid exactly if each could be an attribute path and nixpkgs said of each
/// that it has it.
pub proof fn law_all_valid(names: Seq<Seq<char>>, flags: Seq<Option<bool>>)
    requires
        answers(names, Some(flags)),
    ensures
        missing(names, Some(flags)) == Seq::<Seq<char>>::empty() <==> {
            &&& forall|i: int| 0 <= i < names.len() ==> #[trigger] attr_name(names[i])
            &&& forall|i: int| 0 <= i < flags.len() ==> #[trigger] flags[i] == Some(true)
        },
{
    let f = |n: Seq<char>| !attr_name(n);
    let m = names.filter(f);
    let a = absent(checkable(names), flags);
    lemma_absent(checkable(names), flags);
    assert(missing(names, Some(flags)).len() == m.len() + a.len());
    if forall|i: int| 0 <= i < names.len() ==> #[trigger] attr_name(names[i]) {
        law_validation_skipped(names);
    } else {
        let k = choose|k: int| 0 <= k < names.len() && !#[trigger] attr_name(names[k]);
        names.lemma_filter_contains(f, k);
        assert(m.len() > 0);
    }
    if missing(names, Some(flags)).len() == 0 {
        assert(missing(names, Some(flags)) =~= Seq::<Seq<char>>::empty());
    }
}

proof fn lemma_absent(names: Seq<Seq<char>>, flags: Seq<Option<bool>>)
    ensures
        absent(names, flags).len() == 0 <==> forall|i: int|
            0 <= i < names.len() ==> #[trigger] flags[i] == Some(true),
    decreases names.len(),
{
    if names.len() > 0 {
        lemma_absent(names.drop_last(), flags);
        if absent(names, flags).len() > 0 && flags[names.len() - 1] == Some(true) {
            let k = choose|k: int|
                0 <= k < names.drop_last().len() && #[trigger] flags[k] != Some(true);
            assert(flags[k] != Some(true));
        }
    }
}

/// The names that are not valid are the malformed ones, in their order, and then, in their
/// order, those of the others of which it was not said that nixpkgs has them.
pub proof fn law_missing(names: Seq<Seq<char>>, flags: Seq<Option<bool>>) -> (at: Seq<int>)
    requires
        answers(names, Some(flags)),
    ensures
        missing(names, None) == names.filter(|n: Seq<char>| !attr_name(n)),
        checkable(names) == names.filter(|n: Seq<char>| attr_name(n)),
        ({
            let bad = names.filter(|n: Seq<char>| !attr_name(n));
            let known = names.filter(|n: Seq<char>| attr_name(n));
            let r = missing(names, Some(flags));
            &&& r.len() == bad.len() + at.len()
            &&& r.take(bad.len() as int) == bad
            &&& forall|i: int|
                0 <= i < at.len() ==> 0 <= #[trigger] at[i] < known.len() && r[bad.len() + i]
                    == known[at[i]] && flags[at[i]] != Some(true)
            &&& forall|i: int, j: int| 0 <= i < j < at.len() ==> #[trigger] at[i] < #[trigger] at[j]
            &&& forall|k: int|
                0 <= k < known.len() && #[trigger] flags[k] != Some(true) ==> at.contains(k)
        }),
{
    let known = checkable(names);
    let at = lemma_absent_places(known, flags);
    let r = missing(names, Some(flags));
    assert(r.take(malformed(names).len() as int) == malformed(names));
    at
}

proof fn lemma_absent_places(names: Seq<Seq<char>>, flags: Seq<Option<bool>>) -> (at: Seq<int>)
    ensures
        at.len() == absent(names, flags).len(),
        forall|i: int|
            0 <= i < at.len() ==> 0 <= #[trigger] at[i] < names.len() && absent(names, flags)[i]
                == names[at[i]] && flags[at[i]] != Some(true),
        forall|i: int, j: int| 0 <= i < j < at.len() ==> #[trigger] at[i] < #[trigger] at[j],
        forall|k: int|
            0 <= k < names.len() && #[trigger] flags[k] != Some(true) ==> at.contains(k),
    decreases names.len(),
{
    if names.len() == 0 {
        Seq::empty()
    } else {
        let t = names.drop_last();
        let n = names.len() - 1;
        let b = lemma_absent_places(t, flags);
        let at = if flags[n] == Some(true) {
            b
        } else {
            b.push(n)
        };
        assert forall|i: int| 0 <= i < at.len() implies 0 <= #[trigger] at[i] < names.len()
            && absent(names, flags)[i] == names[at[i]] && flags[at[i]] != Some(true) by {
            if i < b.len() {
                assert(at[i] == b[i]);
            }
        }
        assert forall|i: int, j: int| 0 <= i < j < at.len() implies #[trigger] at[i]
            < #[trigger] at[j] by {
            assert(at[i] == b[i]);
            if j < b.len() {
                assert(at[j] == b[j]);
            }
        }
        assert forall|k: int| 0 <= k < names.len() && #[trigger] flags[k] != Some(
            true,
        ) implies at.contains(k) by {
            if k < n {
                assert(b.contains(k));
                let i = choose|i: int| 0 <= i < b.len() && b[i] == k;
                assert(at[i] == k);
            } else {
                assert(at[b.len() as int] == k);
            }
        }
        at
    }
}

/// The question for the names is one expression in which each of them stands in quotation
/// marks, in their order, and nothing else varies.
pub proof fn law_questions(names: Seq<Seq<char>>, expr: Seq<char>)
    ensures
        existence_expr(names)
            == "let pkgs = import <nixpkgs> { }; lib = pkgs.lib; names = [ "@ + join(
            Seq::new(names.len(), |i: int| "\""@ + names[i] + "\""@),
            " "@,
        )
            + " ]; in builtins.listToAttrs (map (n: { name = n; value = lib.hasAttrByPath (lib.splitString \".\" n) pkgs; }) names)"@,
        attr_names_expr() == "builtins.attrNames (import <nixpkgs> { })"@,
        eval_args(expr) == seq!["eval"@, "--impure"@, "--json"@, "--expr"@, expr],
{
    assert(names.map_values(|n: Seq<char>| quoted(n)) == Seq::new(
        names.len(),
        |i: int| "\""@ + names[i] + "\""@,
    ));
}

/// What was printed says of a name that it is there, or that it is not, exactly where the
/// printed object has a member with that name that is true, or false; without an object
/// nothing is said of any name.
pub proof fn law_answers(text: Seq<char>, names: Seq<Seq<char>>, i: int, there: bool)
    ensures
        flags_in(None, names) is None,
        flags_in(Some(text), names) is None <==> object_text(text) is None,
        object_text(text) matches Some(entries) ==> {
            let flags = flags_in(Some(text), names)->0;
            &&& flags.len() == names.len()
            &&& 0 <= i < names.len() ==> (flags[i] == Some(there) <==> exists|k: int| #[trigger]
                is_first_with(entries, names[i], k) && entries[k].1 == Json::Bool(there))
        },
        attrs_in(None) == Seq::<Seq<char>>::empty(),
        strings_text(text) is None ==> attrs_in(Some(text)) == Seq::<Seq<char>>::empty(),
        strings_text(text) matches Some(strings) ==> attrs_in(Some(text)) == strings,
{
    if object_text(text) is Some && 0 <= i < names.len() {
        let entries = object_text(text)->0;
        law_entry(entries, names[i]);
        let flags = flags_in(Some(text), names)->0;
        assert(flags[i] == flag_of(entries, names[i]));
        if exists|k: int| #[trigger] is_first_with(entries, names[i], k) && entries[k].1
            == Json::Bool(there) {
            let k = choose|k: int| #[trigger] is_first_with(entries, names[i], k) && entries[k].1
                == Json::Bool(there);
            assert(entries[k].0 == names[i]);
            let v = entry_of(entries, names[i])->0;
            let j = choose|j: int| #[trigger] is_first_with(entries, names[i], j) && entries[j].1
                == v;
            if j < k {
                assert(entries[j].0 != names[i]);
            } else if k < j {
                assert(entries[k].0 != names[i]);
            }
        }
    }
}

/// Each missing name is reported by itself, with the names suggested for it, all of them
/// and in their order, where there are any.
pub proof fn law_missing_are_reported(
    names: Seq<Seq<char>>,
    name: Seq<char>,
    lists: Seq<Seq<Seq<char>>>,
    list: Seq<Seq<char>>,
)
    requires
        names.len() == lists.len(),
    ensures
        missing_report(Seq::empty(), lists) == Seq::<Seq<char>>::empty(),
        missing_report(names.push(name), lists.push(list)) == missing_report(names, lists) + (
        if list.len() == 0 {
            seq!["[spin] Error: '"@ + name + "' was not found in nixpkgs."@]
        } else {
            seq![
                "[spin] Error: '"@ + name + "' was not found in nixpkgs."@,
                "       Did you mean: "@ + join(list, ", "@) + "?"@,
            ]
        }),
{
    assert(names.push(name).drop_last() == names);
    lemma_report_prefix(names, lists, list);
}

proof fn lemma_report_prefix(
    names: Seq<Seq<char>>,
    lists: Seq<Seq<Seq<char>>>,
    list: Seq<Seq<char>>,
)
    requires
        names.len() <= lists.len(),
    ensures
        missing_report(names, lists.push(list)) == missing_report(names, lists),
    decreases names.len(),
{
    if names.len() > 0 {
        lemma_report_prefix(names.drop_last(), lists, list);
    }
}

} // verus!
