use spin::validate::{
    attr_names_query, checkable_names, existence_flags, existence_query, malformed_names,
    nixpkgs_attr_names, report_missing, validate_packages,
};

fn strings(parts: &[&str]) -> Vec<String> {
    parts.iter().map(|p| p.to_string()).collect()
}

#[test]
fn names_are_told_apart_by_form() {
    let names = strings(&["git", "a b", "gtk+", ""]);
    assert_eq!(checkable_names(&names), strings(&["git", "gtk+"]));
    assert_eq!(malformed_names(&names), strings(&["a b", ""]));
}

#[test]
fn existence_is_asked_in_one_expression() {
    assert_eq!(
        existence_query(&strings(&["git", "python3Packages.requests"])),
        strings(&[
            "eval",
            "--impure",
            "--json",
            "--expr",
            "let pkgs = import <nixpkgs> { }; lib = pkgs.lib; \
             names = [ \"git\" \"python3Packages.requests\" ]; \
             in builtins.listToAttrs (map (n: { name = n; \
             value = lib.hasAttrByPath (lib.splitString \".\" n) pkgs; }) names)",
        ])
    );
}

#[test]
fn all_names_are_asked_for() {
    assert_eq!(
        attr_names_query(),
        strings(&[
            "eval",
            "--impure",
            "--json",
            "--expr",
            "builtins.attrNames (import <nixpkgs> { })",
        ])
    );
}

#[test]
fn answers_are_read_from_json() {
    let names = strings(&["git", "gti", "odd", "gone"]);
    let output = Some("{\"gti\": false, \"git\": true, \"odd\": \"true\"}".to_string());
    assert_eq!(
        existence_flags(&output, &names),
        Some(vec![Some(true), Some(false), None, None])
    );
    assert_eq!(existence_flags(&Some("{}".to_string()), &Vec::new()), Some(Vec::new()));
}

#[test]
fn without_an_object_nothing_is_known() {
    let names = strings(&["git"]);
    assert_eq!(existence_flags(&None, &names), None);
    assert_eq!(existence_flags(&Some("".to_string()), &names), None);
    assert_eq!(existence_flags(&Some("[true]".to_string()), &names), None);
}

#[test]
fn attribute_names_are_read_from_json() {
    assert_eq!(
        nixpkgs_attr_names(&Some("[\"git\", \"g\\u0069t2\"]".to_string())),
        strings(&["git", "git2"])
    );
    for text in ["", "{}", "[1]", "[\"git\", 1]", "[\"git\""] {
        assert_eq!(nixpkgs_attr_names(&Some(text.to_string())), Vec::<String>::new());
    }
    assert_eq!(nixpkgs_attr_names(&None), Vec::<String>::new());
}

#[test]
fn missing_names_are_the_malformed_and_the_absent() {
    let names = strings(&["git", "a b", "gti", "odd"]);
    let flags = Some(vec![Some(true), Some(false), None]);
    assert_eq!(validate_packages(&names, &flags), strings(&["a b", "gti", "odd"]));
    let good = Some(vec![Some(true), Some(true), Some(true)]);
    assert_eq!(validate_packages(&names, &good), strings(&["a b"]));
    assert_eq!(validate_packages(&strings(&["git"]), &Some(vec![Some(true)])), Vec::<String>::new());
}

#[test]
fn without_answers_only_malformed_names_are_missing() {
    assert_eq!(validate_packages(&strings(&["git", "a b"]), &None), strings(&["a b"]));
    assert_eq!(validate_packages(&strings(&["git", "gti"]), &None), Vec::<String>::new());
}

#[test]
fn missing_names_are_reported_with_suggestions() {
    assert_eq!(
        report_missing(
            &strings(&["gti", "zz"]),
            &vec![strings(&["git", "tig"]), Vec::new()]
        ),
        strings(&[
            "[spin] Error: 'gti' was not found in nixpkgs.",
            "       Did you mean: git, tig?",
            "[spin] Error: 'zz' was not found in nixpkgs.",
        ])
    );
}
