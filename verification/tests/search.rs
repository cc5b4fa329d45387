use spin::search::{
    cmd_search, search_nixpkgs, search_results, show_hits, Hit, Package, MAX_RESULTS,
};

fn package(pname: &str, version: &str, description: &str) -> Package {
    Package {
        pname: Some(pname.to_string()),
        version: Some(version.to_string()),
        description: Some(description.to_string()),
    }
}

fn hit(score: u8, pname: &str, version: &str, description: &str) -> Hit {
    Hit {
        score,
        pname: pname.to_string(),
        version: version.to_string(),
        description: description.to_string(),
    }
}

fn lines(parts: &[&str]) -> Vec<String> {
    parts.iter().map(|p| p.to_string()).collect()
}

#[test]
fn packages_are_read_from_json() {
    let json = r#"{
        "legacyPackages.x86_64-linux.tig": {"pname": "tig", "version": "2.5", "description": "Text-mode \"git\""},
        "legacyPackages.x86_64-linux.git": {"pname": "git", "version": "2.44", "description": null, "x": [1]},
        "a": {"version": "1"},
        "b": 7,
        "c": {"pname": true}
    }"#;
    let none = || Package { pname: None, version: None, description: None };
    assert_eq!(
        search_nixpkgs(json),
        vec![
            Package { version: Some("1".to_string()), ..none() },
            none(),
            none(),
            Package {
                pname: Some("git".to_string()),
                version: Some("2.44".to_string()),
                description: None,
            },
            package("tig", "2.5", "Text-mode \"git\""),
        ]
    );
}

#[test]
fn what_is_no_object_has_no_packages() {
    for json in ["", "[]", "null", "\"x\"", "{\"a\": ", "error: not found", "{} {}"] {
        assert_eq!(search_nixpkgs(json), Vec::new(), "{}", json);
    }
    assert_eq!(search_nixpkgs("{}"), Vec::new());
}

#[test]
fn hits_are_ranked() {
    let packages = vec![
        package("lazygit", "0.4", "ui"),
        package("gitea", "1.2", "forge"),
        package("git", "2.44", "scm"),
        package("emacs", "29", "editor"),
        Package { pname: None, version: None, description: None },
        Package { pname: Some("git-lfs".to_string()), version: None, description: None },
        package("Git", "0", "other"),
    ];
    assert_eq!(
        search_results(&packages, "git"),
        vec![
            hit(0, "git", "2.44", "scm"),
            hit(1, "git-lfs", "", ""),
            hit(1, "gitea", "1.2", "forge"),
            hit(2, "lazygit", "0.4", "ui"),
        ]
    );
}

#[test]
fn hits_that_tie_stay_in_order() {
    let packages = vec![package("git", "2", "b"), package("git", "1", "a"), package("git", "3", "c")];
    assert_eq!(
        search_results(&packages, "git"),
        vec![hit(0, "git", "2", "b"), hit(0, "git", "1", "a"), hit(0, "git", "3", "c")]
    );
}

#[test]
fn no_more_than_ten_hits_are_shown() {
    let packages: Vec<Package> =
        (0..20).rev().map(|i| package(&format!("lib{:02}", i), "1", "")).collect();
    let found = search_results(&packages, "lib");
    assert_eq!(found.len(), MAX_RESULTS);
    let names: Vec<String> = found.into_iter().map(|h| h.pname).collect();
    let expected: Vec<String> = (0..10).map(|i| format!("lib{:02}", i)).collect();
    assert_eq!(names, expected);
}

#[test]
fn hits_are_put_into_words() {
    assert_eq!(
        show_hits("git", &vec![hit(0, "git", "2.44", "scm"), hit(1, "git-x", "", "none")]),
        lines(&["Results for 'git':", "  git (2.44)  —  scm", "  git-x  —  none", ""])
    );
    assert_eq!(show_hits("zz", &Vec::new()), lines(&["No results for 'zz'.", ""]));
}

#[test]
fn each_name_is_reported() {
    let packages = vec![package("git", "2", "scm"), package("htop", "3", "top")];
    assert_eq!(
        cmd_search(&lines(&["htop", "zz", "git"]), &packages),
        lines(&[
            "Results for 'htop':",
            "  htop (3)  —  top",
            "",
            "No results for 'zz'.",
            "",
            "Results for 'git':",
            "  git (2)  —  scm",
            "",
        ])
    );
    assert_eq!(cmd_search(&Vec::new(), &packages), Vec::<String>::new());
}
