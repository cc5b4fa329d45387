use spin::suggest::{
    closest, is_attr_name, lowercase_score, suggestion_score, suggestions, Candidate,
    MAX_SUGGESTIONS,
};

fn strings(parts: &[&str]) -> Vec<String> {
    parts.iter().map(|p| p.to_string()).collect()
}

#[test]
fn attribute_names_are_plain() {
    for name in ["git", "python3Packages.requests", "gtk+", "a_b-c", "7zip", "Z", "."] {
        assert!(is_attr_name(name), "{}", name);
    }
    for name in ["", " ", "a b", "git\"", "größe", "a/b", "${x}", "a\\b", "@", "["] {
        assert!(!is_attr_name(name), "{}", name);
    }
}

#[test]
fn scores_by_kind_of_match() {
    assert_eq!(suggestion_score("git", "git"), Some(0));
    assert_eq!(suggestion_score("Git", "git"), Some(0));
    assert_eq!(suggestion_score("git", "GitHub-cli"), Some(1));
    assert_eq!(suggestion_score("git", "tig-GIT"), Some(2));
    assert_eq!(suggestion_score("gti", "git"), Some(5));
    assert_eq!(suggestion_score("git", "emacs"), None);
    assert_eq!(suggestion_score("", "x"), Some(1));
    assert_eq!(suggestion_score("ÄB", "äb"), Some(0));
}

#[test]
fn longer_names_have_more_slack() {
    assert_eq!(suggestion_score("abcdef", "abcxyz"), None);
    assert_eq!(suggestion_score("abcdefghi", "abcdefxyz"), Some(6));
    assert_eq!(suggestion_score("abcdefgh", "abcdexyz"), None);
    assert_eq!(suggestion_score("abcd", "ab"), Some(5));
    assert_eq!(suggestion_score("abcd", "a"), None);
}

#[test]
fn slack_is_by_bytes() {
    // Eleven bytes in six characters.
    assert_eq!(lowercase_score("äöüéàx", "äöüabc"), Some(6));
    assert_eq!(lowercase_score("aouexx", "aouabc"), None);
}

#[test]
fn case_is_left_alone_in_lower_case_scores() {
    assert_eq!(lowercase_score("git", "git"), Some(0));
    assert_eq!(lowercase_score("git", "GIT"), None);
}

#[test]
fn the_closest_come_first() {
    let c = |score: usize, size: usize, name: &str| Candidate { score, size, name: name.to_string() };
    let candidates = vec![
        c(5, 3, "five"),
        c(1, 9, "long"),
        c(1, 4, "zeta"),
        c(1, 4, "beta"),
        c(0, 30, "best"),
        c(2, 1, "x"),
        c(9, 1, "last"),
    ];
    assert_eq!(closest(candidates), strings(&["best", "beta", "zeta", "long", "x"]));
    assert_eq!(closest(Vec::new()), Vec::<String>::new());
}

#[test]
fn names_are_suggested_for_a_typo() {
    let attrs = strings(&["emacs", "neovim", "neovim-qt", "vim", "novm", "python3", "neovide"]);
    assert_eq!(suggestions("neovm", &attrs), strings(&["novm", "neovim"]));
    assert_eq!(suggestions("neov", &attrs), strings(&["neovim", "neovide", "neovim-qt", "novm"]));
    assert_eq!(suggestions("zzzzzzzz", &attrs), Vec::<String>::new());
}

#[test]
fn no_more_than_five_are_suggested() {
    let attrs = strings(&["git", "gita", "gitb", "gitc", "gitd", "gite", "gitf"]);
    let names = suggestions("git", &attrs);
    assert_eq!(names.len(), MAX_SUGGESTIONS);
    assert_eq!(names, strings(&["git", "gita", "gitb", "gitc", "gitd"]));
}

#[test]
fn letter_case_does_not_matter() {
    let names = ["git", "Git-Lfs", "gti", "neovim", "NEOVIDE", "c++", "x_1"];
    for typo in names {
        for cand in names {
            let expected = suggestion_score(typo, cand);
            assert_eq!(suggestion_score(&typo.to_ascii_uppercase(), cand), expected);
            assert_eq!(suggestion_score(typo, &cand.to_ascii_uppercase()), expected);
        }
        let attrs = strings(&names);
        assert_eq!(suggestions(&typo.to_ascii_uppercase(), &attrs), suggestions(typo, &attrs));
    }
}

#[test]
fn lower_case_of_ascii_is_that_of_its_letters() {
    for code in 0..0x80u8 {
        let c = (code as char).to_string();
        let lower = if code.is_ascii_uppercase() { ((code + 32) as char).to_string() } else { c.clone() };
        assert_eq!(c.to_lowercase(), lower);
        assert_eq!(suggestion_score(&c, &lower), Some(0));
    }
}
