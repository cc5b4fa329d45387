use spin::distance::edit_distance;

#[test]
fn kitten_to_sitting_takes_three_edits() {
    assert_eq!(edit_distance("kitten", "sitting"), 3);
}

#[test]
fn distances_of_short_words() {
    assert_eq!(edit_distance("", ""), 0);
    assert_eq!(edit_distance("", "git"), 3);
    assert_eq!(edit_distance("git", ""), 3);
    assert_eq!(edit_distance("git", "git"), 0);
    assert_eq!(edit_distance("git", "gut"), 1);
    assert_eq!(edit_distance("gti", "git"), 2);
    assert_eq!(edit_distance("neovmi", "neovim"), 2);
    assert_eq!(edit_distance("ripgerp", "ripgrep"), 2);
    assert_eq!(edit_distance("flaw", "lawn"), 2);
    assert_eq!(edit_distance("intention", "execution"), 5);
}

#[test]
fn distances_count_characters_not_bytes() {
    assert_eq!(edit_distance("größe", "grosse"), 3);
    assert_eq!(edit_distance("é", "e"), 1);
}

#[test]
fn distance_is_a_metric() {
    let words = ["", "git", "gitea", "tig", "fd", "find", "fzf", "größe"];
    for a in words {
        for b in words {
            let d = edit_distance(a, b);
            assert_eq!(d, edit_distance(b, a));
            assert_eq!(d == 0, a == b);
            let (m, n) = (a.chars().count(), b.chars().count());
            assert!(d <= m.max(n) && d >= m.max(n) - m.min(n));
            for c in words {
                assert!(edit_distance(a, c) <= d + edit_distance(b, c));
            }
        }
    }
}
