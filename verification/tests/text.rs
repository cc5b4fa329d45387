use spin::order::{smallest, sort};
use spin::text::{
    after_last, chars_of, contains, copied, ends_with, glued, has_char, holds, joined, position,
    push_decimal, push_two_digits, same, split_lines, split_words, stands_before, starts_with,
    string_of, trimmed, trimmed_end, trimmed_end_char, trimmed_start, white_space,
};

const SAMPLES: [&str; 14] = [
    "",
    " ",
    "a",
    "  a b \t",
    "\u{3000}x\u{a0}",
    "one\ntwo",
    "one\r\ntwo\r\n",
    "\n\n",
    "a\r",
    "a\rb\n",
    ";;",
    "git;;",
    "é\u{85}",
    "\u{200b}z\u{200b}",
];

#[test]
fn white_space_is_that_of_char() {
    for code in 0..0x110000u32 {
        if let Some(c) = char::from_u32(code) {
            assert_eq!(white_space(c), c.is_whitespace(), "{:?}", c);
        }
    }
}

#[test]
fn characters_make_the_string_again() {
    for s in SAMPLES {
        let cs = chars_of(s);
        assert_eq!(cs, s.chars().collect::<Vec<char>>());
        assert_eq!(string_of(&cs), s);
    }
}

#[test]
fn trimming_is_that_of_str() {
    for s in SAMPLES {
        let cs = chars_of(s);
        assert_eq!(string_of(trimmed(&cs)), s.trim());
        assert_eq!(string_of(trimmed_start(&cs)), s.trim_start());
        assert_eq!(string_of(trimmed_end(&cs)), s.trim_end());
        assert_eq!(string_of(trimmed_end_char(&cs, ';')), s.trim_end_matches(';'));
    }
}

#[test]
fn lines_are_those_of_str() {
    for s in SAMPLES {
        let lines: Vec<String> = split_lines(&chars_of(s)).iter().map(|l| string_of(l)).collect();
        let expected: Vec<String> = s.lines().map(|l| l.to_string()).collect();
        assert_eq!(lines, expected, "{:?}", s);
    }
}

#[test]
fn searching_is_that_of_str() {
    for s in SAMPLES {
        for p in SAMPLES {
            let (a, b) = (chars_of(s), chars_of(p));
            assert_eq!(contains(&a, &b), s.contains(p));
            assert_eq!(starts_with(&a, &b), s.starts_with(p));
            assert_eq!(ends_with(&a, &b), s.ends_with(p));
            assert_eq!(same(&a, &b), s == p);
            let place = s.find(p).map(|n| s[..n].chars().count());
            assert_eq!(position(&a, &b), place);
        }
    }
}

#[test]
fn the_order_of_strings_is_that_of_str() {
    let more = ["b", "ab", "abc", "Z", "\u{e9}", "\u{ffff}", "\u{10000}", "a.b", "a-b"];
    let all: Vec<&str> = SAMPLES.iter().chain(more.iter()).copied().collect();
    for a in &all {
        for b in &all {
            assert_eq!(stands_before(a, b), a < b, "{:?} {:?}", a, b);
        }
    }
}

#[test]
fn sorting_is_that_of_a_vector() {
    let words = ["vim", "git", "zsh", "git", "Alacritty", "fd", ""];
    let list: Vec<String> = words.iter().map(|w| w.to_string()).collect();
    let mut expected = list.clone();
    expected.sort();
    assert_eq!(sort(list.clone()), expected);
    assert_eq!(smallest(list.clone(), 3), expected[..3].to_vec());
    assert_eq!(smallest(list.clone(), 0), Vec::<String>::new());
    assert_eq!(smallest(list, 100), expected);
}

#[test]
fn strings_are_joined_and_glued() {
    let none: Vec<String> = Vec::new();
    assert_eq!(joined(&none, ", "), "");
    assert_eq!(joined(&vec!["a".to_string()], ", "), "a");
    let three = vec!["a".to_string(), "".to_string(), "c".to_string()];
    assert_eq!(joined(&three, ", "), "a, , c");
    assert_eq!(glued("x", "", "z"), "xz");
    assert_eq!(copied(&three), three);
    assert!(holds(&three, &"".to_string()));
    assert!(holds(&three, &"c".to_string()));
    assert!(!holds(&three, &"b".to_string()));
}

#[test]
fn numbers_are_written_in_decimal() {
    let mut s = String::from("n=");
    push_decimal(&mut s, 0);
    s.push(' ');
    push_decimal(&mut s, 1230);
    s.push(' ');
    push_decimal(&mut s, u64::MAX);
    assert_eq!(s, "n=0 1230 18446744073709551615");
    let mut t = String::new();
    push_two_digits(&mut t, 0);
    push_two_digits(&mut t, 9);
    push_two_digits(&mut t, 10);
    push_two_digits(&mut t, 125);
    assert_eq!(t, "000910125");
}

#[test]
fn words_are_those_of_str() {
    for s in SAMPLES {
        let words: Vec<String> = split_words(&chars_of(s)).iter().map(|w| string_of(w)).collect();
        let expected: Vec<String> = s.split_whitespace().map(|w| w.to_string()).collect();
        assert_eq!(words, expected, "{:?}", s);
    }
}

#[test]
fn the_end_behind_a_character_is_found() {
    for s in SAMPLES {
        let cs = chars_of(s);
        for c in ['a', '\n', ';', 'z', 'o'] {
            assert_eq!(has_char(&cs, c), s.contains(c));
            let expected = s.rsplit(c).next().unwrap();
            assert_eq!(string_of(after_last(&cs, c)), expected, "{:?} {:?}", s, c);
        }
    }
}
