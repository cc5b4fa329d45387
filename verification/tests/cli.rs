use spin::cli::reorder_args;

fn reordered(args: &[&str]) -> Vec<String> {
    reorder_args(args.iter().map(|a| a.to_string()).collect())
}

#[test]
fn value_flags_move_to_the_end_of_a_group() {
    assert_eq!(reordered(&["spin", "-ip", "helix"]), vec!["spin", "-pi", "helix"]);
    assert_eq!(reordered(&["-irs"]), vec!["-sir"]);
    assert_eq!(reordered(&["-ris"]), vec!["-sri"]);
    assert_eq!(reordered(&["-rfu", "x"]), vec!["-fur", "x"]);
}

#[test]
fn groups_that_are_in_order_stay() {
    for group in ["-si", "-pi", "-ti", "-fi", "-fr", "-i", "-r", "-u", "-q", "-su", "-c", "-"] {
        assert_eq!(reordered(&[group]), vec![group]);
    }
}

#[test]
fn other_arguments_stay() {
    for arg in ["", "git", "--install", "--all", "--", "ripgrep-all", "i-r", "x", "--i-r"] {
        assert_eq!(reordered(&[arg]), vec![arg]);
    }
    assert_eq!(reordered(&[]), Vec::<String>::new());
}

#[test]
fn every_character_of_a_group_counts_as_a_flag() {
    assert_eq!(reordered(&["-qripgrep"]), vec!["-qpgeprir"]);
    assert_eq!(reordered(&["-iö"]), vec!["-öi"]);
}

#[test]
fn reordering_twice_is_reordering_once() {
    for group in ["-ip", "-irs", "-rfu", "-si", "-iö"] {
        let once = reorder_args(vec![group.to_string()]);
        let twice = reorder_args(once.clone());
        assert_eq!(once, twice);
        let mut a: Vec<char> = group.chars().collect();
        let mut b: Vec<char> = once[0].chars().collect();
        a.sort();
        b.sort();
        assert_eq!(a, b);
    }
}
