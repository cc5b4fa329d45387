use spin::stream::{Progress, MAX_WIDTH, WINDOW_SIZE};

fn line(p: &mut Progress, text: &str, secs: u64) -> String {
    p.line(text.to_string(), secs)
}

#[test]
fn nothing_is_shown_of_a_silent_command() {
    let p = Progress::new();
    assert_eq!(p.finish(), "");
    assert_eq!(p.report(), Vec::<String>::new());
}

#[test]
fn each_line_erases_the_last_picture() {
    let mut p = Progress::new();
    assert_eq!(line(&mut p, "one", 0), "⠋ building... (00:00)\n  \x1B[2mone\x1B[0m\n");
    assert_eq!(
        line(&mut p, "two", 61),
        "\x1B[2A\x1B[J⠙ building... (01:01)\n  \x1B[2mone\x1B[0m\n  \x1B[2mtwo\x1B[0m\n"
    );
    assert_eq!(p.finish(), "\x1B[3A\x1B[J");
}

#[test]
fn the_window_holds_the_last_five_lines() {
    let mut p = Progress::new();
    for i in 0..6 {
        line(&mut p, &format!("l{}", i), 0);
    }
    let shown = line(&mut p, "l6", 6000);
    assert_eq!(WINDOW_SIZE, 5);
    assert_eq!(
        shown,
        "\x1B[6A\x1B[J⠦ building... (100:00)\n  \x1B[2ml2\x1B[0m\n  \x1B[2ml3\x1B[0m\n  \
         \x1B[2ml4\x1B[0m\n  \x1B[2ml5\x1B[0m\n  \x1B[2ml6\x1B[0m\n"
    );
    assert_eq!(p.finish(), "\x1B[6A\x1B[J");
}

#[test]
fn a_picture_has_as_many_rows_as_are_erased() {
    let mut p = Progress::new();
    for i in 0..9 {
        let shown = line(&mut p, "x", i);
        let rows = shown.matches('\n').count();
        assert_eq!(p.finish(), format!("\x1B[{}A\x1B[J", rows));
    }
}

#[test]
fn the_spinner_goes_round() {
    let mut p = Progress::new();
    let mut seen = String::new();
    for _ in 0..12 {
        let shown = line(&mut p, "x", 0);
        let start = shown.find(" building").unwrap();
        seen.push(shown[..start].chars().last().unwrap());
    }
    assert_eq!(seen, "⠋⠙⠹⠸⠼⠴⠦⠧⠇⠏⠋⠙");
}

#[test]
fn long_lines_are_clipped() {
    let mut p = Progress::new();
    let shown = line(&mut p, &"é".repeat(200), 0);
    assert_eq!(MAX_WIDTH, 120);
    assert_eq!(
        shown,
        format!("⠋ building... (00:00)\n  \x1B[2m{}\x1B[0m\n", "é".repeat(120))
    );
}

#[test]
fn diagnostics_are_kept_for_the_end() {
    let mut p = Progress::new();
    assert_eq!(line(&mut p, "  warning: old", 0), "");
    assert_eq!(p.finish(), "");
    line(&mut p, "building", 1);
    assert_eq!(line(&mut p, "error: bad", 2), "");
    assert_eq!(line(&mut p, "\ttrace: why", 3), "");
    assert_eq!(p.finish(), "\x1B[2A\x1B[J");
    assert_eq!(
        line(&mut p, "an error: inside", 4),
        "\x1B[2A\x1B[J⠙ building... (00:04)\n  \x1B[2mbuilding\x1B[0m\n  \
         \x1B[2man error: inside\x1B[0m\n"
    );
    assert_eq!(
        p.report(),
        vec!["\x1B[33m  warning: old\x1B[0m", "\x1B[31merror: bad\x1B[0m", "\ttrace: why"]
    );
}
