//! What is shown of the output of a long-running command while it runs and when it is done.

use crate::text::{
    chars_of, decimal, push_decimal, push_two_digits, starts_with, trim_start, trimmed_start,
    two_digits, views,
};
use std::collections::VecDeque;
use vstd::prelude::*;
use vstd::string::*;

verus! {

/// How many lines of output are shown at a time.
pub const WINDOW_SIZE: usize = 5;

/// How many characters of a line are shown.
pub const MAX_WIDTH: usize = 120;

/// How many pictures the spinner has.
pub const SPINNER_SIZE: usize = 10;

/// The pictures of the spinner.
pub open spec fn spinner() -> Seq<char> {
    seq!['⠋', '⠙', '⠹', '⠸', '⠼', '⠴', '⠦', '⠧', '⠇', '⠏']
}

fn spinner_at(i: usize) -> (c: char)
    requires
        i < SPINNER_SIZE,
    ensures
        c == spinner()[i as int],
{
    match i {
        0 => '⠋',
        1 => '⠙',
        2 => '⠹',
        3 => '⠸',
        4 => '⠼',
        5 => '⠴',
        6 => '⠦',
        7 => '⠧',
        8 => '⠇',
        _ => '⠏',
    }
}

/// Whether `line`, behind its leading white space, begins with `label`.
pub open spec fn labelled(line: Seq<char>, label: Seq<char>) -> bool {
    label.is_prefix_of(trim_start(line))
}

/// Whether `line` is a diagnostic, which is kept for the end.
pub open spec fn is_diagnostic(line: Seq<char>) -> bool {
    labelled(line, "warning:"@) || labelled(line, "error:"@) || labelled(line, "trace:"@)
}

/// The progress of a running command, as a mathematical value.
#[verifier::ext_equal]
pub struct ProgressView {
    /// The lines that are shown.
    pub window: Seq<Seq<char>>,
    /// The diagnostics so far.
    pub diagnostics: Seq<Seq<char>>,
    /// The next picture of the spinner.
    pub spin: nat,
    /// How many rows of the screen the last picture takes.
    pub rows: nat,
}

/// The progress of a command of which nothing has come yet.
pub open spec fn no_progress() -> ProgressView {
    ProgressView { window: Seq::empty(), diagnostics: Seq::empty(), spin: 0, rows: 0 }
}

/// Whether the window is not overfull, the spinner has the picture that comes next, and
/// the rows are those of the window and of the line above it.
pub open spec fn wf(p: ProgressView) -> bool {
    &&& p.window.len() <= WINDOW_SIZE
    &&& p.spin < SPINNER_SIZE
    &&& p.rows == if p.window.len() == 0 {
        0
    } else {
        1 + p.window.len()
    }
}

/// The last `n` elements of `s`, or all of them where there are fewer.
pub open spec fn last_of<T>(s: Seq<T>, n: nat) -> Seq<T> {
    if s.len() <= n {
        s
    } else {
        s.skip(s.len() - n)
    }
}

/// The progress after `line` has come.
pub open spec fn advanced(p: ProgressView, line: Seq<char>) -> ProgressView {
    if is_diagnostic(line) {
        ProgressView { diagnostics: p.diagnostics.push(line), ..p }
    } else {
        let window = last_of(p.window.push(line), WINDOW_SIZE as nat);
        ProgressView {
            window,
            diagnostics: p.diagnostics,
            spin: (p.spin + 1) % (SPINNER_SIZE as nat),
            rows: 1 + window.len(),
        }
    }
}

/// The text that takes the last `rows` rows off the screen.
pub open spec fn erasure(rows: nat) -> Seq<char> {
    if rows > 0 {
        "\x1B["@ + decimal(rows) + "A\x1B[J"@
    } else {
        Seq::empty()
    }
}

/// What is shown of `line`.
pub open spec fn clipped(line: Seq<char>) -> Seq<char> {
    if line.len() <= MAX_WIDTH {
        line
    } else {
        line.take(MAX_WIDTH as int)
    }
}

/// The rows that show the lines `window`.
pub open spec fn window_rows(window: Seq<Seq<char>>) -> Seq<char>
    decreases window.len(),
{
    if window.len() == 0 {
        Seq::empty()
    } else {
        window_rows(window.drop_last()) + "  \x1B[2m"@ + clipped(window.last()) + "\x1B[0m\n"@
    }
}

/// The picture with the spinner at `spin` after `secs` seconds, and the lines `window`.
pub open spec fn picture(spin: nat, secs: nat, window: Seq<Seq<char>>) -> Seq<char> {
    seq![spinner()[spin as int]] + " building... ("@ + two_digits(secs / 60) + ":"@ + two_digits(
        secs % 60,
    ) + ")\n"@ + window_rows(window)
}

/// `line` in the colour of its kind.
pub open spec fn painted(line: Seq<char>) -> Seq<char> {
    if labelled(line, "error:"@) {
        "\x1B[31m"@ + line + "\x1B[0m"@
    } else if labelled(line, "warning:"@) {
        "\x1B[33m"@ + line + "\x1B[0m"@
    } else {
        line
    }
}

/// Whether `line`, behind its leading white space, begins with `label`.
fn has_label(line: &String, label: &str) -> (r: bool)
    ensures
        r == labelled(line@, label@),
{
    let cs = chars_of(line.as_str());
    let l = chars_of(label);
    starts_with(trimmed_start(&cs), &l)
}

/// The progress of a running command.
#[derive(Debug, PartialEq, Eq)]
pub struct Progress {
    window: VecDeque<String>,
    diagnostics: Vec<String>,
    spin: usize,
    rows: usize,
}

impl View for Progress {
    type V = ProgressView;

    closed spec fn view(&self) -> ProgressView {
        ProgressView {
            window: views(self.window@),
            diagnostics: views(self.diagnostics@),
            spin: self.spin as nat,
            rows: self.rows as nat,
        }
    }
}

impl Progress {
    /// The progress of a command of which nothing has come yet.
    pub fn new() -> (r: Progress)
        ensures
            r@ == no_progress(),
            wf(r@),
    {
        let r = Progress { window: VecDeque::new(), diagnostics: Vec::new(), spin: 0, rows: 0 };
        assert(r@ =~= no_progress());
        r
    }

    /// Appends the rows that show the window to `out`.
    fn push_window(&self, out: &mut String)
        ensures
            final(out)@ == old(out)@ + window_rows(self@.window),
    {
        let ghost w = self@.window;
        assert(old(out)@ + window_rows(w.take(0)) == old(out)@);
        let n: usize = self.window.len();
        for i in 0..n
            invariant
                n == self.window@.len(),
                w == views(self.window@),
                out@ == old(out)@ + window_rows(w.take(i as int)),
        {
            out.append("  \x1B[2m");
            let cs = chars_of(self.window[i].as_str());
            let ghost line = w[i as int];
            let width: usize = if cs.len() <= MAX_WIDTH {
                cs.len()
            } else {
                MAX_WIDTH
            };
            assert(cs@.take(width as int) == clipped(line));
            let ghost start = out@;
            assert(start + cs@.take(0) == start);
            for k in 0..width
                invariant
                    width <= cs@.len(),
                    out@ == start + cs@.take(k as int),
            {
                out.push(cs[k]);
                assert(out@ == start + cs@.take(k + 1));
            }
            out.append("\x1B[0m\n");
            proof {
                assert(w.take(i + 1).drop_last() == w.take(i as int));
                assert(w.take(i + 1).last() == line);
                assert(out@ == old(out)@ + window_rows(w.take(i + 1)));
            }
        }
        assert(w.take(n as int) == w);
    }

    /// Takes note of `line`, which came after `secs` seconds, and returns the text that
    /// brings the screen up to date: none for a diagnostic, else one that erases the last
    /// picture and draws the next.
    pub fn line(&mut self, line: String, secs: u64) -> (r: String)
        requires
            wf(old(self)@),
        ensures
            wf(final(self)@),
            final(self)@ == advanced(old(self)@, line@),
            is_diagnostic(line@) ==> r@ == Seq::<char>::empty(),
            !is_diagnostic(line@) ==> r@ == erasure(old(self)@.rows) + picture(
                old(self)@.spin,
                secs as nat,
                final(self)@.window,
            ),
    {
        let ghost before = self@;
        let mut out = String::new();
        if has_label(&line, "warning:") || has_label(&line, "error:") || has_label(&line, "trace:") {
            assert(views(self.diagnostics@.push(line)) == views(self.diagnostics@).push(line@));
            self.diagnostics.push(line);
            assert(self@ =~= advanced(before, line@));
            return out;
        }
        push_erasure(&mut out, self.rows);
        out.push(spinner_at(self.spin));
        out.append(" building... (");
        push_two_digits(&mut out, secs / 60);
        out.append(":");
        push_two_digits(&mut out, secs % 60);
        out.append(")\n");
        self.spin = if self.spin + 1 == SPINNER_SIZE {
            0
        } else {
            self.spin + 1
        };
        assert(views(self.window@.push(line)) == views(self.window@).push(line@));
        self.window.push_back(line);
        let ghost long = self.window@;
        if self.window.len() > WINDOW_SIZE {
            self.window.pop_front();
            assert(views(self.window@) == views(long).skip(1));
        }
        self.rows = 1 + self.window.len();
        self.push_window(&mut out);
        proof {
            assert(self@ =~= advanced(before, line@));
            assert(out@ == erasure(before.rows) + picture(
                before.spin,
                secs as nat,
                self@.window,
            ));
        }
        out
    }

    /// The text that takes the last picture off the screen when the command is done.
    pub fn finish(&self) -> (r: String)
        ensures
            r@ == erasure(self@.rows),
    {
        let mut out = String::new();
        push_erasure(&mut out, self.rows);
        assert(out@ == erasure(self@.rows));
        out
    }

    /// The diagnostics, in the order in which they came, each in the colour of its kind.
    pub fn report(&self) -> (r: Vec<String>)
        ensures
            views(r@) == self@.diagnostics.map_values(|l: Seq<char>| painted(l)),
    {
        let mut out: Vec<String> = Vec::new();
        let ghost ds = self@.diagnostics;
        let ghost g = |l: Seq<char>| painted(l);
        for i in 0..self.diagnostics.len()
            invariant
                ds == views(self.diagnostics@),
                g == (|l: Seq<char>| painted(l)),
                views(out@) == ds.take(i as int).map_values(g),
        {
            let line = &self.diagnostics[i];
            let mut s = String::new();
            if has_label(line, "error:") {
                s.append("\x1B[31m");
                s.append(line.as_str());
                s.append("\x1B[0m");
            } else if has_label(line, "warning:") {
                s.append("\x1B[33m");
                s.append(line.as_str());
                s.append("\x1B[0m");
            } else {
                s.append(line.as_str());
            }
            proof {
                assert(s@ == painted(line@));
                assert(ds[i as int] == line@);
                assert(ds.take(i + 1).map_values(g) == ds.take(i as int).map_values(g).push(s@));
                assert(views(out@.push(s)) == views(out@).push(s@));
            }
            out.push(s);
        }
        assert(ds.take(self.diagnostics@.len() as int) == ds);
        out
    }
}

/// Appends to `out` the text that takes the last `rows` rows off the screen.
fn push_erasure(out: &mut String, rows: usize)
    ensures
        final(out)@ == old(out)@ + erasure(rows as nat),
{
    if rows > 0 {
        out.append("\x1B[");
        push_decimal(out, rows as u64);
        out.append("A\x1B[J");
    }
    assert(out@ == old(out)@ + erasure(rows as nat));
}

/// The progress after the lines `ls` have come, one after another.
pub open spec fn progress_after(ls: Seq<Seq<char>>) -> ProgressView
    decreases ls.len(),
{
    if ls.len() == 0 {
        no_progress()
    } else {
        advanced(progress_after(ls.drop_last()), ls.last())
    }
}

/// At any time the window shows the last lines that are no diagnostics, five at most, and
/// the diagnostics that have come are kept, each of them and in order.
pub proof fn law_progress(ls: Seq<Seq<char>>)
    ensures
        wf(progress_after(ls)),
        progress_after(ls).window == last_of(
            ls.filter(|l: Seq<char>| !is_diagnostic(l)),
            WINDOW_SIZE as nat,
        ),
        progress_after(ls).diagnostics == ls.filter(|l: Seq<char>| is_diagnostic(l)),
    decreases ls.len(),
{
    let n = |l: Seq<char>| !is_diagnostic(l);
    let d = |l: Seq<char>| is_diagnostic(l);
    if ls.len() == 0 {
        reveal(Seq::filter);
    } else {
        let t = ls.drop_last();
        law_progress(t);
        assert(ls == t.push(ls.last()));
        t.lemma_filter_push(ls.last(), n);
        t.lemma_filter_push(ls.last(), d);
        assert(progress_after(ls).window == last_of(ls.filter(n), WINDOW_SIZE as nat));
    }
}

/// How many line feeds there are in `s`.
pub open spec fn feeds(s: Seq<char>) -> nat
    decreases s.len(),
{
    if s.len() == 0 {
        0
    } else {
        feeds(s.drop_last()) + if s.last() == '\n' {
            1nat
        } else {
            0
        }
    }
}

proof fn lemma_feeds_add(a: Seq<char>, b: Seq<char>)
    ensures
        feeds(a + b) == feeds(a) + feeds(b),
    decreases b.len(),
{
    if b.len() == 0 {
        assert(a + b == a);
    } else {
        assert((a + b).drop_last() == a + b.drop_last());
        lemma_feeds_add(a, b.drop_last());
    }
}

proof fn lemma_feeds_none(s: Seq<char>)
    requires
        !s.contains('\n'),
    ensures
        feeds(s) == 0,
    decreases s.len(),
{
    if s.len() > 0 {
        let t = s.drop_last();
        assert(!t.contains('\n')) by {
            if t.contains('\n') {
                let k = choose|k: int| 0 <= k < t.len() && t[k] == '\n';
                assert(s[k] == '\n');
            }
        }
        assert(s[s.len() - 1] != '\n');
        lemma_feeds_none(t);
    }
}

proof fn lemma_feeds_decimal(n: nat)
    ensures
        feeds(decimal(n)) == 0,
    decreases n,
{
    reveal_with_fuel(feeds, 2);
    if n < 10 {
        assert(decimal(n).drop_last() == Seq::<char>::empty());
        assert(decimal(n).last() != '\n');
    } else {
        lemma_feeds_decimal(n / 10);
        assert(decimal(n).drop_last() == decimal(n / 10));
        assert(decimal(n).last() != '\n');
    }
}

proof fn lemma_feeds_two_digits(n: nat)
    ensures
        feeds(two_digits(n)) == 0,
{
    lemma_feeds_decimal(n);
    lemma_feeds_add(seq!['0'], decimal(n));
    lemma_feeds_none(seq!['0']);
}

proof fn lemma_feeds_window(window: Seq<Seq<char>>)
    requires
        forall|i: int| 0 <= i < window.len() ==> !(#[trigger] window[i]).contains('\n'),
    ensures
        feeds(window_rows(window)) == window.len(),
    decreases window.len(),
{
    if window.len() > 0 {
        let t = window.drop_last();
        assert forall|i: int| 0 <= i < t.len() implies !(#[trigger] t[i]).contains('\n') by {
            assert(t[i] == window[i]);
        }
        lemma_feeds_window(t);
        let line = clipped(window.last());
        assert(!window[window.len() - 1].contains('\n'));
        assert(!line.contains('\n')) by {
            if line.contains('\n') {
                let k = choose|k: int| 0 <= k < line.len() && line[k] == '\n';
                assert(window.last()[k] == '\n');
            }
        }
        lemma_feeds_none(line);
        reveal_strlit("  \x1B[2m");
        reveal_strlit("\x1B[0m\n");
        lemma_feeds_none("  \x1B[2m"@);
        assert(feeds("\x1B[0m\n"@) == 1) by {
            assert(!"\x1B[0m\n"@.drop_last().contains('\n'));
            lemma_feeds_none("\x1B[0m\n"@.drop_last());
        }
        lemma_feeds_add(window_rows(t), "  \x1B[2m"@);
        lemma_feeds_add(window_rows(t) + "  \x1B[2m"@, line);
        lemma_feeds_add(window_rows(t) + "  \x1B[2m"@ + line, "\x1B[0m\n"@);
    }
}

/// A picture takes as many rows as are erased before the next one: each row ends in a line
/// feed, and the lines that are shown have none of their own.
pub proof fn law_picture_rows(p: ProgressView, line: Seq<char>, secs: nat)
    requires
        wf(p),
        !is_diagnostic(line),
        !line.contains('\n'),
        forall|i: int| 0 <= i < p.window.len() ==> !(#[trigger] p.window[i]).contains('\n'),
    ensures
        feeds(picture(p.spin, secs, advanced(p, line).window)) == advanced(p, line).rows,
{
    let window = advanced(p, line).window;
    assert forall|i: int| 0 <= i < window.len() implies !(#[trigger] window[i]).contains('\n') by {
        let long = p.window.push(line);
        let k = i + (long.len() - window.len());
        assert(window[i] == long[k]);
        if k < p.window.len() {
            assert(p.window[k] == long[k]);
        }
    }
    lemma_feeds_window(window);
    let a = seq![spinner()[p.spin as int]];
    lemma_feeds_none(a);
    reveal_strlit(" building... (");
    reveal_strlit(":");
    reveal_strlit(")\n");
    let b = a + " building... ("@;
    let c = b + two_digits(secs / 60);
    let d = c + ":"@;
    let e = d + two_digits(secs % 60);
    let f = e + ")\n"@;
    lemma_feeds_none(" building... ("@);
    lemma_feeds_none(":"@);
    assert(feeds(")\n"@) == 1) by {
        assert(!")\n"@.drop_last().contains('\n'));
        lemma_feeds_none(")\n"@.drop_last());
    }
    lemma_feeds_two_digits(secs / 60);
    lemma_feeds_two_digits(secs % 60);
    lemma_feeds_add(a, " building... ("@);
    lemma_feeds_add(b, two_digits(secs / 60));
    lemma_feeds_add(c, ":"@);
    lemma_feeds_add(d, two_digits(secs % 60));
    lemma_feeds_add(e, ")\n"@);
    lemma_feeds_add(f, window_rows(window));
}

/// A diagnostic is a line that, behind white space, begins with one of the three labels.
pub proof fn law_diagnostics(line: Seq<char>)
    ensures
        is_diagnostic(line) <==> {
            ||| exists|rest: Seq<char>| trim_start(line) == #[trigger] ("warning:"@ + rest)
            ||| exists|rest: Seq<char>| trim_start(line) == #[trigger] ("error:"@ + rest)
            ||| exists|rest: Seq<char>| trim_start(line) == #[trigger] ("trace:"@ + rest)
        },
        (exists|rest: Seq<char>| trim_start(line) == #[trigger] ("error:"@ + rest)) ==> painted(line)
            == "\x1B[31m"@ + line + "\x1B[0m"@,
        (exists|rest: Seq<char>| trim_start(line) == #[trigger] ("warning:"@ + rest)) ==> painted(
            line,
        ) == "\x1B[33m"@ + line + "\x1B[0m"@,
        !(exists|rest: Seq<char>| trim_start(line) == #[trigger] ("error:"@ + rest)) && !(exists|
            rest: Seq<char>,
        | trim_start(line) == #[trigger] ("warning:"@ + rest)) ==> painted(line) == line,
{
    lemma_labelled(line, "warning:"@);
    lemma_labelled(line, "error:"@);
    lemma_labelled(line, "trace:"@);
    reveal_strlit("warning:");
    reveal_strlit("error:");
    if labelled(line, "warning:"@) && labelled(line, "error:"@) {
        assert("warning:"@[0] == trim_start(line)[0]);
        assert("error:"@[0] == trim_start(line)[0]);
    }
}

proof fn lemma_labelled(line: Seq<char>, label: Seq<char>)
    ensures
        labelled(line, label) <==> exists|rest: Seq<char>|
            trim_start(line) == #[trigger] (label + rest),
{
    let t = trim_start(line);
    if labelled(line, label) {
        let rest = t.skip(label.len() as int);
        assert(t == label + rest);
    }
    if exists|rest: Seq<char>| t == #[trigger] (label + rest) {
        let rest = choose|rest: Seq<char>| t == #[trigger] (label + rest);
        assert((label + rest).take(label.len() as int) == label);
    }
}

/// A diagnostic changes nothing but the diagnostics. Any other line comes last in the
/// window, which keeps the five newest; the spinner turns by one, and the rows are those of
/// the window and one more.
pub proof fn law_advance(p: ProgressView, line: Seq<char>)
    requires
        wf(p),
    ensures
        no_progress() == (ProgressView {
            window: Seq::empty(),
            diagnostics: Seq::empty(),
            spin: 0,
            rows: 0,
        }),
        is_diagnostic(line) ==> advanced(p, line) == (ProgressView {
            diagnostics: p.diagnostics.push(line),
            ..p
        }),
        !is_diagnostic(line) ==> {
            let q = advanced(p, line);
            &&& q.diagnostics == p.diagnostics
            &&& q.window == if p.window.len() < 5 {
                p.window.push(line)
            } else {
                p.window.drop_first().push(line)
            }
            &&& q.spin == if p.spin < 9 {
                p.spin + 1
            } else {
                0
            }
            &&& q.rows == 1 + q.window.len()
        },
{
    if p.window.len() >= 5 {
        assert(p.window.push(line).skip(1) == p.window.drop_first().push(line));
    }
}

/// A picture is the spinner with the minutes and seconds, then each line of the window, dim
/// and cut after a hundred and twenty characters. It is erased by going up its rows.
pub proof fn law_picture(spin: nat, secs: nat, window: Seq<Seq<char>>, line: Seq<char>, rows: nat)
    requires
        spin < 10,
    ensures
        picture(spin, secs, Seq::empty()) == seq![
            seq!['⠋', '⠙', '⠹', '⠸', '⠼', '⠴', '⠦', '⠧', '⠇', '⠏'][spin as int],
        ] + " building... ("@ + two_digits(secs / 60) + ":"@ + two_digits(secs % 60) + ")\n"@,
        picture(spin, secs, window.push(line)) == picture(spin, secs, window) + "  \x1B[2m"@ + (
        if line.len() <= 120 {
            line
        } else {
            line.subrange(0, 120)
        }) + "\x1B[0m\n"@,
        erasure(0) == Seq::<char>::empty(),
        rows > 0 ==> erasure(rows) == "\x1B["@ + decimal(rows) + "A\x1B[J"@,
{
    let head = seq![spinner()[spin as int]] + " building... ("@ + two_digits(secs / 60) + ":"@
        + two_digits(secs % 60) + ")\n"@;
    assert(head + Seq::<char>::empty() == head);
    assert(window.push(line).drop_last() == window);
    let row = clipped(line);
    if line.len() > 120 {
        assert(line.take(120) == line.subrange(0, 120));
    }
    assert(head + (window_rows(window) + "  \x1B[2m"@ + row + "\x1B[0m\n"@) == head + window_rows(
        window,
    ) + "  \x1B[2m"@ + row + "\x1B[0m\n"@);
}

} // verus!
