//! The commands to run, and what to make of how they ended.

use crate::text::{chars_of, copied, same, trim, trimmed, views};
use vstd::prelude::*;
use vstd::string::*;
use vstd::utf8::*;

verus! {

/// A program to run, with its arguments and what is added to its environment.
#[derive(Debug, PartialEq, Eq)]
pub struct Invocation {
    pub program: String,
    pub args: Vec<String>,
    pub env: Vec<(String, String)>,
}

/// A program to run, as a mathematical value.
#[verifier::ext_equal]
pub struct InvocationView {
    pub program: Seq<char>,
    pub args: Seq<Seq<char>>,
    pub env: Seq<(Seq<char>, Seq<char>)>,
}

/// The views of the pairs in `v`, in order.
pub open spec fn pair_views(v: Seq<(String, String)>) -> Seq<(Seq<char>, Seq<char>)> {
    v.map_values(|p: (String, String)| (p.0@, p.1@))
}

impl View for Invocation {
    type V = InvocationView;

    open spec fn view(&self) -> InvocationView {
        InvocationView {
            program: self.program@,
            args: views(self.args@),
            env: pair_views(self.env@),
        }
    }
}

/// `program` with `args` and nothing added to its environment.
pub open spec fn plain(program: Seq<char>, args: Seq<Seq<char>>) -> InvocationView {
    InvocationView { program, args, env: Seq::empty() }
}

/// `program` with `args`, run through `sudo` unless the user is root.
pub open spec fn privileged(root: bool, program: Seq<char>, args: Seq<Seq<char>>) -> InvocationView {
    if root {
        plain(program, args)
    } else {
        plain("sudo"@, seq![program] + args)
    }
}

/// `nix` with `args`, the features that its subcommands need switched on and unfree
/// packages allowed.
pub open spec fn nix(args: Seq<Seq<char>>) -> InvocationView {
    InvocationView {
        program: "nix"@,
        args: seq!["--extra-experimental-features"@, "nix-command flakes"@] + args,
        env: seq![("NIXPKGS_ALLOW_UNFREE"@, "1"@)],
    }
}

/// `args` with `head` in front.
fn with_front(head: &str, args: &[String]) -> (r: Vec<String>)
    ensures
        views(r@) == seq![head@] + views(args@),
{
    let mut out: Vec<String> = Vec::new();
    let first = head.to_string();
    out.push(first);
    let mut rest = copied(args);
    assert(views(out@ + rest@) == views(out@) + views(rest@));
    assert(views(out@) == seq![head@]);
    out.append(&mut rest);
    out
}

/// The command that runs `program` with `args` and shows its output as it comes.
pub fn run_streaming(program: &str, args: &[String]) -> (r: Invocation)
    ensures
        r@ == plain(program@, views(args@)),
{
    let r = Invocation { program: program.to_string(), args: copied(args), env: Vec::new() };
    assert(pair_views(r.env@) == Seq::<(Seq<char>, Seq<char>)>::empty());
    r
}

/// The command that runs `program` with `args` with the rights of root.
pub fn run_privileged(root: bool, program: &str, args: &[String]) -> (r: Invocation)
    ensures
        r@ == privileged(root, program@, views(args@)),
{
    if root {
        run_streaming(program, args)
    } else {
        let full = with_front(program, args);
        run_streaming("sudo", &full)
    }
}

/// The command that runs `program` with `args` with the rights of root and shows its
/// output as it comes.
pub fn run_privileged_streaming(root: bool, program: &str, args: &[String]) -> (r: Invocation)
    ensures
        r@ == privileged(root, program@, views(args@)),
{
    run_privileged(root, program, args)
}

/// The command that runs `nix` with `args`.
pub fn run_nix(args: &[String]) -> (r: Invocation)
    ensures
        r@ == nix(views(args@)),
{
    let tail = with_front("nix-command flakes", args);
    let full = with_front("--extra-experimental-features", &tail);
    let mut env: Vec<(String, String)> = Vec::new();
    let allow = ("NIXPKGS_ALLOW_UNFREE".to_string(), "1".to_string());
    env.push(allow);
    let r = Invocation { program: "nix".to_string(), args: full, env };
    assert(r@.env == seq![("NIXPKGS_ALLOW_UNFREE"@, "1"@)]);
    assert(r@.args == seq!["--extra-experimental-features"@, "nix-command flakes"@] + views(args@));
    r
}

/// The command that runs `nix` with `args` and shows its output as it comes.
pub fn run_nix_streaming(args: &[String]) -> (r: Invocation)
    ensures
        r@ == nix(views(args@)),
{
    run_nix(args)
}

/// The shell command that writes its input to `path` with the rights of root.
pub open spec fn tee_command(root: bool, path: Seq<char>) -> Seq<char> {
    (if root {
        "tee"@
    } else {
        "sudo tee"@
    }) + " "@ + path + " > /dev/null"@
}

/// The command that writes its input to `path` with the rights of root.
pub fn write_privileged(root: bool, path: &str) -> (r: Invocation)
    ensures
        r@ == plain("sh"@, seq!["-c"@, tee_command(root, path@)]),
{
    let mut line = String::new();
    if root {
        line.append("tee");
    } else {
        line.append("sudo tee");
    }
    line.append(" ");
    line.append(path);
    line.append(" > /dev/null");
    assert(line@ == tee_command(root, path@));
    let mut tail: Vec<String> = Vec::new();
    tail.push(line);
    assert(views(tail@) == seq![line@]);
    let args = with_front("-c", &tail);
    let r = run_streaming("sh", &args);
    assert(r@.args == seq!["-c"@, tee_command(root, path@)]);
    r
}

/// How a program ended.
#[derive(Debug, PartialEq, Eq)]
pub enum Outcome {
    /// It ran and reported success.
    Success,
    /// It ran and reported the failure that the text describes.
    Failure(String),
    /// It could not be started, for the reason in the text.
    NotStarted(String),
}

/// The message that `program` could not be started.
pub open spec fn not_started(program: Seq<char>, reason: Seq<char>) -> Seq<char> {
    "[spin] Failed to run '"@ + program + "': "@ + reason
}

/// The message that `program` reported a failure.
pub open spec fn exited(program: Seq<char>, status: Seq<char>) -> Seq<char> {
    "[spin] '"@ + program + "' exited with "@ + status
}

/// The message that `program` could not be started.
pub fn spawn_failure(program: &str, reason: &str) -> (r: String)
    ensures
        r@ == not_started(program@, reason@),
{
    let mut s = String::new();
    s.append("[spin] Failed to run '");
    s.append(program);
    s.append("': ");
    s.append(reason);
    assert(s@ == not_started(program@, reason@));
    s
}

/// Whether `program` succeeded, and what to tell the user where it did not.
pub fn run_command(program: &str, outcome: &Outcome) -> (r: (bool, Option<String>))
    ensures
        match *outcome {
            Outcome::Success => r.0 && r.1 is None,
            Outcome::Failure(status) => !r.0 && r.1 is Some && r.1->0@ == exited(
                program@,
                status@,
            ),
            Outcome::NotStarted(reason) => !r.0 && r.1 is Some && r.1->0@ == not_started(
                program@,
                reason@,
            ),
        },
{
    match outcome {
        Outcome::Success => (true, None),
        Outcome::Failure(status) => {
            let mut s = String::new();
            s.append("[spin] '");
            s.append(program);
            s.append("' exited with ");
            s.append(status.as_str());
            assert(s@ == exited(program@, status@));
            (false, Some(s))
        },
        Outcome::NotStarted(reason) => (false, Some(spawn_failure(program, reason.as_str()))),
    }
}

/// What became of a write.
#[derive(Debug, PartialEq, Eq)]
pub enum WriteOutcome {
    /// The writer took the content and reported success.
    Written,
    /// The writer could not be started or did not take the content, for the reason in the
    /// text.
    Broken(String),
    /// How the writer ended could not be found out, for the reason in the text.
    Lost(String),
    /// The writer reported a failure.
    Refused,
}

/// The error that a write to `path` ends with, if any.
pub open spec fn write_error(path: Seq<char>, outcome: WriteOutcome) -> Option<Seq<char>> {
    match outcome {
        WriteOutcome::Written => None,
        WriteOutcome::Broken(reason) => Some("Cannot write "@ + path + ": "@ + reason@),
        WriteOutcome::Lost(reason) => Some(reason@),
        WriteOutcome::Refused => Some("Cannot write "@ + path + " (permission denied?)"@),
    }
}

/// The error that a write to `path` ends with, if any.
pub fn write_result(path: &str, outcome: &WriteOutcome) -> (r: Result<(), String>)
    ensures
        match r {
            Ok(_) => write_error(path@, *outcome) is None,
            Err(e) => write_error(path@, *outcome) == Some(e@),
        },
{
    match outcome {
        WriteOutcome::Written => Ok(()),
        WriteOutcome::Broken(reason) => {
            let mut s = String::new();
            s.append("Cannot write ");
            s.append(path);
            s.append(": ");
            s.append(reason.as_str());
            assert(s@ == "Cannot write "@ + path@ + ": "@ + reason@);
            Err(s)
        },
        WriteOutcome::Lost(reason) => Err(reason.clone()),
        WriteOutcome::Refused => {
            let mut s = String::new();
            s.append("Cannot write ");
            s.append(path);
            s.append(" (permission denied?)");
            assert(s@ == "Cannot write "@ + path@ + " (permission denied?)"@);
            Err(s)
        },
    }
}

/// The text that `String::from_utf8_lossy` makes of bytes.
pub uninterp spec fn lossy(bytes: Seq<u8>) -> Seq<char>;

/// Calls `String::from_utf8_lossy`. Claimed: the text depends on the bytes alone, and bytes
/// that are UTF-8 give the text that they encode.
#[verifier::external_body]
fn decoded(bytes: &[u8]) -> (r: String)
    ensures
        r@ == lossy(bytes@),
        valid_utf8(bytes@) ==> r@ == decode_utf8(bytes@),
{
    String::from_utf8_lossy(bytes).into_owned()
}

/// The text that a program printed, where it could be run.
pub fn nix_output(printed: &Option<Vec<u8>>) -> (r: Option<String>)
    ensures
        match *printed {
            Some(bytes) => r is Some && r->0@ == lossy(bytes@),
            None => r is None,
        },
{
    match printed {
        Some(bytes) => Some(decoded(bytes)),
        None => None,
    }
}

/// Whether the user id in `text` is that of root.
pub fn is_root_id(text: &str) -> (r: bool)
    ensures
        r == (trim(text@) == "0"@),
{
    let cs = chars_of(text);
    let zero = chars_of("0");
    same(trimmed(&cs), &zero)
}

/// Whether what `id -u` printed, where it could be run, is the user id of root.
pub fn is_root(printed: &Option<Vec<u8>>) -> (r: bool)
    ensures
        r == match *printed {
            Some(bytes) => trim(lossy(bytes@)) == "0"@,
            None => false,
        },
{
    match printed {
        Some(bytes) => {
            let text = decoded(bytes);
            is_root_id(text.as_str())
        },
        None => false,
    }
}

/// Root runs a program as it is, anyone else hands it to `sudo` with its arguments; nothing
/// is added to its environment.
pub proof fn law_privileged(program: Seq<char>, args: Seq<Seq<char>>)
    ensures
        privileged(true, program, args) == (InvocationView {
            program,
            args,
            env: Seq::empty(),
        }),
        privileged(false, program, args) == (InvocationView {
            program: "sudo"@,
            args: seq![program] + args,
            env: Seq::empty(),
        }),
        plain(program, args) == privileged(true, program, args),
{
}

/// `nix` always gets its two features in front of its arguments, and the permission for
/// unfree packages in its environment.
pub proof fn law_nix(args: Seq<Seq<char>>, i: int)
    ensures
        nix(args).program == "nix"@,
        nix(args).args.len() == args.len() + 2,
        nix(args).args[0] == "--extra-experimental-features"@,
        nix(args).args[1] == "nix-command flakes"@,
        0 <= i < args.len() ==> nix(args).args[i + 2] == args[i],
        nix(args).env == seq![("NIXPKGS_ALLOW_UNFREE"@, "1"@)],
{
}

/// What is said of a program, and of a write, that did not succeed.
pub proof fn law_failures_are_told(program: Seq<char>, path: Seq<char>, reason: String)
    ensures
        not_started(program, reason@) == "[spin] Failed to run '"@ + program + "': "@ + reason@,
        exited(program, reason@) == "[spin] '"@ + program + "' exited with "@ + reason@,
        write_error(path, WriteOutcome::Written) is None,
        write_error(path, WriteOutcome::Broken(reason)) == Some(
            "Cannot write "@ + path + ": "@ + reason@,
        ),
        write_error(path, WriteOutcome::Lost(reason)) == Some(reason@),
        write_error(path, WriteOutcome::Refused) == Some(
            "Cannot write "@ + path + " (permission denied?)"@,
        ),
        tee_command(true, path) == "tee"@ + " "@ + path + " > /dev/null"@,
        tee_command(false, path) == "sudo tee"@ + " "@ + path + " > /dev/null"@,
{
}

} // verus!
