//! A session: what `spin` does, step by step, with what comes of each step.

use crate::conf::{
    check_config_imports, conf_text, import_advice, imported, list_in, read_conf, write_conf,
    FONTS_MARKER, PACKAGES_FILE, PACKAGES_MARKER,
};
use crate::order::all;
use crate::plan::{
    add_names, extended, fresh, fresh_names, law_removable, removable, remove_names, without,
};
use crate::profile::{index_in, profile_index};
use crate::request::{
    change_view, Change, ChangeView, Effect, EffectView, Event, EventView, Goal,
    GoalView, Lists, ListsView, Output, OutputView, Request, RequestView, State, StateView, Step,
    StepView,
};
use crate::search::{cmd_search, search_report};
use crate::text::{copied, glued, holds, join, joined, opt_view, views};
use crate::validate::{
    answers, attr_names_expr, attr_names_query, checkable, checkable_names, eval_args,
    existence_expr, existence_query, missing, missing_report, report_missing, validate_packages,
};
use vstd::prelude::*;
use vstd::string::*;

verus! {

/// The step that ends the program.
pub open spec fn exit(output: Seq<OutputView>, success: bool) -> StepView {
    StepView { output, effect: EffectView::Exit { success }, state: StateView::Finished }
}

/// `step` with `output` in front of what it says.
pub open spec fn said(output: Seq<OutputView>, step: StepView) -> StepView {
    StepView { output: output + step.output, effect: step.effect, state: step.state }
}

/// A line for each of `names`, with `before` and `after` around the name.
pub open spec fn line_each(
    names: Seq<Seq<char>>,
    before: Seq<char>,
    after: Seq<char>,
) -> Seq<OutputView> {
    names.map_values(|n: Seq<char>| OutputView::Line(before + n + after))
}

/// What the names in the request are called.
pub open spec fn kind(request: RequestView) -> Seq<char> {
    if request.font {
        "Font"@
    } else {
        "Package"@
    }
}

/// What the names in the request are called inside a sentence.
pub open spec fn small_kind(request: RequestView) -> Seq<char> {
    if request.font {
        "font"@
    } else {
        "package"@
    }
}

/// The installables of nixpkgs with the names `names`.
pub open spec fn installables(names: Seq<Seq<char>>) -> Seq<Seq<char>> {
    names.map_values(|n: Seq<char>| "nixpkgs#"@ + n)
}

/// The first step of a session.
pub open spec fn begin_step(request: RequestView) -> StepView {
    if request.sync {
        StepView {
            output: seq![
                OutputView::Line("[spin] Syncing package list (updating Nix channels)..."@),
            ],
            effect: EffectView::Privileged { program: "nix-channel"@, args: seq!["--update"@] },
            state: StateView::Syncing { request },
        }
    } else {
        dispatch_step(request)
    }
}

/// The step that follows once the channels are up to date: a search, a cleaning, a
/// temporary shell, the user's profile or the system, whichever is asked for first.
pub open spec fn dispatch_step(request: RequestView) -> StepView {
    if request.search.len() > 0 {
        StepView {
            output: seq![
                OutputView::Part(
                    "[spin] Searching nixpkgs for "@ + join(request.search, ", "@) + "... "@,
                ),
            ],
            effect: EffectView::NixOutput { args: search_args(request.search) },
            state: StateView::Searching { request },
        }
    } else if request.clean {
        StepView {
            output: seq![OutputView::Line("[spin] Deleting old generations..."@)],
            effect: EffectView::PrivilegedStreaming {
                program: "nix-collect-garbage"@,
                args: if request.all {
                    seq!["--delete-old"@]
                } else {
                    seq!["--delete-older-than"@, "7d"@]
                },
            },
            state: StateView::Collecting,
        }
    } else if request.temp {
        validate_step(request, request.install, GoalView::Shell)
    } else if request.profile && request.install.len() > 0 {
        validate_step(request, request.install, GoalView::Profile)
    } else if request.profile {
        unlist_step(request, 0)
    } else {
        system_step(request)
    }
}

/// The arguments with which `nix` searches nixpkgs for any of `names`.
pub open spec fn search_args(names: Seq<Seq<char>>) -> Seq<Seq<char>> {
    seq!["search"@, "--no-update-lock-file"@, "--json"@, "nixpkgs"@, join(names, "|"@)]
}

/// The step that checks `names`: nixpkgs is asked about those that could be attribute
/// paths; where there are none, nothing has to be asked.
pub open spec fn validate_step(
    request: RequestView,
    names: Seq<Seq<char>>,
    goal: GoalView,
) -> StepView {
    if checkable(names).len() > 0 {
        StepView {
            output: Seq::empty(),
            effect: EffectView::NixOutput { args: eval_args(existence_expr(checkable(names))) },
            state: StateView::Checking { request, names, goal },
        }
    } else {
        judge_step(request, names, missing(names, None), goal)
    }
}

/// The step that follows once it is known which of `names` are missing.
pub open spec fn judge_step(
    request: RequestView,
    names: Seq<Seq<char>>,
    gone: Seq<Seq<char>>,
    goal: GoalView,
) -> StepView {
    if gone.len() > 0 {
        StepView {
            output: Seq::empty(),
            effect: EffectView::NixOutput { args: eval_args(attr_names_expr()) },
            state: StateView::Suggesting { missing: gone },
        }
    } else {
        match goal {
            GoalView::Shell => StepView {
                output: seq![
                    OutputView::Line(
                        "[spin] Opening temporary shell with "@ + join(request.install, ", "@)
                            + "..."@,
                    ),
                ],
                effect: EffectView::Nix {
                    args: seq!["shell"@, "--impure"@] + installables(request.install),
                },
                state: StateView::Shelling,
            },
            GoalView::Profile => StepView {
                output: seq![
                    OutputView::Line(
                        "[spin] Installing "@ + join(request.install, ", "@)
                            + " to user profile..."@,
                    ),
                ],
                effect: EffectView::NixStreaming {
                    args: seq!["profile"@, "install"@, "--impure"@] + installables(request.install),
                },
                state: StateView::Installing { request },
            },
            GoalView::System(lists) => apply_step(request, lists, names),
        }
    }
}

/// The step that takes the name at `at` in the request, and those behind it, out of the
/// user's profile; where none is left the session is over, unless the request named none
/// at all.
pub open spec fn unlist_step(request: RequestView, at: nat) -> StepView {
    if at < request.remove.len() {
        StepView {
            output: Seq::empty(),
            effect: EffectView::NixOutput { args: seq!["profile"@, "list"@] },
            state: StateView::Listing { request, at },
        }
    } else if request.install.len() > 0 || request.remove.len() > 0 {
        exit(Seq::empty(), true)
    } else {
        system_step(request)
    }
}

/// The step that starts on the system.
pub open spec fn system_step(request: RequestView) -> StepView {
    if request.install.len() > 0 || request.remove.len() > 0 {
        StepView {
            output: Seq::empty(),
            effect: EffectView::FindPackages,
            state: StateView::Locating { request },
        }
    } else {
        rebuild_step(request, None)
    }
}

/// The list that the request is about.
pub open spec fn target(request: RequestView, lists: ListsView) -> Seq<Seq<char>> {
    if request.font {
        lists.fonts
    } else {
        lists.packages
    }
}

/// `lists` with `list` in place of the one that the request is about.
pub open spec fn with_target(
    request: RequestView,
    lists: ListsView,
    list: Seq<Seq<char>>,
) -> ListsView {
    if request.font {
        ListsView { packages: lists.packages, fonts: list }
    } else {
        ListsView { packages: list, fonts: lists.fonts }
    }
}

/// The step that follows once the managed lists are known: the names that are not there
/// yet are checked, if there are any.
pub open spec fn prepare_step(request: RequestView, lists: ListsView) -> StepView {
    let list = target(request, lists);
    let names = fresh(list, request.install);
    said(
        line_each(
            request.install.filter(|n: Seq<char>| list.contains(n)),
            "[spin] "@ + kind(request) + " '"@,
            "' is already installed."@,
        ),
        if names.len() > 0 {
            validate_step(request, names, GoalView::System(lists))
        } else {
            apply_step(request, lists, names)
        },
    )
}

/// The lists after `names` have been added and the names to remove been removed.
pub open spec fn changed(request: RequestView, lists: ListsView, names: Seq<Seq<char>>) -> ListsView {
    with_target(
        request,
        lists,
        without(extended(target(request, lists), names), request.remove),
    )
}

/// The step that changes the managed lists: `names` are added, then the names to remove
/// are taken out. Where one of them is not there, nothing is written. What changes is
/// written at once.
pub open spec fn apply_step(
    request: RequestView,
    lists: ListsView,
    names: Seq<Seq<char>>,
) -> StepView {
    let grown = extended(target(request, lists), names);
    let k = removable(grown, request.remove);
    let output = line_each(names, "[spin] Queued '"@, "' for installation."@) + line_each(
        request.remove.take(k as int),
        "[spin] Queued '"@,
        "' for removal."@,
    );
    if k < request.remove.len() {
        exit(
            output.push(
                OutputView::Error(
                    "[spin] Error: "@ + small_kind(request) + " '"@ + request.remove[k as int]
                        + "' is not managed by spin (not in "@ + PACKAGES_FILE@ + ")."@,
                ),
            ),
            false,
        )
    } else if names.len() > 0 || request.remove.len() > 0 {
        let lists_now = changed(request, lists, names);
        StepView {
            output,
            effect: EffectView::WritePackages {
                content: conf_text(lists_now.packages, lists_now.fonts),
            },
            state: StateView::Writing {
                request,
                change: ChangeView { before: lists, added: names, removed: request.remove },
            },
        }
    } else {
        said(output, rebuild_step(request, None))
    }
}

/// The arguments with which the system is rebuilt.
pub open spec fn switch_args(upgrade: bool) -> Seq<Seq<char>> {
    if upgrade {
        seq!["switch"@, "--upgrade"@]
    } else {
        seq!["switch"@]
    }
}

/// The step that rebuilds the system, where there is a reason to.
pub open spec fn rebuild_step(request: RequestView, change: Option<ChangeView>) -> StepView {
    if request.upgrade || change is Some {
        StepView {
            output: Seq::empty(),
            effect: EffectView::PrivilegedStreaming {
                program: "nixos-rebuild"@,
                args: switch_args(request.upgrade),
            },
            state: StateView::Rebuilding { request, written: change },
        }
    } else {
        conclude_step(request, change)
    }
}

/// The step that tells what was done and ends the program.
pub open spec fn conclude_step(request: RequestView, change: Option<ChangeView>) -> StepView {
    match change {
        Some(c) => exit(
            line_each(c.added, "[spin] "@ + kind(request) + " '"@, "' installed successfully."@)
                + line_each(
                c.removed,
                "[spin] "@ + kind(request) + " '"@,
                "' removed successfully."@,
            ) + (if request.upgrade && c.added.len() == 0 && c.removed.len() == 0 {
                seq![OutputView::Line("[spin] System updated successfully."@)]
            } else {
                Seq::empty()
            }),
            true,
        ),
        None => exit(
            if request.upgrade {
                seq![OutputView::Line("[spin] System updated successfully."@)]
            } else {
                Seq::empty()
            },
            true,
        ),
    }
}

/// The step that ends the program with the error `error`.
pub open spec fn fail_step(error: Seq<char>) -> StepView {
    exit(seq![OutputView::Error("[spin] Error: "@ + error)], false)
}

/// The step that follows when the profile has been listed, to find the name at `at` in the
/// request.
pub open spec fn listed_step(request: RequestView, at: nat, listing: Option<Seq<char>>) -> StepView {
    let name = request.remove[at as int];
    match listing {
        Some(text) => match index_in(text, name) {
            Some(index) => StepView {
                output: seq![
                    OutputView::Line(
                        "[spin] Removing '"@ + name + "' (profile index "@ + index
                            + ") from user profile..."@,
                    ),
                ],
                effect: EffectView::Nix { args: seq!["profile"@, "remove"@, index] },
                state: StateView::Unlisting { request, at },
            },
            None => fail_step(
                "Package '"@ + name
                    + "' not found in user profile.\nRun 'nix profile list' to see what is installed."@,
            ),
        },
        None => fail_step("Failed to list profile"@),
    }
}

/// The step that follows when the name at `at` in the request has been removed from the
/// profile, or not.
pub open spec fn unlisted_step(request: RequestView, at: nat, ok: bool) -> StepView {
    let name = request.remove[at as int];
    if ok {
        said(
            seq![OutputView::Line("[spin] Package '"@ + name + "' removed from user profile."@)],
            unlist_step(request, at + 1),
        )
    } else {
        fail_step("Failed to remove '"@ + name + "' from profile."@)
    }
}

/// The step that follows when the system has been rebuilt, or not: where the rebuild failed
/// the lists before the change, if one was written, are written back.
pub open spec fn rebuilt_step(
    request: RequestView,
    written: Option<ChangeView>,
    ok: bool,
) -> StepView {
    if ok {
        conclude_step(request, written)
    } else {
        match written {
            Some(c) => StepView {
                output: Seq::empty(),
                effect: EffectView::WritePackages {
                    content: conf_text(c.before.packages, c.before.fonts),
                },
                state: StateView::Restoring,
            },
            None => rolled_back_step(),
        }
    }
}

/// Whether `event` is what a session in `state` waits for.
pub open spec fn fits(state: StateView, event: EventView) -> bool {
    match state {
        StateView::Syncing { .. }
        | StateView::Collecting
        | StateView::Booting
        | StateView::Shelling
        | StateView::Installing { .. }
        | StateView::Rebuilding { .. } => event is Done,
        StateView::Searching { .. } => event is Found,
        StateView::Checking { names, .. } => event matches EventView::Existence(flags) && answers(
            names,
            flags,
        ),
        StateView::Suggesting { missing } => event matches EventView::Suggested(lists)
            && lists.len() == missing.len(),
        StateView::Listing { request, at } => event is Listing && at < request.remove.len(),
        StateView::Unlisting { request, at } => event is Done && at < request.remove.len(),
        StateView::Locating { .. } | StateView::Finding { .. } => event is Exists,
        StateView::Creating { .. }
        | StateView::Writing { .. }
        | StateView::Restoring => event is Wrote,
        StateView::Importing { .. } => event is Config,
        StateView::Reading { .. } => event is Read,
        StateView::Finished => false,
    }
}

/// The step that follows when `event` comes to a session in `state`.
pub open spec fn next_step(state: StateView, event: EventView) -> StepView {
    match (state, event) {
        (StateView::Syncing { request }, EventView::Done(ok)) => if ok {
            dispatch_step(request)
        } else {
            exit(Seq::empty(), false)
        },
        (StateView::Searching { request }, EventView::Found(packages)) => exit(
            seq![OutputView::Line(""@)] + search_report(request.search, packages).map_values(
                |l: Seq<char>| OutputView::Line(l),
            ),
            true,
        ),
        (StateView::Collecting, EventView::Done(ok)) => if ok {
            StepView {
                output: seq![OutputView::Line("[spin] Updating bootloader..."@)],
                effect: EffectView::PrivilegedStreaming {
                    program: "nixos-rebuild"@,
                    args: seq!["boot"@],
                },
                state: StateView::Booting,
            }
        } else {
            exit(Seq::empty(), false)
        },
        (StateView::Booting, EventView::Done(ok)) => exit(Seq::empty(), ok),
        (StateView::Checking { request, names, goal }, EventView::Existence(flags)) => said(
            if flags is None {
                seq![
                    OutputView::Error(
                        "[spin] Warning: could not reach nixpkgs to validate names — skipping check."@,
                    ),
                ]
            } else {
                Seq::empty()
            },
            judge_step(request, names, missing(names, flags), goal),
        ),
        (StateView::Suggesting { missing }, EventView::Suggested(lists)) => exit(
            missing_report(missing, lists).map_values(|l: Seq<char>| OutputView::Error(l)),
            false,
        ),
        (StateView::Shelling, EventView::Done(ok)) => exit(Seq::empty(), ok),
        (StateView::Installing { request }, EventView::Done(ok)) => if ok {
            unlist_step(request, 0)
        } else {
            exit(Seq::empty(), false)
        },
        (StateView::Listing { request, at }, EventView::Listing(listing)) => listed_step(
            request,
            at,
            listing,
        ),
        (StateView::Unlisting { request, at }, EventView::Done(ok)) => unlisted_step(
            request,
            at,
            ok,
        ),
        (StateView::Locating { request }, EventView::Exists(there)) => if there {
            StepView {
                output: Seq::empty(),
                effect: EffectView::ReadConfig,
                state: StateView::Importing { request },
            }
        } else {
            StepView {
                output: Seq::empty(),
                effect: EffectView::WritePackages {
                    content: conf_text(Seq::empty(), Seq::empty()),
                },
                state: StateView::Creating { request },
            }
        },
        (StateView::Creating { request }, EventView::Wrote(result)) => match result {
            Ok(_) => StepView {
                output: seq![OutputView::Line("[spin] Created "@ + PACKAGES_FILE@)],
                effect: EffectView::ReadConfig,
                state: StateView::Importing { request },
            },
            Err(error) => fail_step(error),
        },
        (StateView::Importing { request }, EventView::Config(config)) => if config matches Some(
            text,
        ) && !imported(text) {
            exit(seq![OutputView::Error(import_advice())], false)
        } else {
            StepView {
                output: Seq::empty(),
                effect: EffectView::FindPackages,
                state: StateView::Finding { request },
            }
        },
        (StateView::Finding { request }, EventView::Exists(there)) => if there {
            StepView {
                output: Seq::empty(),
                effect: EffectView::ReadPackages,
                state: StateView::Reading { request },
            }
        } else {
            prepare_step(request, ListsView { packages: Seq::empty(), fonts: Seq::empty() })
        },
        (StateView::Reading { request }, EventView::Read(result)) => match result {
            Ok(text) => prepare_step(request, lists_in(text)),
            Err(error) => fail_step("Cannot read "@ + PACKAGES_FILE@ + ": "@ + error),
        },
        (StateView::Writing { request, change }, EventView::Wrote(result)) => match result {
            Ok(_) => rebuild_step(request, Some(change)),
            Err(error) => fail_step(error),
        },
        (StateView::Rebuilding { request, written }, EventView::Done(ok)) => rebuilt_step(
            request,
            written,
            ok,
        ),
        (StateView::Restoring, EventView::Wrote(_)) => rolled_back_step(),
        _ => exit(Seq::empty(), false),
    }
}

/// The managed lists in the text of `packages.conf`.
pub open spec fn lists_in(text: Seq<char>) -> ListsView {
    ListsView {
        packages: list_in(text, PACKAGES_MARKER@),
        fonts: list_in(text, FONTS_MARKER@),
    }
}

/// The step that ends the program after a rebuild that failed.
pub open spec fn rolled_back_step() -> StepView {
    fail_step("nixos-rebuild failed — changes rolled back."@)
}

/// Appends `line` to `out`.
fn tell(out: &mut Vec<Output>, line: Output)
    ensures
        all(final(out)@) == all(old(out)@).push(line@),
{
    out.push(line);
    assert(all(out@) == all(old(out)@).push(line@));
}

/// Appends a line for each of `names` to `out`, with `before` and `after` around the name.
fn tell_each(out: &mut Vec<Output>, names: &Vec<String>, before: &str, after: &str)
    ensures
        all(final(out)@) == all(old(out)@) + line_each(views(names@), before@, after@),
{
    let ghost start = all(out@);
    let ghost s = views(names@);
    let ghost g = |n: Seq<char>| OutputView::Line(before@ + n + after@);
    assert(start + s.take(0).map_values(g) == start);
    for i in 0..names.len()
        invariant
            s == views(names@),
            g == (|n: Seq<char>| OutputView::Line(before@ + n + after@)),
            all(out@) == start + s.take(i as int).map_values(g),
    {
        let line = glued(before, names[i].as_str(), after);
        proof {
            assert(s.take(i + 1).map_values(g) == s.take(i as int).map_values(g).push(
                OutputView::Line(line@),
            ));
        }
        tell(out, Output::Line(line));
    }
    assert(s.take(names@.len() as int) == s);
}

/// A vector with the string `a`.
fn one(a: &str) -> (r: Vec<String>)
    ensures
        views(r@) == seq![a@],
{
    let mut v: Vec<String> = Vec::new();
    v.push(a.to_string());
    assert(views(v@) =~= seq![a@]);
    v
}

/// A vector with the strings `a` and `b`.
fn two(a: &str, b: &str) -> (r: Vec<String>)
    ensures
        views(r@) == seq![a@, b@],
{
    let mut v: Vec<String> = Vec::new();
    v.push(a.to_string());
    v.push(b.to_string());
    assert(views(v@) =~= seq![a@, b@]);
    v
}

/// A vector with the strings `a`, `b` and `c`.
fn three(a: &str, b: &str, c: &str) -> (r: Vec<String>)
    ensures
        views(r@) == seq![a@, b@, c@],
{
    let mut v: Vec<String> = Vec::new();
    v.push(a.to_string());
    v.push(b.to_string());
    v.push(c.to_string());
    assert(views(v@) =~= seq![a@, b@, c@]);
    v
}

/// The step that ends the program.
fn ended(out: Vec<Output>, success: bool) -> (r: Step)
    ensures
        r@ == exit(all(out@), success),
{
    Step { output: out, effect: Effect::Exit { success }, state: State::Finished }
}

/// The step that ends the program with the error `error`.
fn failed(error: &str) -> (r: Step)
    ensures
        r@ == fail_step(error@),
{
    let mut out: Vec<Output> = Vec::new();
    let line = glued("[spin] Error: ", error, "");
    proof {
        reveal_strlit("");
        assert(line@ == "[spin] Error: "@ + error@);
    }
    tell(&mut out, Output::Error(line));
    let r = ended(out, false);
    assert(r@ =~= fail_step(error@));
    r
}

/// What the names in the request are called.
fn kind_of(request: &Request) -> (r: &'static str)
    ensures
        r@ == kind(request@),
{
    if request.font {
        "Font"
    } else {
        "Package"
    }
}

/// The step that tells what was done and ends the program.
fn conclude(request: Request, change: Option<Change>, out: Vec<Output>) -> (r: Step)
    ensures
        r@ == said(all(out@), conclude_step(request@, change_view(change))),
{
    let mut out = out;
    let ghost start = all(out@);
    let ghost goal = said(start, conclude_step(request@, change_view(change)));
    let none = match &change {
        Some(c) => {
            let label = glued("[spin] ", kind_of(&request), " '");
            tell_each(&mut out, &c.added, label.as_str(), "' installed successfully.");
            tell_each(&mut out, &c.removed, label.as_str(), "' removed successfully.");
            c.added.len() == 0 && c.removed.len() == 0
        },
        None => true,
    };
    if request.upgrade && none {
        tell(&mut out, Output::Line("[spin] System updated successfully.".to_string()));
    }
    let r = ended(out, true);
    assert(r@.output =~= goal.output);
    r
}

/// The step that rebuilds the system, where there is a reason to.
fn rebuild(request: Request, change: Option<Change>, out: Vec<Output>) -> (r: Step)
    ensures
        r@ == said(all(out@), rebuild_step(request@, change_view(change))),
{
    if request.upgrade || change.is_some() {
        let args = if request.upgrade {
            two("switch", "--upgrade")
        } else {
            one("switch")
        };
        let r = Step {
            output: out,
            effect: Effect::PrivilegedStreaming { program: "nixos-rebuild".to_string(), args },
            state: State::Rebuilding { request, written: change },
        };
        assert(r@.output =~= all(out@) + Seq::<OutputView>::empty());
        r
    } else {
        conclude(request, change, out)
    }
}

/// The step that starts on the system.
fn system(request: Request, out: Vec<Output>) -> (r: Step)
    ensures
        r@ == said(all(out@), system_step(request@)),
{
    if request.install.len() > 0 || request.remove.len() > 0 {
        let r = Step {
            output: out,
            effect: Effect::FindPackages,
            state: State::Locating { request },
        };
        assert(r@.output =~= all(out@) + Seq::<OutputView>::empty());
        r
    } else {
        rebuild(request, None, out)
    }
}

/// The step that takes the name at `at` in the request, and those behind it, out of the
/// user's profile.
fn unlist(request: Request, at: usize, out: Vec<Output>) -> (r: Step)
    ensures
        r@ == said(all(out@), unlist_step(request@, at as nat)),
{
    if at < request.remove.len() {
        let r = Step {
            output: out,
            effect: Effect::NixOutput { args: two("profile", "list") },
            state: State::Listing { request, at },
        };
        assert(r@.output =~= all(out@) + Seq::<OutputView>::empty());
        r
    } else if request.install.len() > 0 || request.remove.len() > 0 {
        let r = ended(out, true);
        assert(r@.output =~= all(out@) + Seq::<OutputView>::empty());
        r
    } else {
        system(request, out)
    }
}

/// The installables of nixpkgs with the names `names`, behind `args`.
fn with_installables(args: Vec<String>, names: &Vec<String>) -> (r: Vec<String>)
    ensures
        views(r@) == views(args@) + installables(views(names@)),
{
    let mut out = args;
    let ghost s = views(names@);
    let ghost g = |n: Seq<char>| "nixpkgs#"@ + n;
    assert(views(args@) + s.take(0).map_values(g) == views(args@));
    for i in 0..names.len()
        invariant
            s == views(names@),
            g == (|n: Seq<char>| "nixpkgs#"@ + n),
            views(out@) == views(args@) + s.take(i as int).map_values(g),
    {
        let mut item = String::new();
        item.append("nixpkgs#");
        item.append(names[i].as_str());
        proof {
            assert(item@ == "nixpkgs#"@ + s[i as int]);
            assert(s.take(i + 1).map_values(g) == s.take(i as int).map_values(g).push(item@));
            assert(views(out@.push(item)) == views(out@).push(item@));
        }
        out.push(item);
    }
    assert(s.take(names@.len() as int) == s);
    out
}

/// The first `n` of `names`.
fn first_names(names: &Vec<String>, n: usize) -> (r: Vec<String>)
    requires
        n <= names@.len(),
    ensures
        views(r@) == views(names@).take(n as int),
{
    let mut out: Vec<String> = Vec::new();
    for i in 0..n
        invariant
            n <= names@.len(),
            views(out@) == views(names@).take(i as int),
    {
        let copy = names[i].clone();
        proof {
            assert(views(out@.push(copy)) == views(out@).push(copy@));
            assert(views(names@).take(i + 1) == views(names@).take(i as int).push(copy@));
        }
        out.push(copy);
    }
    out
}

/// The step that changes the managed lists.
fn apply(request: Request, lists: Lists, names: Vec<String>, out: Vec<Output>) -> (r: Step)
    ensures
        r@ == said(all(out@), apply_step(request@, lists@, views(names@))),
{
    let mut out = out;
    let ghost start = all(out@);
    let ghost want = said(start, apply_step(request@, lists@, views(names@)));
    tell_each(&mut out, &names, "[spin] Queued '", "' for installation.");
    let grown = if request.font {
        add_names(&lists.fonts, &names)
    } else {
        add_names(&lists.packages, &names)
    };
    let (left, k) = remove_names(&grown, &request.remove);
    proof {
        law_removable(views(grown@), views(request.remove@));
    }
    let gone = first_names(&request.remove, k);
    tell_each(&mut out, &gone, "[spin] Queued '", "' for removal.");
    if k < request.remove.len() {
        let small = if request.font {
            "font"
        } else {
            "package"
        };
        let mut line = glued("[spin] Error: ", small, " '");
        line.append(request.remove[k].as_str());
        line.append("' is not managed by spin (not in ");
        line.append(PACKAGES_FILE);
        line.append(").");
        tell(&mut out, Output::Error(line));
        let r = ended(out, false);
        assert(r@ =~= want);
        r
    } else if names.len() > 0 || request.remove.len() > 0 {
        assert(views(request.remove@).take(k as int) == views(request.remove@));
        let content = if request.font {
            write_conf(&lists.packages, &left)
        } else {
            write_conf(&left, &lists.fonts)
        };
        let r = Step {
            output: out,
            effect: Effect::WritePackages { content },
            state: State::Writing {
                request,
                change: Change { before: lists, added: names, removed: gone },
            },
        };
        assert(r@ =~= want);
        r
    } else {
        let r = rebuild(request, None, out);
        assert(r@ =~= want);
        r
    }
}

/// The step that follows once it is known which of `names` are missing.
fn judge(request: Request, names: Vec<String>, gone: Vec<String>, goal: Goal, out: Vec<Output>) -> (r:
    Step)
    ensures
        r@ == said(all(out@), judge_step(request@, views(names@), views(gone@), goal@)),
{
    let mut out = out;
    let ghost start = all(out@);
    let ghost want = said(start, judge_step(request@, views(names@), views(gone@), goal@));
    if gone.len() > 0 {
        let r = Step {
            output: out,
            effect: Effect::NixOutput { args: attr_names_query() },
            state: State::Suggesting { missing: gone },
        };
        assert(r@ =~= want);
        r
    } else {
        match goal {
            Goal::Shell => {
                let list = joined(&request.install, ", ");
                let line = glued("[spin] Opening temporary shell with ", list.as_str(), "...");
                tell(&mut out, Output::Line(line));
                let args = with_installables(two("shell", "--impure"), &request.install);
                let r = Step {
                    output: out,
                    effect: Effect::Nix { args },
                    state: State::Shelling,
                };
                assert(r@ =~= want);
                r
            },
            Goal::Profile => {
                let list = joined(&request.install, ", ");
                let line = glued("[spin] Installing ", list.as_str(), " to user profile...");
                tell(&mut out, Output::Line(line));
                let args = with_installables(
                    three("profile", "install", "--impure"),
                    &request.install,
                );
                let r = Step {
                    output: out,
                    effect: Effect::NixStreaming { args },
                    state: State::Installing { request },
                };
                assert(r@ =~= want);
                r
            },
            Goal::System(lists) => apply(request, lists, names, out),
        }
    }
}

/// The step that checks `names`.
fn validate(request: Request, names: Vec<String>, goal: Goal, out: Vec<Output>) -> (r: Step)
    ensures
        r@ == said(all(out@), validate_step(request@, views(names@), goal@)),
{
    let known = checkable_names(&names);
    if known.len() > 0 {
        let r = Step {
            output: out,
            effect: Effect::NixOutput { args: existence_query(&known) },
            state: State::Checking { request, names, goal },
        };
        assert(r@.output =~= all(out@) + Seq::<OutputView>::empty());
        r
    } else {
        let gone = validate_packages(&names, &None);
        judge(request, names, gone, goal, out)
    }
}

/// The names in `names` that `list` holds.
fn held_names(list: &Vec<String>, names: &Vec<String>) -> (r: Vec<String>)
    ensures
        views(r@) == views(names@).filter(|n: Seq<char>| views(list@).contains(n)),
{
    let mut out: Vec<String> = Vec::new();
    let ghost s = views(names@);
    let ghost f = |n: Seq<char>| views(list@).contains(n);
    assert(s.take(0).filter(f) == Seq::<Seq<char>>::empty()) by {
        reveal(Seq::filter);
    }
    for i in 0..names.len()
        invariant
            s == views(names@),
            f == (|n: Seq<char>| views(list@).contains(n)),
            views(out@) == s.take(i as int).filter(f),
    {
        proof {
            assert(s.take(i + 1) == s.take(i as int).push(s[i as int]));
            s.take(i as int).lemma_filter_push(s[i as int], f);
        }
        if holds(list, &names[i]) {
            let copy = names[i].clone();
            assert(views(out@.push(copy)) == views(out@).push(copy@));
            out.push(copy);
        }
    }
    assert(s.take(names@.len() as int) == s);
    out
}

/// The step that follows once the managed lists are known.
fn prepare(request: Request, lists: Lists) -> (r: Step)
    ensures
        r@ == prepare_step(request@, lists@),
{
    let mut out: Vec<Output> = Vec::new();
    let label = glued("[spin] ", kind_of(&request), " '");
    let held = if request.font {
        held_names(&lists.fonts, &request.install)
    } else {
        held_names(&lists.packages, &request.install)
    };
    let names = if request.font {
        fresh_names(&lists.fonts, &request.install)
    } else {
        fresh_names(&lists.packages, &request.install)
    };
    tell_each(&mut out, &held, label.as_str(), "' is already installed.");
    assert(all(out@) =~= line_each(views(held@), label@, "' is already installed."@));
    if names.len() > 0 {
        validate(request, names, Goal::System(lists), out)
    } else {
        apply(request, lists, names, out)
    }
}

/// The step that follows once the channels are up to date.
fn dispatch(request: Request) -> (r: Step)
    ensures
        r@ == dispatch_step(request@),
{
    let ghost want = dispatch_step(request@);
    let mut out: Vec<Output> = Vec::new();
    assert(all(out@) =~= Seq::<OutputView>::empty());
    if request.search.len() > 0 {
        let list = joined(&request.search, ", ");
        let line = glued("[spin] Searching nixpkgs for ", list.as_str(), "... ");
        tell(&mut out, Output::Part(line));
        let mut args = three("search", "--no-update-lock-file", "--json");
        let pattern = joined(&request.search, "|");
        let mut tail = two("nixpkgs", pattern.as_str());
        assert(views(args@ + tail@) == views(args@) + views(tail@));
        args.append(&mut tail);
        assert(views(args@) =~= search_args(request@.search));
        let r = Step {
            output: out,
            effect: Effect::NixOutput { args },
            state: State::Searching { request },
        };
        assert(r@ =~= want);
        r
    } else if request.clean {
        tell(&mut out, Output::Line("[spin] Deleting old generations...".to_string()));
        let args = if request.all {
            one("--delete-old")
        } else {
            two("--delete-older-than", "7d")
        };
        let r = Step {
            output: out,
            effect: Effect::PrivilegedStreaming { program: "nix-collect-garbage".to_string(), args },
            state: State::Collecting,
        };
        assert(r@ =~= want);
        r
    } else if request.temp {
        let names = copied(&request.install);
        let r = validate(request, names, Goal::Shell, out);
        assert(r@ =~= want);
        r
    } else if request.profile && request.install.len() > 0 {
        let names = copied(&request.install);
        let r = validate(request, names, Goal::Profile, out);
        assert(r@ =~= want);
        r
    } else if request.profile {
        let r = unlist(request, 0, out);
        assert(r@ =~= want);
        r
    } else {
        let r = system(request, out);
        assert(r@ =~= want);
        r
    }
}

/// The first step of a session.
pub fn begin(request: Request) -> (r: Step)
    ensures
        r@ == begin_step(request@),
{
    if request.sync {
        let mut out: Vec<Output> = Vec::new();
        tell(
            &mut out,
            Output::Line("[spin] Syncing package list (updating Nix channels)...".to_string()),
        );
        let r = Step {
            output: out,
            effect: Effect::Privileged {
                program: "nix-channel".to_string(),
                args: one("--update"),
            },
            state: State::Syncing { request },
        };
        assert(r@ =~= begin_step(request@));
        r
    } else {
        dispatch(request)
    }
}

/// The step that asks for the text of the system configuration.
fn ask_config(request: Request, out: Vec<Output>) -> (r: Step)
    ensures
        r@ == (StepView {
            output: all(out@),
            effect: EffectView::ReadConfig,
            state: StateView::Importing { request: request@ },
        }),
{
    Step { output: out, effect: Effect::ReadConfig, state: State::Importing { request } }
}

/// The step that follows when what the profile holds has come.
fn listed(request: Request, at: usize, listing: Option<String>) -> (r: Step)
    requires
        at < request.remove@.len(),
    ensures
        r@ == listed_step(request@, at as nat, opt_view(listing)),
{
    let ghost want = listed_step(request@, at as nat, opt_view(listing));
    let name = request.remove[at].clone();
    match listing {
        Some(text) => match profile_index(text.as_str(), name.as_str()) {
            Some(index) => {
                let mut line = glued("[spin] Removing '", name.as_str(), "' (profile index ");
                line.append(index.as_str());
                line.append(") from user profile...");
                let mut out: Vec<Output> = Vec::new();
                tell(&mut out, Output::Line(line));
                let r = Step {
                    output: out,
                    effect: Effect::Nix { args: three("profile", "remove", index.as_str()) },
                    state: State::Unlisting { request, at },
                };
                assert(r@ =~= want);
                r
            },
            None => {
                let error = glued(
                    "Package '",
                    name.as_str(),
                    "' not found in user profile.\nRun 'nix profile list' to see what is installed.",
                );
                failed(error.as_str())
            },
        },
        None => failed("Failed to list profile"),
    }
}

/// The step that follows when the name at `at` has been removed from the profile, or not.
fn unlisted(request: Request, at: usize, ok: bool) -> (r: Step)
    requires
        at < request.remove@.len(),
    ensures
        r@ == unlisted_step(request@, at as nat, ok),
{
    let name = request.remove[at].clone();
    if ok {
        let line = glued("[spin] Package '", name.as_str(), "' removed from user profile.");
        let mut out: Vec<Output> = Vec::new();
        tell(&mut out, Output::Line(line));
        assert(all(out@) =~= seq![OutputView::Line(line@)]);
        assert(at < request.remove.len());
        unlist(request, at + 1, out)
    } else {
        let error = glued("Failed to remove '", name.as_str(), "' from profile.");
        failed(error.as_str())
    }
}

/// The step that follows when a rebuild has ended.
fn rebuilt(request: Request, written: Option<Change>, ok: bool) -> (r: Step)
    ensures
        r@ == rebuilt_step(request@, change_view(written), ok),
{
    let ghost want = rebuilt_step(request@, change_view(written), ok);
    let out: Vec<Output> = Vec::new();
    assert(all(out@) =~= Seq::<OutputView>::empty());
    if ok {
        let r = conclude(request, written, out);
        assert(r@ =~= want);
        r
    } else {
        match written {
            Some(c) => {
                let content = write_conf(&c.before.packages, &c.before.fonts);
                Step {
                    output: out,
                    effect: Effect::WritePackages { content },
                    state: State::Restoring,
                }
            },
            None => failed("nixos-rebuild failed — changes rolled back."),
        }
    }
}

/// `lines` as lines of standard output or of standard error, behind `out`.
fn tell_all(out: &mut Vec<Output>, lines: Vec<String>, error: bool)
    ensures
        all(final(out)@) == all(old(out)@) + views(lines@).map_values(
            |l: Seq<char>|
                if error {
                    OutputView::Error(l)
                } else {
                    OutputView::Line(l)
                },
        ),
{
    let ghost start = all(out@);
    let ghost s = views(lines@);
    let ghost g = |l: Seq<char>|
        if error {
            OutputView::Error(l)
        } else {
            OutputView::Line(l)
        };
    assert(start + s.take(0).map_values(g) == start);
    for i in 0..lines.len()
        invariant
            s == views(lines@),
            g == (|l: Seq<char>|
                if error {
                    OutputView::Error(l)
                } else {
                    OutputView::Line(l)
                }),
            all(out@) == start + s.take(i as int).map_values(g),
    {
        let line = lines[i].clone();
        let o = if error {
            Output::Error(line)
        } else {
            Output::Line(line)
        };
        assert(s.take(i + 1).map_values(g) == s.take(i as int).map_values(g).push(o@));
        tell(out, o);
    }
    assert(s.take(lines@.len() as int) == s);
}

/// The step that follows when `event` comes to a session in `state`.
pub fn advance(state: State, event: Event) -> (r: Step)
    requires
        fits(state@, event@),
    ensures
        r@ == next_step(state@, event@),
{
    let ghost want = next_step(state@, event@);
    let mut out: Vec<Output> = Vec::new();
    assert(all(out@) =~= Seq::<OutputView>::empty());
    match (state, event) {
        (State::Syncing { request }, Event::Done(ok)) => if ok {
            dispatch(request)
        } else {
            ended(out, false)
        },
        (State::Searching { request }, Event::Found(packages)) => {
            tell(&mut out, Output::Line("".to_string()));
            let lines = cmd_search(&request.search, &packages);
            tell_all(&mut out, lines, false);
            let r = ended(out, true);
            assert(r@ =~= want);
            r
        },
        (State::Collecting, Event::Done(ok)) => if ok {
            tell(&mut out, Output::Line("[spin] Updating bootloader...".to_string()));
            let r = Step {
                output: out,
                effect: Effect::PrivilegedStreaming {
                    program: "nixos-rebuild".to_string(),
                    args: one("boot"),
                },
                state: State::Booting,
            };
            assert(r@ =~= want);
            r
        } else {
            ended(out, false)
        },
        (State::Booting, Event::Done(ok)) => ended(out, ok),
        (State::Checking { request, names, goal }, Event::Existence(flags)) => {
            if flags.is_none() {
                tell(
                    &mut out,
                    Output::Error(
                        "[spin] Warning: could not reach nixpkgs to validate names — skipping check.".to_string(),
                    ),
                );
            }
            let gone = validate_packages(&names, &flags);
            let r = judge(request, names, gone, goal, out);
            assert(r@ =~= want);
            r
        },
        (State::Suggesting { missing }, Event::Suggested(lists)) => {
            let lines = report_missing(&missing, &lists);
            tell_all(&mut out, lines, true);
            let r = ended(out, false);
            assert(r@ =~= want);
            r
        },
        (State::Shelling, Event::Done(ok)) => ended(out, ok),
        (State::Installing { request }, Event::Done(ok)) => if ok {
            let r = unlist(request, 0, out);
            assert(r@ =~= want);
            r
        } else {
            ended(out, false)
        },
        (State::Listing { request, at }, Event::Listing(listing)) => listed(request, at, listing),
        (State::Unlisting { request, at }, Event::Done(ok)) => unlisted(request, at, ok),
        (State::Locating { request }, Event::Exists(there)) => if there {
            ask_config(request, out)
        } else {
            let none: Vec<String> = Vec::new();
            assert(views(none@) =~= Seq::<Seq<char>>::empty());
            let content = write_conf(&none, &none);
            Step {
                output: out,
                effect: Effect::WritePackages { content },
                state: State::Creating { request },
            }
        },
        (State::Creating { request }, Event::Wrote(result)) => match result {
            Ok(_) => {
                let mut line = String::new();
                line.append("[spin] Created ");
                line.append(PACKAGES_FILE);
                assert(line@ == "[spin] Created "@ + PACKAGES_FILE@);
                tell(&mut out, Output::Line(line));
                let r = ask_config(request, out);
                assert(r@ =~= want);
                r
            },
            Err(error) => failed(error.as_str()),
        },
        (State::Importing { request }, Event::Config(config)) => match check_config_imports(
            &config,
        ) {
            Some(advice) => {
                tell(&mut out, Output::Error(advice));
                let r = ended(out, false);
                assert(r@ =~= want);
                r
            },
            None => Step {
                output: out,
                effect: Effect::FindPackages,
                state: State::Finding { request },
            },
        },
        (State::Finding { request }, Event::Exists(there)) => if there {
            Step { output: out, effect: Effect::ReadPackages, state: State::Reading { request } }
        } else {
            let lists = Lists { packages: Vec::new(), fonts: Vec::new() };
            assert(lists@.packages =~= Seq::<Seq<char>>::empty());
            assert(lists@.fonts =~= Seq::<Seq<char>>::empty());
            prepare(request, lists)
        },
        (State::Reading { request }, Event::Read(result)) => match result {
            Ok(text) => {
                let (packages, fonts) = read_conf(Some(text.as_str()));
                prepare(request, Lists { packages, fonts })
            },
            Err(reason) => {
                let mut error = glued("Cannot read ", PACKAGES_FILE, ": ");
                error.append(reason.as_str());
                failed(error.as_str())
            },
        },
        (State::Writing { request, change }, Event::Wrote(result)) => match result {
            Ok(_) => {
                let r = rebuild(request, Some(change), out);
                assert(r@ =~= want);
                r
            },
            Err(error) => failed(error.as_str()),
        },
        (State::Rebuilding { request, written }, Event::Done(ok)) => rebuilt(request, written, ok),
        (State::Restoring, Event::Wrote(_)) => failed(
            "nixos-rebuild failed — changes rolled back.",
        ),
        _ => ended(out, false),
    }
}

} // verus!
