//! What a session does, case by case: what was asked for, what came of the last step, and
//! what follows.

use crate::conf::{conf_text, import_advice, imported};
use crate::plan::{extended, fresh, law_changed_list, law_removable, removable, without};
use crate::profile::index_in;
use crate::request::{
    ChangeView, EffectView, EventView, GoalView, ListsView, OutputView, RequestView, StateView,
    StepView,
};
use crate::search::{search_report, PackageView};
use crate::session::{apply_step, changed, fits, judge_step, line_each, lists_in, next_step};
use crate::session_laws::{can_run, law_request_is_kept, run};
use crate::suggest::attr_name;
use crate::text::{before, join};
use crate::validate::{
    answers, attr_names_expr, checkable, eval_args, existence_expr, malformed, missing,
    missing_report,
};
use vstd::prelude::*;

verus! {

/// What comes before the first step that is not about the channels: where they are to be
/// updated, that this went well.
pub open spec fn started(request: RequestView) -> Seq<EventView> {
    if request.sync {
        seq![EventView::Done(true)]
    } else {
        seq![]
    }
}

/// One line for each of `names`.
pub open spec fn lines_for(
    names: Seq<Seq<char>>,
    front: Seq<char>,
    end: Seq<char>,
) -> Seq<OutputView> {
    Seq::new(names.len(), |i: int| OutputView::Line(front + names[i] + end))
}

proof fn lemma_lines_for(names: Seq<Seq<char>>, front: Seq<char>, end: Seq<char>)
    ensures
        line_each(names, front, end) == lines_for(names, front, end),
{
}

/// One more event takes a session from where it is to the step that follows.
pub proof fn law_next(request: RequestView, events: Seq<EventView>, event: EventView)
    ensures
        run(request, events.push(event)) == next_step(run(request, events).state, event),
        can_run(request, events.push(event)) <==> can_run(request, events) && fits(
            run(request, events).state,
            event,
        ),
{
    assert(events.push(event).drop_last() == events);
}

proof fn lemma_started(request: RequestView)
    ensures
        can_run(request, started(request)),
        run(request, started(request)) == crate::session::dispatch_step(request),
{
    let none = Seq::<EventView>::empty();
    if request.sync {
        law_next(request, none, EventView::Done(true));
        assert(none.push(EventView::Done(true)) == started(request));
    } else {
        assert(started(request) == none);
    }
}

/// Channels are updated before anything else, where that is asked for; where it fails the
/// program ends with nothing more to say.
pub proof fn law_sync_session(request: RequestView)
    requires
        request.sync,
    ensures
        run(request, seq![]) == (StepView {
            output: seq![
                OutputView::Line("[spin] Syncing package list (updating Nix channels)..."@),
            ],
            effect: EffectView::Privileged { program: "nix-channel"@, args: seq!["--update"@] },
            state: StateView::Syncing { request },
        }),
        run(request, seq![EventView::Done(false)]) == (StepView {
            output: seq![],
            effect: EffectView::Exit { success: false },
            state: StateView::Finished,
        }),
{
    let none = Seq::<EventView>::empty();
    law_next(request, none, EventView::Done(false));
    assert(none.push(EventView::Done(false)) == seq![EventView::Done(false)]);
}

/// A search asks `nix` once for all the names, and prints what is reported of what was
/// found; it ends with success.
pub proof fn law_search_session(request: RequestView, packages: Seq<PackageView>)
    requires
        request.search.len() > 0,
    ensures
        run(request, started(request)) == (StepView {
            output: seq![
                OutputView::Part(
                    "[spin] Searching nixpkgs for "@ + join(request.search, ", "@) + "... "@,
                ),
            ],
            effect: EffectView::NixOutput {
                args: seq![
                    "search"@,
                    "--no-update-lock-file"@,
                    "--json"@,
                    "nixpkgs"@,
                    join(request.search, "|"@),
                ],
            },
            state: StateView::Searching { request },
        }),
        can_run(request, started(request).push(EventView::Found(packages))),
        ({
            let step = run(request, started(request).push(EventView::Found(packages)));
            let report = search_report(request.search, packages);
            &&& step.effect == EffectView::Exit { success: true }
            &&& step.state is Finished
            &&& step.output == seq![OutputView::Line(""@)] + Seq::new(
                report.len(),
                |i: int| OutputView::Line(report[i]),
            )
        }),
{
    lemma_started(request);
    law_next(request, started(request), EventView::Found(packages));
}

/// A cleaning deletes the old generations, all of them exactly where that is asked for and
/// else those older than seven days, whatever the other flags; then it updates the
/// bootloader. Where one of the two fails, the program ends without success.
pub proof fn law_clean_session(request: RequestView, ok: bool)
    requires
        request.search.len() == 0,
        request.clean,
    ensures
        run(request, started(request)) == (StepView {
            output: seq![OutputView::Line("[spin] Deleting old generations..."@)],
            effect: EffectView::PrivilegedStreaming {
                program: "nix-collect-garbage"@,
                args: if request.all {
                    seq!["--delete-old"@]
                } else {
                    seq!["--delete-older-than"@, "7d"@]
                },
            },
            state: StateView::Collecting,
        }),
        run(request, started(request).push(EventView::Done(false))) == (StepView {
            output: seq![],
            effect: EffectView::Exit { success: false },
            state: StateView::Finished,
        }),
        run(request, started(request).push(EventView::Done(true))) == (StepView {
            output: seq![OutputView::Line("[spin] Updating bootloader..."@)],
            effect: EffectView::PrivilegedStreaming {
                program: "nixos-rebuild"@,
                args: seq!["boot"@],
            },
            state: StateView::Booting,
        }),
        run(request, started(request).push(EventView::Done(true)).push(EventView::Done(ok))) == (
        StepView {
            output: seq![],
            effect: EffectView::Exit { success: ok },
            state: StateView::Finished,
        }),
{
    lemma_started(request);
    law_next(request, started(request), EventView::Done(false));
    law_next(request, started(request), EventView::Done(true));
    law_next(request, started(request).push(EventView::Done(true)), EventView::Done(ok));
}

/// Whether any of `names` could be an attribute path.
pub open spec fn any_checkable(names: Seq<Seq<char>>) -> bool {
    exists|i: int| 0 <= i < names.len() && #[trigger] attr_name(names[i])
}

proof fn lemma_any_checkable(names: Seq<Seq<char>>)
    ensures
        any_checkable(names) <==> checkable(names).len() > 0,
        !any_checkable(names) ==> malformed(names) == names,
{
    let f = |n: Seq<char>| attr_name(n);
    let g = |n: Seq<char>| !attr_name(n);
    if any_checkable(names) {
        let i = choose|i: int| 0 <= i < names.len() && #[trigger] attr_name(names[i]);
        names.lemma_filter_contains(f, i);
        assert(names.filter(f).contains(names[i]));
    } else {
        assert forall|i: int| 0 <= i < names.len() implies g(#[trigger] names[i]) by {
            assert(!attr_name(names[i]));
        }
        crate::order::lemma_filter_keeps(names, g);
        if names.filter(f).len() > 0 {
            names.lemma_filter_pred(f, 0);
            names.lemma_filter_contains_rev(f, names.filter(f)[0]);
            let k = choose|k: int| 0 <= k < names.len() && names[k] == names.filter(f)[0];
            assert(attr_name(names[k]));
        }
    }
}

/// The step that asks nixpkgs about `names`: about those that could be attribute paths,
/// with one question; where there is none among them, for names to suggest instead.
pub open spec fn is_question(
    step: StepView,
    request: RequestView,
    names: Seq<Seq<char>>,
    goal: GoalView,
    told: Seq<OutputView>,
) -> bool {
    step == if any_checkable(names) {
        StepView {
            output: told,
            effect: EffectView::NixOutput {
                args: eval_args(existence_expr(names.filter(|n: Seq<char>| attr_name(n)))),
            },
            state: StateView::Checking { request, names, goal },
        }
    } else {
        StepView {
            output: told,
            effect: EffectView::NixOutput { args: eval_args(attr_names_expr()) },
            state: StateView::Suggesting { missing: names },
        }
    }
}

/// A temporary shell is for all the names of the request, after they were checked; nothing
/// is checked where there are none.
pub proof fn law_shell_session(request: RequestView, ok: bool)
    requires
        request.search.len() == 0,
        !request.clean,
        request.temp,
    ensures
        request.install.len() > 0 ==> is_question(
            run(request, started(request)),
            request,
            request.install,
            GoalView::Shell,
            seq![],
        ),
        request.install.len() == 0 ==> run(request, started(request)) == (StepView {
            output: seq![OutputView::Line("[spin] Opening temporary shell with "@ + "..."@)],
            effect: EffectView::Nix { args: seq!["shell"@, "--impure"@] },
            state: StateView::Shelling,
        }),
{
    lemma_started(request);
    lemma_any_checkable(request.install);
    if request.install.len() == 0 {
        assert(join(request.install, ", "@) == Seq::<char>::empty());
        assert("[spin] Opening temporary shell with "@ + Seq::<char>::empty() + "..."@
            == "[spin] Opening temporary shell with "@ + "..."@);
        assert(malformed(request.install) == Seq::<Seq<char>>::empty()) by {
            reveal(Seq::filter);
        }
        let step = run(request, started(request));
        assert(step.effect->Nix_args == seq!["shell"@, "--impure"@]);
    } else {
        assert(run(request, started(request)).output == Seq::<OutputView>::empty());
    }
}

/// For the user's profile the names to install are checked first; without any, the names to
/// remove are looked for one after another, beginning with the first.
pub proof fn law_profile_session(request: RequestView)
    requires
        request.search.len() == 0,
        !request.clean,
        !request.temp,
        request.profile,
    ensures
        request.install.len() > 0 ==> is_question(
            run(request, started(request)),
            request,
            request.install,
            GoalView::Profile,
            seq![],
        ),
        request.install.len() == 0 && request.remove.len() > 0 ==> run(request, started(request))
            == (StepView {
            output: seq![],
            effect: EffectView::NixOutput { args: seq!["profile"@, "list"@] },
            state: StateView::Listing { request, at: 0 },
        }),
{
    lemma_started(request);
    lemma_any_checkable(request.install);
}

/// For the system, with names to install or to remove, it is first found out whether
/// `packages.conf` is there. Without names the system is rebuilt where an upgrade is asked
/// for, and else there is nothing to do.
pub proof fn law_system_session(request: RequestView)
    requires
        request.search.len() == 0,
        !request.clean,
        !request.temp,
        !request.profile || request.install.len() == 0 && request.remove.len() == 0,
    ensures
        request.install.len() > 0 || request.remove.len() > 0 ==> run(request, started(request))
            == (StepView {
            output: seq![],
            effect: EffectView::FindPackages,
            state: StateView::Locating { request },
        }),
        request.install.len() == 0 && request.remove.len() == 0 && request.upgrade ==> run(
            request,
            started(request),
        ) == (StepView {
            output: seq![],
            effect: EffectView::PrivilegedStreaming {
                program: "nixos-rebuild"@,
                args: seq!["switch"@, "--upgrade"@],
            },
            state: StateView::Rebuilding { request, written: None },
        }),
        request.install.len() == 0 && request.remove.len() == 0 && !request.upgrade ==> run(
            request,
            started(request),
        ) == (StepView {
            output: seq![],
            effect: EffectView::Exit { success: true },
            state: StateView::Finished,
        }),
{
    lemma_started(request);
}

/// Where the file is not there it is created with two empty lists; then the system
/// configuration is read, and where it does not import the file the program ends with the
/// advice to do so. A configuration that cannot be read is no obstacle.
pub proof fn law_file_is_ensured(
    request: RequestView,
    events: Seq<EventView>,
    there: bool,
    error: Seq<char>,
    config: Option<Seq<char>>,
)
    requires
        can_run(request, events),
    ensures
        run(request, events).state == (StateView::Locating { request }) ==> {
            let step = run(request, events.push(EventView::Exists(there)));
            &&& step.output == Seq::<OutputView>::empty()
            &&& there ==> step.effect is ReadConfig && step.state == StateView::Importing { request }
            &&& !there ==> step.effect == (EffectView::WritePackages {
                content: conf_text(Seq::empty(), Seq::empty()),
            }) && step.state == StateView::Creating { request }
        },
        run(request, events).state == (StateView::Creating { request }) ==> {
            &&& run(request, events.push(EventView::Wrote(Ok(())))) == (StepView {
                output: seq![OutputView::Line("[spin] Created "@ + "/etc/nixos/packages.conf"@)],
                effect: EffectView::ReadConfig,
                state: StateView::Importing { request },
            })
            &&& run(request, events.push(EventView::Wrote(Err(error)))) == (StepView {
                output: seq![OutputView::Error("[spin] Error: "@ + error)],
                effect: EffectView::Exit { success: false },
                state: StateView::Finished,
            })
        },
        run(request, events).state == (StateView::Importing { request }) ==> run(
            request,
            events.push(EventView::Config(config)),
        ) == if config is Some && !imported(config->0) {
            StepView {
                output: seq![OutputView::Error(import_advice())],
                effect: EffectView::Exit { success: false },
                state: StateView::Finished,
            }
        } else {
            StepView {
                output: seq![],
                effect: EffectView::FindPackages,
                state: StateView::Finding { request },
            }
        },
        run(request, events).state == (StateView::Finding { request }) ==> run(
            request,
            events.push(EventView::Exists(true)),
        ) == (StepView {
            output: seq![],
            effect: EffectView::ReadPackages,
            state: StateView::Reading { request },
        }),
        run(request, events).state == (StateView::Reading { request }) ==> run(
            request,
            events.push(EventView::Read(Err(error))),
        ) == (StepView {
            output: seq![
                OutputView::Error(
                    "[spin] Error: "@ + ("Cannot read "@ + "/etc/nixos/packages.conf"@ + ": "@
                        + error),
                ),
            ],
            effect: EffectView::Exit { success: false },
            state: StateView::Finished,
        }),
{
    law_next(request, events, EventView::Exists(there));
    law_next(request, events, EventView::Exists(true));
    law_next(request, events, EventView::Wrote(Ok(())));
    law_next(request, events, EventView::Wrote(Err(error)));
    law_next(request, events, EventView::Config(config));
    law_next(request, events, EventView::Read(Err(error)));
}

/// The list of `lists` that the request is about.
pub open spec fn list_of(request: RequestView, lists: ListsView) -> Seq<Seq<char>> {
    if request.font {
        lists.fonts
    } else {
        lists.packages
    }
}

/// The place of the first name to remove that cannot be: neither the list nor the names to
/// add hold it, or it was asked for before.
pub open spec fn is_first_unmanaged(
    request: RequestView,
    lists: ListsView,
    names: Seq<Seq<char>>,
    k: int,
) -> bool {
    &&& 0 <= k < request.remove.len()
    &&& !can_go(request, lists, names, k)
    &&& forall|i: int| 0 <= i < k ==> #[trigger] can_go(request, lists, names, i)
}

/// Whether the name at `k` among those to remove is there to be removed.
pub open spec fn can_go(
    request: RequestView,
    lists: ListsView,
    names: Seq<Seq<char>>,
    k: int,
) -> bool {
    let name = request.remove[k];
    (list_of(request, lists).contains(name) || names.contains(name)) && !request.remove.take(
        k,
    ).contains(name)
}

/// What the lists `now` have to be after `names` were added to `lists` and the names to
/// remove were taken out: the list that the request is not about is as it was; the other is
/// in order and has each name as often as before and among `names` together, and the names
/// to remove not at all.
pub open spec fn is_outcome(
    now: ListsView,
    request: RequestView,
    lists: ListsView,
    names: Seq<Seq<char>>,
) -> bool {
    let list = list_of(request, now);
    &&& request.font ==> now.packages == lists.packages
    &&& !request.font ==> now.fonts == lists.fonts
    &&& forall|i: int, j: int|
        0 <= i < j < list.len() ==> !before(#[trigger] list[j], #[trigger] list[i])
    &&& forall|n: Seq<char>|
        #[trigger] list.to_multiset().count(n) == if request.remove.contains(n) {
            0
        } else {
            list_of(request, lists).to_multiset().count(n) + names.to_multiset().count(n)
        }
}

/// What the step has to be that carries out the change: `names` are added and the names to
/// remove taken out, in one write; a name that cannot be removed ends the program and
/// nothing is written; where there is no change at all, the system is rebuilt only for an
/// upgrade.
pub open spec fn carries_out(
    step: StepView,
    request: RequestView,
    lists: ListsView,
    names: Seq<Seq<char>>,
    told: Seq<OutputView>,
) -> bool {
    let queued = told + lines_for(names, "[spin] Queued '"@, "' for installation."@);
    &&& forall|k: int|
        #[trigger] is_first_unmanaged(request, lists, names, k) ==> {
            &&& step.effect == EffectView::Exit { success: false }
            &&& step.state is Finished
            &&& step.output == queued + lines_for(
                request.remove.take(k),
                "[spin] Queued '"@,
                "' for removal."@,
            ) + seq![
                OutputView::Error(
                    "[spin] Error: "@ + (if request.font {
                        "font"@
                    } else {
                        "package"@
                    }) + " '"@ + request.remove[k] + "' is not managed by spin (not in "@
                        + "/etc/nixos/packages.conf"@ + ")."@,
                ),
            ]
        }
    &&& (forall|i: int| 0 <= i < request.remove.len() ==> #[trigger] can_go(request, lists, names, i))
        && (names.len() > 0 || request.remove.len() > 0) ==> {
        &&& step.output == queued + lines_for(
            request.remove,
            "[spin] Queued '"@,
            "' for removal."@,
        )
        &&& step.state == (StateView::Writing {
            request,
            change: ChangeView { before: lists, added: names, removed: request.remove },
        })
        &&& exists|now: ListsView| #[trigger]
            is_outcome(now, request, lists, names) && step.effect == (EffectView::WritePackages {
                content: conf_text(now.packages, now.fonts),
            })
    }
    &&& names.len() == 0 && request.remove.len() == 0 && request.upgrade ==> step == (StepView {
        output: told,
        effect: EffectView::PrivilegedStreaming {
            program: "nixos-rebuild"@,
            args: seq!["switch"@, "--upgrade"@],
        },
        state: StateView::Rebuilding { request, written: None },
    })
    &&& names.len() == 0 && request.remove.len() == 0 && !request.upgrade ==> step == (StepView {
        output: told,
        effect: EffectView::Exit { success: true },
        state: StateView::Finished,
    })
}

proof fn lemma_outcome(request: RequestView, lists: ListsView, names: Seq<Seq<char>>)
    ensures
        is_outcome(changed(request, lists, names), request, lists, names),
{
    let now = changed(request, lists, names);
    let list = list_of(request, now);
    let was = list_of(request, lists);
    assert(list == without(extended(was, names), request.remove));
    law_changed_list(was, names, request.remove, Seq::empty());
    assert forall|n: Seq<char>|
        #[trigger] list.to_multiset().count(n) == if request.remove.contains(n) {
            0
        } else {
            was.to_multiset().count(n) + names.to_multiset().count(n)
        } by {
        law_changed_list(was, names, request.remove, n);
    }
}

proof fn lemma_removable(
    request: RequestView,
    lists: ListsView,
    names: Seq<Seq<char>>,
)
    ensures
        ({
            let k = removable(extended(list_of(request, lists), names), request.remove) as int;
            &&& k <= request.remove.len()
            &&& k < request.remove.len() <==> is_first_unmanaged(request, lists, names, k)
            &&& k == request.remove.len() <==> forall|i: int|
                0 <= i < request.remove.len() ==> #[trigger] can_go(request, lists, names, i)
            &&& forall|j: int| #[trigger] is_first_unmanaged(request, lists, names, j) ==> j == k
        }),
{
    let grown = extended(list_of(request, lists), names);
    let k = removable(grown, request.remove) as int;
    law_removable(grown, request.remove);
    crate::plan::law_extended(list_of(request, lists), names);
    assert forall|i: int| 0 <= i < k implies #[trigger] can_go(request, lists, names, i) by {
        let n = request.remove[i];
        assert(grown.contains(n) && !request.remove.take(i).contains(n));
    }
    if k < request.remove.len() {
        let n = request.remove[k];
        assert(grown.contains(n) <==> list_of(request, lists).contains(n) || names.contains(n));
        assert(!can_go(request, lists, names, k));
        assert(is_first_unmanaged(request, lists, names, k));
    }
    assert forall|j: int| #[trigger] is_first_unmanaged(request, lists, names, j) implies j == k by {
        if j < k {
            assert(can_go(request, lists, names, j));
        } else if k < j {
            assert(can_go(request, lists, names, k));
        }
    }
}

proof fn lemma_apply_carries_out(
    request: RequestView,
    lists: ListsView,
    names: Seq<Seq<char>>,
    told: Seq<OutputView>,
)
    ensures
        carries_out(
            crate::session::said(told, apply_step(request, lists, names)),
            request,
            lists,
            names,
            told,
        ),
{
    let step = crate::session::said(told, apply_step(request, lists, names));
    let now = changed(request, lists, names);
    let k = removable(extended(list_of(request, lists), names), request.remove) as int;
    lemma_outcome(request, lists, names);
    lemma_removable(request, lists, names);
    let a = lines_for(names, "[spin] Queued '"@, "' for installation."@);
    let b = lines_for(request.remove.take(k), "[spin] Queued '"@, "' for removal."@);
    lemma_lines_for(names, "[spin] Queued '"@, "' for installation."@);
    lemma_lines_for(request.remove.take(k), "[spin] Queued '"@, "' for removal."@);
    assert(told + (a + b) == told + a + b);
    if k < request.remove.len() {
        let e = apply_step(request, lists, names).output.last();
        assert(told + (a + b).push(e) == told + a + b + seq![e]);
    } else {
        assert(request.remove.take(k) == request.remove);
        if names.len() > 0 || request.remove.len() > 0 {
            assert(is_outcome(now, request, lists, names));
        } else {
            assert(a == Seq::<OutputView>::empty());
            assert(b == Seq::<OutputView>::empty());
            assert(told + (a + b + Seq::<OutputView>::empty()) == told);
        }
    }
}

/// Once the lists are known, every name to install that the list does not hold is asked
/// about, each once and in the order of the request, whatever else is asked for; those that
/// it holds are told. Where there is none to ask about the change is carried out.
pub proof fn law_new_names_are_checked(
    request: RequestView,
    events: Seq<EventView>,
    text: Seq<char>,
    lists: ListsView,
)
    requires
        can_run(request, events),
        ({
            ||| run(request, events).state == (StateView::Reading { request }) && lists == lists_in(
                text,
            )
            ||| run(request, events).state == (StateView::Finding { request }) && lists == (
            ListsView { packages: Seq::empty(), fonts: Seq::empty() })
        }),
    ensures
        ({
            let event = if run(request, events).state is Reading {
                EventView::Read(Ok(text))
            } else {
                EventView::Exists(false)
            };
            let step = run(request, events.push(event));
            let list = list_of(request, lists);
            let names = fresh(list, request.install);
            let told = lines_for(
                request.install.filter(|n: Seq<char>| list.contains(n)),
                "[spin] "@ + (if request.font {
                    "Font"@
                } else {
                    "Package"@
                }) + " '"@,
                "' is already installed."@,
            );
            &&& can_run(request, events.push(event))
            &&& names.len() > 0 <==> exists|i: int|
                0 <= i < request.install.len() && !list.contains(#[trigger] request.install[i])
            &&& names.len() > 0 ==> is_question(
                step,
                request,
                names,
                GoalView::System(lists),
                told,
            )
            &&& names.len() == 0 ==> carries_out(step, request, lists, names, told)
        }),
{
    let event = if run(request, events).state is Reading {
        EventView::Read(Ok(text))
    } else {
        EventView::Exists(false)
    };
    law_next(request, events, event);
    let list = list_of(request, lists);
    let names = fresh(list, request.install);
    let held = request.install.filter(|n: Seq<char>| list.contains(n));
    let front = "[spin] "@ + (if request.font {
        "Font"@
    } else {
        "Package"@
    }) + " '"@;
    let told = lines_for(held, front, "' is already installed."@);
    lemma_lines_for(held, front, "' is already installed."@);
    lemma_any_checkable(names);
    lemma_apply_carries_out(request, lists, names, told);
    crate::plan::law_fresh(list, request.install);
    if names.len() > 0 {
        assert(names.contains(names[0]));
        let i = choose|i: int| 0 <= i < request.install.len() && request.install[i] == names[0];
        assert(!list.contains(request.install[i]));
        assert(told + Seq::<OutputView>::empty() == told);
    }
    if exists|i: int| 0 <= i < request.install.len() && !list.contains(#[trigger] request.install[i]) {
        let i = choose|i: int|
            0 <= i < request.install.len() && !list.contains(#[trigger] request.install[i]);
        assert(request.install.contains(request.install[i]));
        assert(names.contains(request.install[i]));
    }
}

/// When nixpkgs has answered, names that are missing end the session; without any, what the
/// names were wanted for is done, with all the names. Where it did not answer, that is told
/// and the names are taken as they are.
pub proof fn law_names_are_used(
    request: RequestView,
    events: Seq<EventView>,
    flags: Option<Seq<Option<bool>>>,
)
    requires
        can_run(request, events),
        run(request, events).state matches StateView::Checking { request: r, names, .. } && r
            == request && answers(names, flags),
    ensures
        ({
            let names = run(request, events).state->Checking_names;
            let goal = run(request, events).state->goal;
            let step = run(request, events.push(EventView::Existence(flags)));
            let told = if flags is None {
                seq![
                    OutputView::Error(
                        "[spin] Warning: could not reach nixpkgs to validate names — skipping check."@,
                    ),
                ]
            } else {
                seq![]
            };
            &&& can_run(request, events.push(EventView::Existence(flags)))
            &&& missing(names, flags).len() > 0 ==> step == (StepView {
                output: told,
                effect: EffectView::NixOutput { args: eval_args(attr_names_expr()) },
                state: StateView::Suggesting { missing: missing(names, flags) },
            })
            &&& missing(names, flags).len() == 0 ==> match goal {
                GoalView::Shell => step == (StepView {
                    output: told.push(
                        OutputView::Line(
                            "[spin] Opening temporary shell with "@ + join(
                                request.install,
                                ", "@,
                            ) + "..."@,
                        ),
                    ),
                    effect: EffectView::Nix {
                        args: seq!["shell"@, "--impure"@] + Seq::new(
                            request.install.len(),
                            |i: int| "nixpkgs#"@ + request.install[i],
                        ),
                    },
                    state: StateView::Shelling,
                }),
                GoalView::Profile => step == (StepView {
                    output: told.push(
                        OutputView::Line(
                            "[spin] Installing "@ + join(request.install, ", "@)
                                + " to user profile..."@,
                        ),
                    ),
                    effect: EffectView::NixStreaming {
                        args: seq!["profile"@, "install"@, "--impure"@] + Seq::new(
                            request.install.len(),
                            |i: int| "nixpkgs#"@ + request.install[i],
                        ),
                    },
                    state: StateView::Installing { request },
                }),
                GoalView::System(lists) => carries_out(step, request, lists, names, told),
            }
        }),
{
    let names = run(request, events).state->Checking_names;
    let goal = run(request, events).state->goal;
    let told: Seq<OutputView> = if flags is None {
        seq![
            OutputView::Error(
                "[spin] Warning: could not reach nixpkgs to validate names — skipping check."@,
            ),
        ]
    } else {
        seq![]
    };
    law_next(request, events, EventView::Existence(flags));
    let step = run(request, events.push(EventView::Existence(flags)));
    let inner = judge_step(request, names, missing(names, flags), goal);
    assert(step.output == told + inner.output);
    assert(crate::session::installables(request.install) == Seq::new(
        request.install.len(),
        |i: int| "nixpkgs#"@ + request.install[i],
    ));
    if missing(names, flags).len() > 0 {
        assert(told + Seq::<OutputView>::empty() == told);
    } else {
        match goal {
            GoalView::System(lists) => {
                lemma_apply_carries_out(request, lists, names, told);
            },
            _ => {
                assert(inner.output.len() == 1);
                assert(told + inner.output == told.push(inner.output[0]));
            },
        }
    }
}

/// Missing names are reported, with what is suggested for each, and the program ends
/// without success.
pub proof fn law_missing_names_end_the_session(
    request: RequestView,
    events: Seq<EventView>,
    lists: Seq<Seq<Seq<char>>>,
)
    requires
        can_run(request, events),
        run(request, events).state matches StateView::Suggesting { missing } && missing.len()
            == lists.len(),
    ensures
        ({
            let report = missing_report(run(request, events).state->missing, lists);
            run(request, events.push(EventView::Suggested(lists))) == StepView {
                output: Seq::new(report.len(), |i: int| OutputView::Error(report[i])),
                effect: EffectView::Exit { success: false },
                state: StateView::Finished,
            }
        }),
{
    law_next(request, events, EventView::Suggested(lists));
    let report = missing_report(run(request, events).state->missing, lists);
    assert(report.map_values(|l: Seq<char>| OutputView::Error(l)) == Seq::new(
        report.len(),
        |i: int| OutputView::Error(report[i]),
    ));
}

/// A temporary shell ends as its program does. Once the profile has its new packages, the
/// names to remove follow; where the installation failed the program ends.
pub proof fn law_after_shell_and_profile(request: RequestView, events: Seq<EventView>, ok: bool)
    requires
        can_run(request, events),
    ensures
        run(request, events).state is Shelling ==> run(request, events.push(EventView::Done(ok)))
            == (StepView {
            output: seq![],
            effect: EffectView::Exit { success: ok },
            state: StateView::Finished,
        }),
        run(request, events).state == (StateView::Installing { request }) ==> run(
            request,
            events.push(EventView::Done(ok)),
        ) == if ok && request.remove.len() > 0 {
            StepView {
                output: seq![],
                effect: EffectView::NixOutput { args: seq!["profile"@, "list"@] },
                state: StateView::Listing { request, at: 0 },
            }
        } else {
            StepView {
                output: seq![],
                effect: EffectView::Exit { success: ok },
                state: StateView::Finished,
            }
        },
{
    law_next(request, events, EventView::Done(ok));
    law_request_is_kept(request, events);
}

/// The name whose turn it is is looked up in the profile, and removed by the index that was
/// found; then it is the turn of the next one, until there are no more. Where it is not
/// there, where the profile cannot be listed, or where it cannot be removed, the program
/// ends with an error.
pub proof fn law_removal_from_profile(
    request: RequestView,
    events: Seq<EventView>,
    at: nat,
    listing: Seq<char>,
    ok: bool,
)
    requires
        can_run(request, events),
        at < request.remove.len(),
    ensures
        run(request, events).state == (StateView::Listing { request, at }) ==> {
            let name = request.remove[at as int];
            &&& run(request, events.push(EventView::Listing(None))) == (StepView {
                output: seq![OutputView::Error("[spin] Error: "@ + "Failed to list profile"@)],
                effect: EffectView::Exit { success: false },
                state: StateView::Finished,
            })
            &&& run(request, events.push(EventView::Listing(Some(listing)))) == match index_in(
                listing,
                name,
            ) {
                Some(index) => StepView {
                    output: seq![
                        OutputView::Line(
                            "[spin] Removing '"@ + name + "' (profile index "@ + index
                                + ") from user profile..."@,
                        ),
                    ],
                    effect: EffectView::Nix { args: seq!["profile"@, "remove"@, index] },
                    state: StateView::Unlisting { request, at },
                },
                None => StepView {
                    output: seq![
                        OutputView::Error(
                            "[spin] Error: "@ + ("Package '"@ + name
                                + "' not found in user profile.\nRun 'nix profile list' to see what is installed."@),
                        ),
                    ],
                    effect: EffectView::Exit { success: false },
                    state: StateView::Finished,
                },
            }
        },
        run(request, events).state == (StateView::Unlisting { request, at }) ==> {
            let name = request.remove[at as int];
            run(request, events.push(EventView::Done(ok))) == if !ok {
                StepView {
                    output: seq![
                        OutputView::Error(
                            "[spin] Error: "@ + ("Failed to remove '"@ + name
                                + "' from profile."@),
                        ),
                    ],
                    effect: EffectView::Exit { success: false },
                    state: StateView::Finished,
                }
            } else if at + 1 < request.remove.len() {
                StepView {
                    output: seq![
                        OutputView::Line(
                            "[spin] Package '"@ + name + "' removed from user profile."@,
                        ),
                    ],
                    effect: EffectView::NixOutput { args: seq!["profile"@, "list"@] },
                    state: StateView::Listing { request, at: at + 1 },
                }
            } else {
                StepView {
                    output: seq![
                        OutputView::Line(
                            "[spin] Package '"@ + name + "' removed from user profile."@,
                        ),
                    ],
                    effect: EffectView::Exit { success: true },
                    state: StateView::Finished,
                }
            }
        },
{
    law_next(request, events, EventView::Listing(None));
    law_next(request, events, EventView::Listing(Some(listing)));
    law_next(request, events, EventView::Done(ok));
    let step = run(request, events.push(EventView::Done(ok)));
    if run(request, events).state == (StateView::Unlisting { request, at }) && ok {
        let line = seq![
            OutputView::Line(
                "[spin] Package '"@ + request.remove[at as int] + "' removed from user profile."@,
            ),
        ];
        assert(step.output == line + Seq::<OutputView>::empty());
        assert(line + Seq::<OutputView>::empty() == line);
    }
}

/// A change that was written is built, once; a rebuild that came through is told name by
/// name, and one that did not has the lists from before written back, where there was a
/// change, and ends the program without success.
pub proof fn law_rebuild(
    request: RequestView,
    events: Seq<EventView>,
    change: ChangeView,
    error: Seq<char>,
    result: Result<(), Seq<char>>,
)
    requires
        can_run(request, events),
    ensures
        ({
            let failed = StepView {
                output: seq![
                    OutputView::Error(
                        "[spin] Error: "@ + "nixos-rebuild failed — changes rolled back."@,
                    ),
                ],
                effect: EffectView::Exit { success: false },
                state: StateView::Finished,
            };
            let kind = if request.font {
                "Font"@
            } else {
                "Package"@
            };
            let state = run(request, events).state;
            &&& state == (StateView::Writing { request, change }) ==> {
                &&& run(request, events.push(EventView::Wrote(Ok(())))) == (StepView {
                    output: seq![],
                    effect: EffectView::PrivilegedStreaming {
                        program: "nixos-rebuild"@,
                        args: if request.upgrade {
                            seq!["switch"@, "--upgrade"@]
                        } else {
                            seq!["switch"@]
                        },
                    },
                    state: StateView::Rebuilding { request, written: Some(change) },
                })
                &&& run(request, events.push(EventView::Wrote(Err(error)))) == (StepView {
                    output: seq![OutputView::Error("[spin] Error: "@ + error)],
                    effect: EffectView::Exit { success: false },
                    state: StateView::Finished,
                })
            }
            &&& state == (StateView::Rebuilding { request, written: None }) ==> {
                &&& run(request, events.push(EventView::Done(false))) == failed
                &&& request.upgrade ==> run(request, events.push(EventView::Done(true))) == (
                StepView {
                    output: seq![OutputView::Line("[spin] System updated successfully."@)],
                    effect: EffectView::Exit { success: true },
                    state: StateView::Finished,
                })
            }
            &&& state == (StateView::Rebuilding { request, written: Some(change) }) ==> {
                &&& run(request, events.push(EventView::Done(false))) == (StepView {
                    output: seq![],
                    effect: EffectView::WritePackages {
                        content: conf_text(change.before.packages, change.before.fonts),
                    },
                    state: StateView::Restoring,
                })
                &&& change.added.len() > 0 || change.removed.len() > 0 ==> run(
                    request,
                    events.push(EventView::Done(true)),
                ) == (StepView {
                    output: lines_for(
                        change.added,
                        "[spin] "@ + kind + " '"@,
                        "' installed successfully."@,
                    ) + lines_for(
                        change.removed,
                        "[spin] "@ + kind + " '"@,
                        "' removed successfully."@,
                    ),
                    effect: EffectView::Exit { success: true },
                    state: StateView::Finished,
                })
            }
            &&& state is Restoring ==> run(request, events.push(EventView::Wrote(result)))
                == failed
        }),
{
    law_next(request, events, EventView::Wrote(Ok(())));
    law_next(request, events, EventView::Wrote(Err(error)));
    law_next(request, events, EventView::Wrote(result));
    law_next(request, events, EventView::Done(true));
    law_next(request, events, EventView::Done(false));
    let kind = if request.font {
        "Font"@
    } else {
        "Package"@
    };
    let front = "[spin] "@ + kind + " '"@;
    let a = lines_for(change.added, front, "' installed successfully."@);
    let b = lines_for(change.removed, front, "' removed successfully."@);
    lemma_lines_for(change.added, front, "' installed successfully."@);
    lemma_lines_for(change.removed, front, "' removed successfully."@);
    assert(a + b + Seq::<OutputView>::empty() == a + b);
}

} // verus!
