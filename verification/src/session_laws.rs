//! What holds of whole sessions, whatever comes of each step.

use crate::conf::{conf_text, FONTS_MARKER};
use crate::conf_laws::{
    all_listable, law_written_fonts_read_back, law_written_packages_read_back, listable, none_opens,
    opens_nothing,
};
use crate::order::lemma_filter_keeps;
use crate::plan::{extended, fresh, law_extended, law_without};
use crate::request::{
    ChangeView, EffectView, EventView, GoalView, ListsView, OutputView, RequestView, StateView,
    StepView,
};
use crate::session::{
    apply_step, begin_step, changed, dispatch_step, exit, fail_step, fits, judge_step, lists_in,
    next_step, prepare_step, rebuild_step, rolled_back_step, switch_args, system_step, target,
    unlist_step, validate_step,
};
use crate::suggest::{attr_char, attr_name};
use crate::validate::{answers, checkable, law_all_valid, malformed, missing, missing_report};
use vstd::prelude::*;

verus! {

/// The last step of a session for `request` after the events `events`.
pub open spec fn run(request: RequestView, events: Seq<EventView>) -> StepView
    decreases events.len(),
{
    if events.len() == 0 {
        begin_step(request)
    } else {
        next_step(run(request, events.drop_last()).state, events.last())
    }
}

/// Whether each of `events` is what the session waits for when it comes.
pub open spec fn can_run(request: RequestView, events: Seq<EventView>) -> bool
    decreases events.len(),
{
    events.len() == 0 || can_run(request, events.drop_last()) && fits(
        run(request, events.drop_last()).state,
        events.last(),
    )
}

/// The steps of a session for `request` with the events `events`.
pub open spec fn steps(request: RequestView, events: Seq<EventView>) -> Seq<StepView>
    decreases events.len(),
{
    if events.len() == 0 {
        seq![run(request, events)]
    } else {
        steps(request, events.drop_last()).push(run(request, events))
    }
}

/// Whether `effect` rebuilds the system and switches to what was built.
pub open spec fn is_switch(effect: EffectView) -> bool {
    effect matches EffectView::PrivilegedStreaming { program, args } && program
        == "nixos-rebuild"@ && args.len() > 0 && args[0] == "switch"@
}

/// Whether `step` writes a change to `packages.conf`.
pub open spec fn writes_change(step: StepView) -> bool {
    step.effect is WritePackages && step.state is Writing
}

/// The request that a session in `state` is about.
pub open spec fn request_of(state: StateView) -> Option<RequestView> {
    match state {
        StateView::Syncing { request } => Some(request),
        StateView::Searching { request } => Some(request),
        StateView::Checking { request, .. } => Some(request),
        StateView::Installing { request } => Some(request),
        StateView::Listing { request, .. } => Some(request),
        StateView::Unlisting { request, .. } => Some(request),
        StateView::Locating { request } => Some(request),
        StateView::Creating { request } => Some(request),
        StateView::Importing { request } => Some(request),
        StateView::Finding { request } => Some(request),
        StateView::Reading { request } => Some(request),
        StateView::Writing { request, .. } => Some(request),
        StateView::Rebuilding { request, .. } => Some(request),
        _ => None,
    }
}

/// How many more steps a session in `state` can take at most.
pub open spec fn steps_left(state: StateView) -> nat {
    match state {
        StateView::Finished => 0,
        StateView::Booting => 1,
        StateView::Shelling => 1,
        StateView::Searching { .. } => 1,
        StateView::Suggesting { .. } => 1,
        StateView::Restoring => 1,
        StateView::Collecting => 2,
        StateView::Rebuilding { .. } => 2,
        StateView::Writing { .. } => 3,
        StateView::Checking { request, goal, .. } => match goal {
            GoalView::Shell => 2,
            GoalView::System(_) => 4,
            GoalView::Profile => 12 + 2 * request.remove.len(),
        },
        StateView::Reading { .. } => 5,
        StateView::Finding { .. } => 6,
        StateView::Importing { .. } => 7,
        StateView::Creating { .. } => 8,
        StateView::Locating { .. } => 9,
        StateView::Listing { request, at } => if at < request.remove.len() {
            (10 + 2 * (request.remove.len() - at)) as nat
        } else {
            10
        },
        StateView::Unlisting { request, at } => if at < request.remove.len() {
            (9 + 2 * (request.remove.len() - at)) as nat
        } else {
            9
        },
        StateView::Installing { request } => 11 + 2 * request.remove.len(),
        StateView::Syncing { request } => 13 + 2 * request.remove.len(),
    }
}

/// Whether the state of `step` is one in which what its effect brings is waited for.
pub open spec fn waits_for_effect(step: StepView) -> bool {
    match step.effect {
        EffectView::Privileged { .. }
        | EffectView::PrivilegedStreaming { .. }
        | EffectView::Nix { .. }
        | EffectView::NixStreaming { .. } => match step.state {
            StateView::Syncing { .. }
            | StateView::Collecting
            | StateView::Booting
            | StateView::Shelling
            | StateView::Installing { .. }
            | StateView::Rebuilding { .. } => true,
            StateView::Unlisting { request, at } => at < request.remove.len(),
            _ => false,
        },
        EffectView::NixOutput { .. } => match step.state {
            StateView::Searching { .. }
            | StateView::Checking { .. }
            | StateView::Suggesting { .. } => true,
            StateView::Listing { request, at } => at < request.remove.len(),
            _ => false,
        },
        EffectView::FindPackages => step.state is Locating || step.state is Finding,
        EffectView::ReadPackages => step.state is Reading,
        EffectView::WritePackages { .. } => step.state is Creating || step.state is Writing
            || step.state is Restoring,
        EffectView::ReadConfig => step.state is Importing,
        EffectView::Exit { .. } => step.state is Finished,
    }
}

/// Whether `step`, of a session for `request`, does what its state says, with at most `n`
/// steps to come.
spec fn sound(request: RequestView, step: StepView, n: nat) -> bool {
    &&& is_switch(step.effect) <==> step.state is Rebuilding
    &&& step.effect is Exit <==> step.state is Finished
    &&& waits_for_effect(step)
    &&& step.state is Writing ==> step.effect is WritePackages
    &&& !(step.state is Restoring)
    &&& request_of(step.state) matches Some(r) ==> r == request
    &&& steps_left(step.state) <= n
    &&& step.state matches StateView::Listing { request, at } ==> at < request.remove.len()
    &&& step.state matches StateView::Unlisting { request, at } ==> at < request.remove.len()
}

proof fn lemma_programs()
    ensures
        "nix-collect-garbage"@ != "nixos-rebuild"@,
        "boot"@ != "switch"@,
{
    reveal_strlit("nix-collect-garbage");
    reveal_strlit("nixos-rebuild");
    reveal_strlit("boot");
    reveal_strlit("switch");
    assert("nix-collect-garbage"@.len() != "nixos-rebuild"@.len());
    assert("boot"@.len() != "switch"@.len());
}

proof fn lemma_rebuild(request: RequestView, written: Option<ChangeView>)
    ensures
        sound(request, rebuild_step(request, written), 2),
{
}

proof fn lemma_system(request: RequestView)
    ensures
        sound(request, system_step(request), 9),
{
    lemma_rebuild(request, None);
}

proof fn lemma_unlist(request: RequestView, at: nat)
    ensures
        sound(
            request,
            unlist_step(request, at),
            if at < request.remove.len() {
                (10 + 2 * (request.remove.len() - at)) as nat
            } else {
                9
            },
        ),
{
    lemma_system(request);
}

proof fn lemma_apply(request: RequestView, lists: ListsView, names: Seq<Seq<char>>)
    ensures
        sound(request, apply_step(request, lists, names), 3),
{
    lemma_rebuild(request, None);
}

proof fn lemma_judge(
    request: RequestView,
    names: Seq<Seq<char>>,
    gone: Seq<Seq<char>>,
    goal: GoalView,
)
    ensures
        sound(
            request,
            judge_step(request, names, gone, goal),
            match goal {
                GoalView::Shell => 1,
                GoalView::System(_) => 3,
                GoalView::Profile => 11 + 2 * request.remove.len(),
            },
        ),
{
    if goal is System {
        lemma_apply(request, goal->System_0, names);
    }
}

proof fn lemma_validate(request: RequestView, names: Seq<Seq<char>>, goal: GoalView)
    ensures
        sound(
            request,
            validate_step(request, names, goal),
            match goal {
                GoalView::Shell => 2,
                GoalView::System(_) => 4,
                GoalView::Profile => 12 + 2 * request.remove.len(),
            },
        ),
{
    lemma_judge(request, names, missing(names, None), goal);
}

proof fn lemma_prepare(request: RequestView, lists: ListsView)
    ensures
        sound(request, prepare_step(request, lists), 4),
{
    let names = fresh(target(request, lists), request.install);
    lemma_validate(request, names, GoalView::System(lists));
    lemma_apply(request, lists, names);
}

proof fn lemma_dispatch(request: RequestView)
    ensures
        sound(request, dispatch_step(request), 12 + 2 * request.remove.len()),
{
    lemma_programs();
    lemma_validate(request, request.install, GoalView::Shell);
    lemma_validate(request, request.install, GoalView::Profile);
    lemma_unlist(request, 0);
    lemma_system(request);
}

proof fn lemma_begin(request: RequestView)
    ensures
        sound(request, begin_step(request), 13 + 2 * request.remove.len()),
{
    lemma_dispatch(request);
}

/// What every step of a session has in common.
proof fn lemma_next(request: RequestView, state: StateView, event: EventView)
    requires
        fits(state, event),
        request_of(state) matches Some(r) ==> r == request,
    ensures
        steps_left(state) > 0,
        !(state is Rebuilding) ==> sound(
            request,
            next_step(state, event),
            (steps_left(state) - 1) as nat,
        ),
        state is Rebuilding ==> {
            let step = next_step(state, event);
            &&& !is_switch(step.effect)
            &&& step.state is Restoring || step.state is Finished
            &&& step.effect is Exit <==> step.state is Finished
            &&& waits_for_effect(step)
        },
{
    lemma_programs();
    match state {
        StateView::Syncing { request } => {
            lemma_dispatch(request);
        },
        StateView::Checking { request, names, goal } => {
            let flags = event->Existence_0;
            lemma_judge(request, names, missing(names, flags), goal);
        },
        StateView::Installing { request } => {
            lemma_unlist(request, 0);
        },
        StateView::Unlisting { request, at } => {
            lemma_unlist(request, at + 1);
        },
        StateView::Finding { request } => {
            lemma_prepare(request, ListsView { packages: Seq::empty(), fonts: Seq::empty() });
        },
        StateView::Reading { request } => {
            if event->Read_0 is Ok {
                lemma_prepare(request, lists_in(event->Read_0->Ok_0));
            }
        },
        StateView::Writing { request, change } => {
            lemma_rebuild(request, Some(change));
        },
        _ => {},
    }
}

/// How many of the steps rebuild the system and switch to what was built.
pub open spec fn switches(request: RequestView, events: Seq<EventView>) -> nat {
    steps(request, events).filter(|s: StepView| is_switch(s.effect)).len()
}

/// How many of the steps write a change to `packages.conf`.
pub open spec fn change_writes(request: RequestView, events: Seq<EventView>) -> nat {
    steps(request, events).filter(|s: StepView| writes_change(s)).len()
}

/// The managed lists as the session found them, once it has.
pub open spec fn lists_found(request: RequestView, events: Seq<EventView>) -> Option<ListsView>
    decreases events.len(),
{
    if events.len() == 0 {
        None
    } else {
        let rest = events.drop_last();
        match (run(request, rest).state, events.last()) {
            (StateView::Reading { .. }, EventView::Read(Ok(text))) => Some(lists_in(text)),
            (StateView::Finding { .. }, EventView::Exists(there)) => if there {
                None
            } else {
                Some(ListsView { packages: Seq::empty(), fonts: Seq::empty() })
            },
            _ => lists_found(request, rest),
        }
    }
}

/// The managed lists that a session in `state` holds on to.
spec fn lists_held(state: StateView) -> Option<ListsView> {
    match state {
        StateView::Checking { goal: GoalView::System(lists), .. } => Some(lists),
        StateView::Writing { change, .. } => Some(change.before),
        StateView::Rebuilding { written: Some(change), .. } => Some(change.before),
        _ => None,
    }
}

/// How often the system was rebuilt, and a change written, once a session is in `state`.
spec fn counts(state: StateView, rebuilds: nat, writes: nat) -> bool {
    match state {
        StateView::Writing { .. } => rebuilds == 0 && writes == 1,
        StateView::Rebuilding { written, .. } => rebuilds == 1 && writes == if written is Some {
            1nat
        } else {
            0
        },
        StateView::Restoring => rebuilds == 1 && writes == 1,
        StateView::Finished => rebuilds <= 1 && writes <= 1,
        _ => rebuilds == 0 && writes == 0,
    }
}

proof fn lemma_held_judge(
    request: RequestView,
    names: Seq<Seq<char>>,
    gone: Seq<Seq<char>>,
    goal: GoalView,
)
    ensures
        lists_held(judge_step(request, names, gone, goal).state) matches Some(l) ==> goal
            == GoalView::System(l),
{
}

proof fn lemma_held_prepare(request: RequestView, lists: ListsView)
    ensures
        lists_held(prepare_step(request, lists).state) matches Some(l) ==> l == lists,
{
    let names = fresh(target(request, lists), request.install);
    lemma_held_judge(request, names, missing(names, None), GoalView::System(lists));
}

proof fn lemma_held_dispatch(request: RequestView)
    ensures
        lists_held(dispatch_step(request).state) is None,
{
    lemma_held_judge(request, request.install, missing(request.install, None), GoalView::Shell);
    lemma_held_judge(request, request.install, missing(request.install, None), GoalView::Profile);
}

/// What holds of a session at any time.
proof fn lemma_run(request: RequestView, events: Seq<EventView>)
    requires
        can_run(request, events),
    ensures
        request_of(run(request, events).state) matches Some(r) ==> r == request,
        events.len() + steps_left(run(request, events).state) <= 13 + 2 * request.remove.len(),
        counts(
            run(request, events).state,
            switches(request, events),
            change_writes(request, events),
        ),
        lists_held(run(request, events).state) matches Some(l) ==> lists_found(request, events)
            == Some(l),
    decreases events.len(),
{
    let f = |s: StepView| is_switch(s.effect);
    let g = |s: StepView| writes_change(s);
    let step = run(request, events);
    if events.len() == 0 {
        lemma_begin(request);
        lemma_held_dispatch(request);
        let all = steps(request, events);
        assert(all == Seq::<StepView>::empty().push(step));
        Seq::<StepView>::empty().lemma_filter_push(step, f);
        Seq::<StepView>::empty().lemma_filter_push(step, g);
        assert(Seq::<StepView>::empty().filter(f).len() == 0) by {
            reveal(Seq::filter);
        }
        assert(Seq::<StepView>::empty().filter(g).len() == 0) by {
            reveal(Seq::filter);
        }
        lemma_begin_state(request);
    } else {
        let rest = events.drop_last();
        let state = run(request, rest).state;
        let event = events.last();
        lemma_run(request, rest);
        lemma_next(request, state, event);
        steps(request, rest).lemma_filter_push(step, f);
        steps(request, rest).lemma_filter_push(step, g);
        lemma_next_state(state, event);
    }
}

proof fn lemma_begin_state(request: RequestView)
    ensures
        !(begin_step(request).state is Writing),
        !(begin_step(request).state is Restoring),
        begin_step(request).state matches StateView::Rebuilding { written, .. } ==> written is None,
{
    lemma_judge_state(request, request.install, missing(request.install, None), GoalView::Shell);
    lemma_judge_state(request, request.install, missing(request.install, None), GoalView::Profile);
}

proof fn lemma_judge_state(
    request: RequestView,
    names: Seq<Seq<char>>,
    gone: Seq<Seq<char>>,
    goal: GoalView,
)
    ensures
        judge_step(request, names, gone, goal).state matches StateView::Rebuilding { written, .. }
            ==> written is None,
        !(goal is System) ==> !(judge_step(request, names, gone, goal).state is Writing),
{
}

/// Which states can follow one another, and what the session then holds on to.
#[verifier::rlimit(40)]
proof fn lemma_next_state(state: StateView, event: EventView)
    requires
        fits(state, event),
    ensures
        ({
            let then = next_step(state, event).state;
            &&& then is Restoring ==> state is Rebuilding && state->written is Some
            &&& then is Writing ==> !(state is Writing || state is Rebuilding || state is Restoring)
            &&& then is Rebuilding ==> !(state is Rebuilding || state is Restoring)
            &&& then matches StateView::Rebuilding { written: Some(_), .. } ==> state is Writing
            &&& then matches StateView::Rebuilding { written: None, .. } ==> !(state is Writing)
            &&& lists_held(then) matches Some(l) ==> match (state, event) {
                (StateView::Reading { .. }, EventView::Read(Ok(text))) => l == lists_in(text),
                (StateView::Finding { .. }, EventView::Exists(there)) => !there && l == (ListsView {
                    packages: Seq::empty(),
                    fonts: Seq::empty(),
                }),
                _ => lists_held(state) == Some(l),
            }
        }),
{
    match state {
        StateView::Syncing { request } => {
            lemma_held_dispatch(request);
            lemma_begin_state(RequestView { sync: false, ..request });
            lemma_judge_state(
                request,
                request.install,
                missing(request.install, None),
                GoalView::Shell,
            );
            lemma_judge_state(
                request,
                request.install,
                missing(request.install, None),
                GoalView::Profile,
            );
        },
        StateView::Checking { request, names, goal } => {
            let flags = event->Existence_0;
            lemma_held_judge(request, names, missing(names, flags), goal);
            lemma_judge_state(request, names, missing(names, flags), goal);
        },
        StateView::Finding { request } => {
            let lists = ListsView { packages: Seq::empty(), fonts: Seq::empty() };
            lemma_held_prepare(request, lists);
        },
        StateView::Reading { request } => {
            if event->Read_0 is Ok {
                lemma_held_prepare(request, lists_in(event->Read_0->Ok_0));
            }
        },
        _ => {},
    }
}

/// Every session comes to an end, however its steps turn out: two steps for each name to
/// remove and thirteen more are the most that it takes.
pub proof fn law_sessions_end(request: RequestView, events: Seq<EventView>)
    requires
        can_run(request, events),
    ensures
        events.len() <= 13 + 2 * request.remove.len(),
        events.len() == 13 + 2 * request.remove.len() ==> run(request, events).state is Finished,
{
    lemma_run(request, events);
}

/// The system is rebuilt once at most, and the change to `packages.conf` is written in one
/// go.
pub proof fn law_one_write_one_rebuild(request: RequestView, events: Seq<EventView>)
    requires
        can_run(request, events),
    ensures
        switches(request, events) <= 1,
        change_writes(request, events) <= 1,
{
    lemma_run(request, events);
}

/// A rebuild that fails after a change was written has the lists, as the session found
/// them, written back; then the program ends, and not with success. What was written back
/// is read as the lists that were found.
pub proof fn law_failed_rebuild_restores(
    request: RequestView,
    events: Seq<EventView>,
    result: Result<(), Seq<char>>,
)
    requires
        can_run(request, events),
        run(request, events).state matches StateView::Rebuilding { written: Some(_), .. },
    ensures
        lists_found(request, events) is Some,
        ({
            let found = lists_found(request, events)->0;
            let failed = events.push(EventView::Done(false));
            let ended = failed.push(EventView::Wrote(result));
            &&& can_run(request, ended)
            &&& run(request, failed).effect == EffectView::WritePackages {
                content: conf_text(found.packages, found.fonts),
            }
            &&& run(request, ended) == rolled_back_step()
            &&& all_listable(found.packages) ==> lists_in(
                run(request, failed).effect->content,
            ).packages == found.packages
            &&& all_listable(found.fonts) && none_opens(found.packages, FONTS_MARKER@) ==> lists_in(
                run(request, failed).effect->content,
            ).fonts == found.fonts
        }),
{
    lemma_run(request, events);
    let found = lists_found(request, events)->0;
    if all_listable(found.packages) {
        law_written_packages_read_back(found.packages, found.fonts);
    }
    if all_listable(found.fonts) && none_opens(found.packages, FONTS_MARKER@) {
        law_written_fonts_read_back(found.packages, found.fonts);
    }
    let failed = events.push(EventView::Done(false));
    let ended = failed.push(EventView::Wrote(result));
    assert(failed.drop_last() == events);
    assert(ended.drop_last() == failed);
    assert(run(request, failed) == next_step(
        run(request, events).state,
        EventView::Done(false),
    ));
    assert(run(request, ended) == next_step(run(request, failed).state, EventView::Wrote(result)));
    assert(can_run(request, failed));
}

/// Once a change was written, the program ends with success only when the rebuild came
/// through.
pub proof fn law_success_needs_rebuild(request: RequestView, events: Seq<EventView>)
    requires
        can_run(request, events),
        change_writes(request, events) == 1,
        run(request, events).effect == (EffectView::Exit { success: true }),
    ensures
        switches(request, events) == 1,
        events.len() > 0,
        events.last() == EventView::Done(true),
{
    let g = |s: StepView| writes_change(s);
    let f = |s: StepView| is_switch(s.effect);
    let step = run(request, events);
    lemma_run(request, events);
    if events.len() == 0 {
        Seq::<StepView>::empty().lemma_filter_push(step, g);
        assert(steps(request, events) == Seq::<StepView>::empty().push(step));
        assert(Seq::<StepView>::empty().filter(g).len() == 0) by {
            reveal(Seq::filter);
        }
    } else {
        let rest = events.drop_last();
        lemma_run(request, rest);
        steps(request, rest).lemma_filter_push(step, g);
        steps(request, rest).lemma_filter_push(step, f);
    }
}

/// When a name turns out to be missing, neither a change was written nor the system
/// rebuilt, and the program ends there: the missing names are reported, and that is all.
pub proof fn law_typo_changes_nothing(
    request: RequestView,
    events: Seq<EventView>,
    suggestions: Seq<Seq<Seq<char>>>,
)
    requires
        can_run(request, events),
        run(request, events).state matches StateView::Suggesting { missing } && missing.len()
            == suggestions.len(),
    ensures
        switches(request, events) == 0,
        change_writes(request, events) == 0,
        ({
            let ended = events.push(EventView::Suggested(suggestions));
            &&& can_run(request, ended)
            &&& run(request, ended) == exit(
                missing_report(run(request, events).state->missing, suggestions).map_values(
                    |l: Seq<char>| OutputView::Error(l),
                ),
                false,
            )
        }),
{
    lemma_run(request, events);
    let ended = events.push(EventView::Suggested(suggestions));
    assert(ended.drop_last() == events);
}

/// Where one of the names that are checked is missing, the session goes no further than to
/// look for others to suggest.
pub proof fn law_typo_is_found(
    request: RequestView,
    events: Seq<EventView>,
    flags: Option<Seq<Option<bool>>>,
)
    requires
        can_run(request, events.push(EventView::Existence(flags))),
        run(request, events).state matches StateView::Checking { names, .. } && missing(
            names,
            flags,
        ).len() > 0,
    ensures
        run(request, events.push(EventView::Existence(flags))).state == (StateView::Suggesting {
            missing: missing(run(request, events).state->Checking_names, flags),
        }),
{
    assert(events.push(EventView::Existence(flags)).drop_last() == events);
}

/// What is added is known to be good when a change is made of it.
proof fn lemma_apply_names(
    names: Seq<Seq<char>>,
    flags: Option<Seq<Option<bool>>>,
    i: int,
)
    requires
        answers(names, flags),
        missing(names, flags).len() == 0,
        0 <= i < names.len(),
    ensures
        attr_name(names[i]),
{
    let f = |n: Seq<char>| !attr_name(n);
    assert(malformed(names).len() == 0);
    if !attr_name(names[i]) {
        names.lemma_filter_contains(f, i);
        assert(names.filter(f).contains(names[i]));
    }
}

/// What the step that writes a change takes to be written.
#[verifier::rlimit(40)]
proof fn lemma_written(request: RequestView, events: Seq<EventView>)
    requires
        can_run(request, events),
        run(request, events).state is Writing,
    ensures
        ({
            let change = run(request, events).state->change;
            let lists = changed(request, change.before, change.added);
            &&& run(request, events).effect == EffectView::WritePackages {
                content: conf_text(lists.packages, lists.fonts),
            }
            &&& change.added.len() > 0 ==> {
                &&& events.len() > 0
                &&& run(request, events.drop_last()).state is Checking
                &&& run(request, events.drop_last()).state->Checking_names == change.added
                &&& events.last() matches EventView::Existence(flags) && missing(
                    change.added,
                    flags,
                ).len() == 0
            }
        }),
{
    if events.len() == 0 {
        lemma_begin_state(request);
    } else {
        let rest = events.drop_last();
        let state = run(request, rest).state;
        lemma_run(request, rest);
        match state {
            StateView::Syncing { request } => {
                lemma_begin_state(RequestView { sync: false, ..request });
            },
            StateView::Finding { request } => {
                lemma_prepared(
                    request,
                    ListsView { packages: Seq::empty(), fonts: Seq::empty() },
                );
            },
            StateView::Reading { request } => {
                if events.last()->Read_0 is Ok {
                    lemma_prepared(request, lists_in(events.last()->Read_0->Ok_0));
                }
            },
            _ => {},
        }
    }
}

proof fn lemma_prepared(request: RequestView, lists: ListsView)
    ensures
        prepare_step(request, lists).state matches StateView::Writing { change, .. } ==> {
            let now = changed(request, change.before, change.added);
            &&& change.added.len() == 0
            &&& prepare_step(request, lists).effect == EffectView::WritePackages {
                content: conf_text(now.packages, now.fonts),
            }
        },
{
    let names = fresh(target(request, lists), request.install);
    if names.len() > 0 && checkable(names).len() == 0 && missing(names, None).len() == 0 {
        lemma_apply_names(names, None, 0);
        names.lemma_filter_contains(|n: Seq<char>| attr_name(n), 0);
    }
}

/// Every name that a session adds could be an attribute path, and nixpkgs was asked about
/// it; where there was an answer, it was that the name is there.
pub proof fn law_added_names_are_valid(request: RequestView, events: Seq<EventView>)
    requires
        can_run(request, events),
        run(request, events).state is Writing,
    ensures
        ({
            let added = run(request, events).state->change.added;
            &&& forall|i: int| 0 <= i < added.len() ==> #[trigger] attr_name(added[i])
            &&& added.len() > 0 ==> {
                &&& events.len() > 0
                &&& events.last() matches EventView::Existence(flags) && (flags matches Some(fs)
                    ==> fs.len() == added.len() && forall|i: int|
                    0 <= i < fs.len() ==> #[trigger] fs[i] == Some(true))
            }
        }),
{
    let added = run(request, events).state->change.added;
    lemma_written(request, events);
    if added.len() > 0 {
        let flags = events.last()->Existence_0;
        assert forall|i: int| 0 <= i < added.len() implies #[trigger] attr_name(added[i]) by {
            lemma_apply_names(added, flags, i);
        }
        if flags is Some {
            assert(missing(added, flags) == Seq::<Seq<char>>::empty());
            law_all_valid(added, flags->0);
            lemma_filter_keeps(added, |n: Seq<char>| attr_name(n));
        }
    }
}

/// A change leaves the list that the request is not about as it was; the other then holds
/// the names that it held or that were added, but for those to remove.
pub proof fn law_changed(
    request: RequestView,
    lists: ListsView,
    names: Seq<Seq<char>>,
    name: Seq<char>,
)
    ensures
        request.font ==> changed(request, lists, names).packages == lists.packages,
        !request.font ==> changed(request, lists, names).fonts == lists.fonts,
        target(request, changed(request, lists, names)).contains(name) <==> (target(
            request,
            lists,
        ).contains(name) || names.contains(name)) && !request.remove.contains(name),
{
    let list = target(request, lists);
    law_extended(list, names);
    law_without(extended(list, names), request.remove, name);
    assert(extended(list, names).contains(name) <==> list.contains(name) || names.contains(name));
}

proof fn lemma_attr_name_listable(name: Seq<char>)
    requires
        attr_name(name),
    ensures
        listable(name),
{
    reveal_strlit("[");
    reveal_strlit("];");
    assert(attr_char(name[0]));
    assert(attr_char(name[name.len() - 1]));
    assert forall|i: int| 0 <= i < name.len() implies name[i] != '\n' by {
        assert(attr_char(name[i]));
    }
    if "];"@.is_prefix_of(name) {
        assert("];"@[0] == name[0]);
    }
}

/// What a session writes is read back as the lists that it had, with the change. Names that
/// are added can all stand in a list.
pub proof fn law_written_change_reads_back(request: RequestView, events: Seq<EventView>)
    requires
        can_run(request, events),
        run(request, events).state is Writing,
    ensures
        ({
            let change = run(request, events).state->change;
            let now = changed(request, change.before, change.added);
            &&& run(request, events).effect is WritePackages
            &&& all_listable(change.before.packages) ==> lists_in(
                run(request, events).effect->content,
            ).packages == now.packages
            &&& all_listable(change.before.fonts) && none_opens(
                change.before.packages,
                FONTS_MARKER@,
            ) && (request.font || none_opens(change.added, FONTS_MARKER@)) ==> lists_in(
                run(request, events).effect->content,
            ).fonts == now.fonts
        }),
{
    let change = run(request, events).state->change;
    let now = changed(request, change.before, change.added);
    let list = target(request, now);
    lemma_written(request, events);
    law_added_names_are_valid(request, events);
    law_changed(request, change.before, change.added, Seq::empty());
    if all_listable(target(request, change.before)) {
        assert forall|i: int| 0 <= i < list.len() implies #[trigger] listable(list[i]) by {
            lemma_from(request, change, list[i]);
        }
    }
    if all_listable(change.before.packages) {
        law_written_packages_read_back(now.packages, now.fonts);
    }
    if all_listable(change.before.fonts) && none_opens(change.before.packages, FONTS_MARKER@) && (
    request.font || none_opens(change.added, FONTS_MARKER@)) {
        if !request.font {
            assert forall|i: int| 0 <= i < list.len() implies #[trigger] opens_nothing(
                list[i],
                FONTS_MARKER@,
            ) by {
                lemma_from(request, change, list[i]);
            }
        }
        law_written_fonts_read_back(now.packages, now.fonts);
    }
}

/// A name in the changed list is one that was there or one that was added.
proof fn lemma_from(request: RequestView, change: ChangeView, name: Seq<char>)
    requires
        target(request, changed(request, change.before, change.added)).contains(name),
        forall|i: int| 0 <= i < change.added.len() ==> #[trigger] attr_name(change.added[i]),
    ensures
        all_listable(target(request, change.before)) ==> listable(name),
        none_opens(target(request, change.before), FONTS_MARKER@) && none_opens(
            change.added,
            FONTS_MARKER@,
        ) ==> opens_nothing(name, FONTS_MARKER@),
{
    let list = target(request, change.before);
    law_changed(request, change.before, change.added, name);
    if list.contains(name) {
        let k = choose|k: int| 0 <= k < list.len() && list[k] == name;
        assert(all_listable(list) ==> listable(list[k]));
        assert(none_opens(list, FONTS_MARKER@) ==> opens_nothing(list[k], FONTS_MARKER@));
    } else {
        let k = choose|k: int| 0 <= k < change.added.len() && change.added[k] == name;
        assert(attr_name(change.added[k]));
        lemma_attr_name_listable(name);
        assert(none_opens(change.added, FONTS_MARKER@) ==> opens_nothing(
            change.added[k],
            FONTS_MARKER@,
        ));
    }
}

/// A change that was written is followed by a rebuild, with an upgrade where one is asked
/// for; one that could not be written is not, and the program ends with the error.
pub proof fn law_written_change_is_rebuilt(
    request: RequestView,
    events: Seq<EventView>,
    error: Seq<char>,
)
    requires
        can_run(request, events),
        run(request, events).state is Writing,
    ensures
        run(request, events.push(EventView::Wrote(Ok(())))).effect
            == (EffectView::PrivilegedStreaming {
            program: "nixos-rebuild"@,
            args: switch_args(request.upgrade),
        }),
        run(request, events.push(EventView::Wrote(Err(error)))) == fail_step(error),
{
    lemma_run(request, events);
    assert(events.push(EventView::Wrote(Ok(()))).drop_last() == events);
    assert(events.push(EventView::Wrote(Err(error))).drop_last() == events);
}

/// A session that is to update the channels does so first: where that fails, the program
/// ends; else it goes on as it would have without.
pub proof fn law_channels_come_first(request: RequestView)
    requires
        request.sync,
    ensures
        run(request, seq![]).effect == (EffectView::Privileged {
            program: "nix-channel"@,
            args: seq!["--update"@],
        }),
        run(request, seq![EventView::Done(false)]) == exit(seq![], false),
        ({
            let synced = run(request, seq![EventView::Done(true)]);
            let without = run(RequestView { sync: false, ..request }, seq![]);
            synced.output == without.output && synced.effect == without.effect
        }),
{
    let start = Seq::<EventView>::empty();
    assert(seq![EventView::Done(false)].drop_last() == start);
    assert(seq![EventView::Done(true)].drop_last() == start);
    assert(run(request, seq![EventView::Done(false)]) == next_step(
        run(request, start).state,
        EventView::Done(false),
    ));
    assert(run(request, seq![EventView::Done(true)]) == next_step(
        run(request, start).state,
        EventView::Done(true),
    ));
}

/// Whether `request` is a search.
pub open spec fn is_search(request: RequestView) -> bool {
    request.search.len() > 0
}

/// Whether `request` is for a temporary shell.
pub open spec fn is_trial(request: RequestView) -> bool {
    !is_search(request) && !request.clean && request.temp
}

/// Whether `request` is about the user's profile.
pub open spec fn is_personal(request: RequestView) -> bool {
    &&& !is_search(request) && !request.clean && !request.temp && request.profile
    &&& request.install.len() > 0 || request.remove.len() > 0
}

/// Whether `step` leaves the system as it is, but for its channels.
pub open spec fn spares_system(step: StepView) -> bool {
    match step.effect {
        EffectView::Privileged { .. } => step.state is Syncing,
        EffectView::PrivilegedStreaming { .. } | EffectView::WritePackages { .. } => false,
        _ => true,
    }
}

/// Whether `step` leaves the user's profile as it is as well.
pub open spec fn spares_profile(step: StepView) -> bool {
    match step.effect {
        EffectView::NixStreaming { .. } => false,
        EffectView::Nix { args } => args.len() > 0 && args[0] == "shell"@,
        _ => true,
    }
}

/// The states of a session that is not about the system.
spec fn apart(state: StateView, trial: bool) -> bool {
    match state {
        StateView::Syncing { .. }
        | StateView::Searching { .. }
        | StateView::Suggesting { .. }
        | StateView::Finished => true,
        StateView::Shelling => trial,
        StateView::Checking { goal, .. } => if trial {
            goal is Shell
        } else {
            goal is Profile
        },
        StateView::Installing { .. }
        | StateView::Listing { .. }
        | StateView::Unlisting { .. } => !trial,
        _ => false,
    }
}

spec fn all_spare(ss: Seq<StepView>, trial: bool) -> bool {
    forall|i: int|
        0 <= i < ss.len() ==> spares_system(#[trigger] ss[i]) && (trial ==> spares_profile(ss[i]))
}

#[verifier::rlimit(40)]
proof fn lemma_apart(request: RequestView, events: Seq<EventView>)
    requires
        can_run(request, events),
        is_search(request) || is_trial(request) || is_personal(request),
    ensures
        apart(run(request, events).state, !is_personal(request)),
        all_spare(steps(request, events), !is_personal(request)),
    decreases events.len(),
{
    let trial = !is_personal(request);
    let step = run(request, events);
    if events.len() > 0 {
        let rest = events.drop_last();
        lemma_apart(request, rest);
        lemma_run(request, rest);
        let ss = steps(request, rest);
        assert(spares_system(step) && (trial ==> spares_profile(step)));
        assert forall|i: int| 0 <= i < ss.len() + 1 implies spares_system(
            #[trigger] ss.push(step)[i],
        ) && (trial ==> spares_profile(ss.push(step)[i])) by {
            if i < ss.len() {
                assert(ss.push(step)[i] == ss[i]);
            }
        }
    }
}

/// A search, a temporary shell, and what is done to the user's profile leave the system as
/// it is; nothing in them, but for an update of the channels, is run with privileges.
pub proof fn law_system_is_spared(request: RequestView, events: Seq<EventView>, i: int)
    requires
        can_run(request, events),
        is_search(request) || is_trial(request) || is_personal(request),
        0 <= i < steps(request, events).len(),
    ensures
        spares_system(steps(request, events)[i]),
{
    lemma_apart(request, events);
}

/// A search and a temporary shell are not persisted: they leave the user's profile as it is
/// too.
pub proof fn law_trial_is_not_persisted(request: RequestView, events: Seq<EventView>, i: int)
    requires
        can_run(request, events),
        is_search(request) || is_trial(request),
        0 <= i < steps(request, events).len(),
    ensures
        spares_system(steps(request, events)[i]),
        spares_profile(steps(request, events)[i]),
{
    lemma_apart(request, events);
}

/// How many of the steps ask nixpkgs whether it has the names to install.
pub open spec fn checks(request: RequestView, events: Seq<EventView>) -> nat {
    steps(request, events).filter(|s: StepView| s.state is Checking).len()
}

/// How often names can have been checked once a session for `request` is in `state`.
spec fn checked(request: RequestView, state: StateView, n: nat) -> bool {
    match state {
        StateView::Syncing { .. }
        | StateView::Locating { .. }
        | StateView::Creating { .. }
        | StateView::Importing { .. }
        | StateView::Finding { .. }
        | StateView::Reading { .. } => n == 0,
        StateView::Checking { goal, .. } => n == 1 && (goal is Profile ==> request.install.len()
            > 0),
        StateView::Installing { .. } => n <= 1 && request.install.len() > 0,
        StateView::Listing { .. } | StateView::Unlisting { .. } => n <= 1 && request.remove.len()
            > 0,
        _ => n <= 1,
    }
}

/// Whether a session in `state` has its check behind it, and is not in the profile.
spec fn past_check(state: StateView) -> bool {
    match state {
        StateView::Suggesting { .. }
        | StateView::Shelling
        | StateView::Writing { .. }
        | StateView::Rebuilding { .. }
        | StateView::Finished => true,
        _ => false,
    }
}

proof fn lemma_judge_past(
    request: RequestView,
    names: Seq<Seq<char>>,
    gone: Seq<Seq<char>>,
    goal: GoalView,
)
    ensures
        ({
            let state = judge_step(request, names, gone, goal).state;
            past_check(state) || goal is Profile && state == StateView::Installing { request }
        }),
{
}

proof fn lemma_prepare_past(request: RequestView, lists: ListsView)
    ensures
        ({
            let state = prepare_step(request, lists).state;
            past_check(state) || state is Checking && state->goal is System
        }),
{
    let names = fresh(target(request, lists), request.install);
    lemma_judge_past(request, names, missing(names, None), GoalView::System(lists));
}

proof fn lemma_unlist_past(request: RequestView, at: nat)
    ensures
        ({
            let state = unlist_step(request, at).state;
            ||| past_check(state)
            ||| state is Listing && request.remove.len() > 0
        }),
{
}

proof fn lemma_dispatch_checked(request: RequestView)
    ensures
        ({
            let state = dispatch_step(request).state;
            checked(
                request,
                state,
                if state is Checking {
                    1
                } else {
                    0
                },
            )
        }),
{
    let names = request.install;
    lemma_judge_past(request, names, missing(names, None), GoalView::Shell);
    lemma_judge_past(request, names, missing(names, None), GoalView::Profile);
    lemma_unlist_past(request, 0);
}

proof fn lemma_next_checked(request: RequestView, state: StateView, event: EventView, n: nat)
    requires
        fits(state, event),
        request_of(state) matches Some(r) ==> r == request,
        checked(request, state, n),
    ensures
        ({
            let then = next_step(state, event).state;
            checked(
                request,
                then,
                if then is Checking {
                    n + 1
                } else {
                    n
                },
            )
        }),
{
    match state {
        StateView::Syncing { request } => {
            lemma_dispatch_checked(request);
        },
        StateView::Checking { request, names, goal } => {
            lemma_judge_past(request, names, missing(names, event->Existence_0), goal);
        },
        StateView::Installing { request } => {
            lemma_unlist_past(request, 0);
        },
        StateView::Unlisting { request, at } => {
            lemma_unlist_past(request, at + 1);
        },
        StateView::Finding { request } => {
            lemma_prepare_past(request, ListsView { packages: Seq::empty(), fonts: Seq::empty() });
        },
        StateView::Reading { request } => {
            if event->Read_0 is Ok {
                lemma_prepare_past(request, lists_in(event->Read_0->Ok_0));
            }
        },
        _ => {},
    }
}

proof fn lemma_checked(request: RequestView, events: Seq<EventView>)
    requires
        can_run(request, events),
    ensures
        checked(request, run(request, events).state, checks(request, events)),
    decreases events.len(),
{
    let f = |s: StepView| s.state is Checking;
    let step = run(request, events);
    if events.len() == 0 {
        lemma_dispatch_checked(request);
        Seq::<StepView>::empty().lemma_filter_push(step, f);
        assert(steps(request, events) == Seq::<StepView>::empty().push(step));
        assert(Seq::<StepView>::empty().filter(f).len() == 0) by {
            reveal(Seq::filter);
        }
    } else {
        let rest = events.drop_last();
        lemma_checked(request, rest);
        lemma_run(request, rest);
        lemma_next_checked(
            request,
            run(request, rest).state,
            events.last(),
            checks(request, rest),
        );
        steps(request, rest).lemma_filter_push(step, f);
    }
}

/// The names to install are checked once at most, all of them with one question.
pub proof fn law_one_check(request: RequestView, events: Seq<EventView>)
    requires
        can_run(request, events),
    ensures
        checks(request, events) <= 1,
{
    lemma_checked(request, events);
}

/// A temporary shell, and an installation to the user's profile, are started with names
/// that could be attribute paths and that nixpkgs was asked about; where there was an
/// answer, it was that they are there.
pub proof fn law_started_names_are_valid(request: RequestView, events: Seq<EventView>)
    requires
        can_run(request, events),
        run(request, events).state is Shelling || run(request, events).state is Installing,
    ensures
        forall|i: int| 0 <= i < request.install.len() ==> #[trigger] attr_name(request.install[i]),
        request.install.len() > 0 ==> {
            &&& events.len() > 0
            &&& events.last() matches EventView::Existence(flags) && (flags matches Some(fs)
                ==> fs.len() == request.install.len() && forall|i: int|
                0 <= i < fs.len() ==> #[trigger] fs[i] == Some(true))
        },
{
    let names = request.install;
    lemma_run(request, events);
    lemma_started(request, events);
    if names.len() > 0 {
        let flags = events.last()->Existence_0;
        assert forall|i: int| 0 <= i < names.len() implies #[trigger] attr_name(names[i]) by {
            lemma_apply_names(names, flags, i);
        }
        if flags is Some {
            assert(missing(names, flags) == Seq::<Seq<char>>::empty());
            law_all_valid(names, flags->0);
            lemma_filter_keeps(names, |n: Seq<char>| attr_name(n));
        }
    }
}

/// The names that are checked for a shell or for the profile are those of the request.
spec fn asks_for_all(request: RequestView, state: StateView) -> bool {
    state matches StateView::Checking { names, goal, .. } ==> goal is System || names
        == request.install
}

#[verifier::rlimit(40)]
proof fn lemma_started(request: RequestView, events: Seq<EventView>)
    requires
        can_run(request, events),
    ensures
        asks_for_all(request, run(request, events).state),
        (run(request, events).state is Shelling || run(request, events).state is Installing)
            && request.install.len() > 0 ==> {
            &&& events.len() > 0
            &&& events.last() matches EventView::Existence(flags) && answers(request.install, flags)
                && missing(request.install, flags).len() == 0
        },
    decreases events.len(),
{
    let names = request.install;
    if names.len() > 0 && checkable(names).len() == 0 && missing(names, None).len() == 0 {
        lemma_apply_names(names, None, 0);
        names.lemma_filter_contains(|n: Seq<char>| attr_name(n), 0);
    }
    if events.len() > 0 {
        lemma_started(request, events.drop_last());
        lemma_run(request, events.drop_last());
    }
}

/// What was asked for is what a session goes by to its end, and it deals with the profile
/// only where there are names for that.
pub proof fn law_request_is_kept(request: RequestView, events: Seq<EventView>)
    requires
        can_run(request, events),
    ensures
        request_of(run(request, events).state) matches Some(r) ==> r == request,
        run(request, events).state is Installing ==> request.install.len() > 0,
        run(request, events).state is Listing || run(request, events).state is Unlisting
            ==> request.remove.len() > 0,
{
    lemma_run(request, events);
    lemma_checked(request, events);
}

/// A rebuild with a change is entered from the write of that change only.
pub proof fn law_states_follow(state: StateView, event: EventView)
    requires
        fits(state, event),
    ensures
        next_step(state, event).state matches StateView::Rebuilding { written: Some(_), .. }
            ==> state is Writing,
{
    lemma_next_state(state, event);
}

/// The program ends where a session is finished, and nowhere else; at any time a session
/// waits for what its last step brings.
pub proof fn law_exit_is_the_end(request: RequestView, events: Seq<EventView>)
    requires
        can_run(request, events),
    ensures
        run(request, events).effect is Exit <==> run(request, events).state is Finished,
        waits_for_effect(run(request, events)),
{
    if events.len() == 0 {
        lemma_begin(request);
    } else {
        lemma_run(request, events.drop_last());
        lemma_next(request, run(request, events.drop_last()).state, events.last());
    }
}

} // verus!
