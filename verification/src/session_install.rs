//! What an installation comes to: which names are checked and written, and what a session
//! has done when it ends with success.

use crate::conf::conf_text;
use crate::plan::{fresh, law_fresh, law_fresh_in_order};
use crate::request::{
    ChangeView, EffectView, EventView, GoalView, ListsView, OutputView, RequestView, StateView,
    StepView,
};
use crate::session::{begin_step, fits, lists_in, next_step};
use crate::session_cases::{
    can_go, carries_out, is_first_unmanaged, is_outcome, is_question, law_names_are_used,
    law_new_names_are_checked, lines_for, list_of,
};
use crate::session_laws::{
    can_run, law_exit_is_the_end, law_request_is_kept, law_states_follow, lists_found, run,
};
use crate::validate::missing;
use vstd::prelude::*;

verus! {

/// Whether the request is about the system: no search, no cleaning, no temporary shell and
/// not the user's profile.
pub open spec fn is_about_system(request: RequestView) -> bool {
    request.search.len() == 0 && !request.clean && !request.temp && !request.profile
}

/// Whether `names` are the names to install that `list` does not hold: each of them, once,
/// in the order in which they were asked for.
pub open spec fn are_new(
    names: Seq<Seq<char>>,
    list: Seq<Seq<char>>,
    install: Seq<Seq<char>>,
) -> bool {
    &&& names.no_duplicates()
    &&& forall|n: Seq<char>|
        #[trigger] names.contains(n) <==> install.contains(n) && !list.contains(n)
    &&& exists|at: Seq<int>| #[trigger] are_places(at, names, install)
}

/// Whether `at` are the places of `names` among `install`, one behind the other.
pub open spec fn are_places(
    at: Seq<int>,
    names: Seq<Seq<char>>,
    install: Seq<Seq<char>>,
) -> bool {
    &&& at.len() == names.len()
    &&& forall|i: int|
        0 <= i < at.len() ==> 0 <= #[trigger] at[i] < install.len() && names[i] == install[at[i]]
    &&& forall|i: int, j: int| 0 <= i < j < at.len() ==> #[trigger] at[i] < #[trigger] at[j]
}

proof fn lemma_new(list: Seq<Seq<char>>, install: Seq<Seq<char>>)
    ensures
        are_new(fresh(list, install), list, install),
{
    law_fresh(list, install);
    let at = law_fresh_in_order(list, install);
    assert(are_places(at, fresh(list, install), install));
}

/// Whether there is nothing to change.
spec fn nothing_to_do(request: RequestView, found: Option<ListsView>) -> bool {
    ||| request.install.len() == 0 && request.remove.len() == 0
    ||| found is Some && fresh(list_of(request, found->0), request.install).len() == 0
        && request.remove.len() == 0
}

spec fn is_planned(request: RequestView, found: Option<ListsView>, change: ChangeView) -> bool {
    &&& found == Some(change.before)
    &&& change.added == fresh(list_of(request, change.before), request.install)
    &&& change.removed == request.remove
    &&& change.added.len() > 0 || change.removed.len() > 0
}

/// Where a session about the system can be.
spec fn on_course(request: RequestView, found: Option<ListsView>, step: StepView) -> bool {
    match step.state {
        StateView::Syncing { .. }
        | StateView::Suggesting { .. }
        | StateView::Restoring => true,
        StateView::Locating { .. }
        | StateView::Creating { .. }
        | StateView::Importing { .. }
        | StateView::Finding { .. }
        | StateView::Reading { .. } => true,
        StateView::Checking { names, goal, .. } => {
            &&& found is Some
            &&& goal == GoalView::System(found->0)
            &&& names == fresh(list_of(request, found->0), request.install)
            &&& names.len() > 0
        },
        StateView::Writing { change, .. } => is_planned(request, found, change) && exists|
            now: ListsView,
        | #[trigger]
            is_outcome(now, request, change.before, change.added) && step.effect == (
            EffectView::WritePackages { content: conf_text(now.packages, now.fonts) }),
        StateView::Rebuilding { written: Some(change), .. } => is_planned(request, found, change),
        StateView::Rebuilding { written: None, .. } => nothing_to_do(request, found),
        StateView::Finished => step.effect == (EffectView::Exit { success: true })
            ==> nothing_to_do(request, found),
        _ => false,
    }
}

proof fn lemma_carried_out(
    request: RequestView,
    lists: ListsView,
    names: Seq<Seq<char>>,
    told: Seq<OutputView>,
    step: StepView,
)
    requires
        carries_out(step, request, lists, names, told),
        names == fresh(list_of(request, lists), request.install),
    ensures
        on_course(request, Some(lists), step),
{
    lemma_some_unmanaged(request, lists, names);
    if exists|k: int| #[trigger] is_first_unmanaged(request, lists, names, k) {
        let k = choose|k: int| #[trigger] is_first_unmanaged(request, lists, names, k);
        assert(is_first_unmanaged(request, lists, names, k));
        assert(step.effect == (EffectView::Exit { success: false }));
    } else if names.len() > 0 || request.remove.len() > 0 {
        let now = choose|now: ListsView| #[trigger]
            is_outcome(now, request, lists, names) && step.effect == (EffectView::WritePackages {
                content: conf_text(now.packages, now.fonts),
            });
        assert(is_outcome(now, request, lists, names));
    }
}

/// Either every name to remove can go, or there is a first that cannot.
proof fn lemma_some_unmanaged(request: RequestView, lists: ListsView, names: Seq<Seq<char>>)
    ensures
        (forall|i: int|
            0 <= i < request.remove.len() ==> #[trigger] can_go(
                request,
                lists,
                names,
                i,
            )) || exists|k: int| #[trigger]
            is_first_unmanaged(request, lists, names, k),
{
    if exists|i: int|
        0 <= i < request.remove.len() && !#[trigger] can_go(
            request,
            lists,
            names,
            i,
        ) {
        let i = choose|i: int|
            0 <= i < request.remove.len() && !#[trigger] can_go(
                request,
                lists,
                names,
                i,
            );
        lemma_first_unmanaged(request, lists, names, i);
    }
}

proof fn lemma_first_unmanaged(
    request: RequestView,
    lists: ListsView,
    names: Seq<Seq<char>>,
    i: int,
)
    requires
        0 <= i < request.remove.len(),
        !can_go(request, lists, names, i),
    ensures
        exists|k: int| #[trigger]
            is_first_unmanaged(request, lists, names, k),
    decreases i,
{
    if exists|j: int| 0 <= j < i && !#[trigger] can_go(request, lists, names, j) {
        let j = choose|j: int|
            0 <= j < i && !#[trigger] can_go(request, lists, names, j);
        lemma_first_unmanaged(request, lists, names, j);
    } else {
        assert(is_first_unmanaged(request, lists, names, i));
    }
}

/// From the step before to the next, a session about the system stays on course, but for
/// the end of a rebuild with a change.
#[verifier::rlimit(40)]
proof fn lemma_on_course(request: RequestView, events: Seq<EventView>)
    requires
        is_about_system(request),
        can_run(request, events),
    ensures
        on_course(request, lists_found(request, events), run(request, events)) || events.len() > 0
            && run(request, events.drop_last()).state matches StateView::Rebuilding {
            written: Some(_),
            ..
        },
        events.len() > 0 ==> on_course(
            request,
            lists_found(request, events.drop_last()),
            run(request, events.drop_last()),
        ) || run(request, events.drop_last()).state is Restoring || run(
            request,
            events.drop_last(),
        ).state is Finished,
    decreases events.len(),
{
    if events.len() > 0 {
        let rest = events.drop_last();
        let state = run(request, rest).state;
        let event = events.last();
        lemma_on_course(request, rest);
        law_request_is_kept(request, rest);
        assert(events == rest.push(event));
        if rest.len() > 0 && (run(request, rest.drop_last()).state matches StateView::Rebuilding {
            written: Some(_),
            ..
        }) {
            assert(state is Restoring || state is Finished);
        }
        match state {
            StateView::Reading { .. } => {
                if event->Read_0 is Ok {
                    let text = event->Read_0->Ok_0;
                    law_new_names_are_checked(request, rest, text, lists_in(text));
                    lemma_after_lists(request, rest, event, lists_in(text));
                }
            },
            StateView::Finding { .. } => {
                let none = ListsView { packages: Seq::empty(), fonts: Seq::empty() };
                if !event->Exists_0 {
                    law_new_names_are_checked(request, rest, Seq::empty(), none);
                    lemma_after_lists(request, rest, event, none);
                }
            },
            StateView::Checking { names, goal, .. } => {
                let flags = event->Existence_0;
                law_names_are_used(request, rest, flags);
                if missing(names, flags).len() == 0 {
                    let lists = goal->System_0;
                    let told: Seq<OutputView> = if flags is None {
                        seq![
                            OutputView::Error(
                                "[spin] Warning: could not reach nixpkgs to validate names — skipping check."@,
                            ),
                        ]
                    } else {
                        seq![]
                    };
                    lemma_carried_out(request, lists, names, told, run(request, events));
                }
            },
            _ => {},
        }
    }
}

proof fn lemma_after_lists(
    request: RequestView,
    rest: Seq<EventView>,
    event: EventView,
    lists: ListsView,
)
    requires
        ({
            let step = run(request, rest.push(event));
            let list = list_of(request, lists);
            let names = fresh(list, request.install);
            let told = lines_for(
                request.install.filter(|n: Seq<char>| list.contains(n)),
                "[spin] "@ + (if request.font {
                    "Font"@
                } else {
                    "Package"@
                }) + " '"@,
                "' is already installed."@,
            );
            &&& names.len() > 0 ==> is_question(
                step,
                request,
                names,
                GoalView::System(lists),
                told,
            )
            &&& names.len() == 0 ==> carries_out(
                step,
                request,
                lists,
                names,
                told,
            )
        }),
    ensures
        on_course(request, Some(lists), run(request, rest.push(event))),
{
    let list = list_of(request, lists);
    let names = fresh(list, request.install);
    let told = lines_for(
        request.install.filter(|n: Seq<char>| list.contains(n)),
        "[spin] "@ + (if request.font {
            "Font"@
        } else {
            "Package"@
        }) + " '"@,
        "' is already installed."@,
    );
    if names.len() == 0 {
        lemma_carried_out(request, lists, names, told, run(request, rest.push(event)));
    }
}

/// The names that a session about the system has checked, and those that it then adds in
/// the step that writes, are the new ones: each name to install that the list, as it was
/// found, does not hold, once and in order, whatever else is asked for.
pub proof fn law_new_names_are_added(
    request: RequestView,
    events: Seq<EventView>,
    name: Seq<char>,
)
    requires
        is_about_system(request),
        can_run(request, events),
    ensures
        run(request, events).state matches StateView::Checking { names, .. } ==> {
            &&& lists_found(request, events) is Some
            &&& are_new(
                names,
                list_of(request, lists_found(request, events)->0),
                request.install,
            )
        },
        run(request, events).state matches StateView::Writing { change, .. } ==> {
            &&& lists_found(request, events) == Some(change.before)
            &&& are_new(change.added, list_of(request, change.before), request.install)
            &&& change.removed == request.remove
            &&& exists|now: ListsView| #[trigger]
                is_outcome(now, request, change.before, change.added) && run(request, events).effect
                    == (EffectView::WritePackages { content: conf_text(now.packages, now.fonts) })
                    && (list_of(request, now).contains(name) <==> (list_of(
                    request,
                    change.before,
                ).contains(name) || request.install.contains(name)) && !request.remove.contains(
                    name,
                ))
        },
{
    lemma_on_course(request, events);
    if run(request, events).state is Writing {
        if events.len() > 0 {
            lemma_no_write_after_rebuild(request, events);
        }
        lemma_written_holds(request, run(request, events), name);
    }
    if lists_found(request, events) is Some {
        lemma_new(list_of(request, lists_found(request, events)->0), request.install);
    }
}

/// A session about the system with names to install or to remove ends with success only
/// when the lists were found, and where there was anything to change, only when the system
/// was rebuilt with the change: every new name added and every name to remove taken out.
#[verifier::rlimit(60)]
pub proof fn law_success_needs_the_change(request: RequestView, events: Seq<EventView>)
    requires
        is_about_system(request),
        request.install.len() > 0 || request.remove.len() > 0,
        can_run(request, events),
        run(request, events).effect == (EffectView::Exit { success: true }),
    ensures
        lists_found(request, events) is Some,
        ({
            let before = lists_found(request, events)->0;
            let list = list_of(request, before);
            request.remove.len() > 0 || (exists|i: int|
                0 <= i < request.install.len() && !list.contains(#[trigger] request.install[i]))
                ==> {
                &&& events.len() > 0
                &&& events.last() == EventView::Done(true)
                &&& run(request, events.drop_last()).state matches StateView::Rebuilding {
                    written: Some(change),
                    ..
                } && change.before == before && change.removed == request.remove && are_new(
                    change.added,
                    list,
                    request.install,
                )
            }
        }),
{
    lemma_on_course(request, events);
    let found = lists_found(request, events);
    if on_course(request, found, run(request, events)) {
        assert(run(request, events).state is Finished) by {
            law_exit_is_the_end(request, events);
        }
        lemma_done_with_nothing(request, found);
    } else {
        lemma_success_after_rebuild(run(request, events.drop_last()).state, events.last());
        lemma_found_kept(request, events);
        let change = run(request, events.drop_last()).state->written->0;
        lemma_new(list_of(request, change.before), request.install);
    }
}

proof fn lemma_done_with_nothing(request: RequestView, found: Option<ListsView>)
    requires
        nothing_to_do(request, found),
        request.install.len() > 0 || request.remove.len() > 0,
    ensures
        found is Some,
        request.remove.len() == 0,
        forall|i: int|
            0 <= i < request.install.len() ==> list_of(request, found->0).contains(
                #[trigger] request.install[i],
            ),
{
    let list = list_of(request, found->0);
    law_fresh(list, request.install);
    assert forall|i: int| 0 <= i < request.install.len() implies list.contains(
        #[trigger] request.install[i],
    ) by {
        assert(request.install.contains(request.install[i]));
        assert(!fresh(list, request.install).contains(request.install[i]));
    }
}

proof fn lemma_success_after_rebuild(state: StateView, event: EventView)
    requires
        fits(state, event),
        state is Rebuilding,
        next_step(state, event).effect == (EffectView::Exit { success: true }),
    ensures
        event == EventView::Done(true),
{
}

proof fn lemma_found_kept(request: RequestView, events: Seq<EventView>)
    requires
        events.len() > 0,
        !(run(request, events.drop_last()).state is Reading),
        !(run(request, events.drop_last()).state is Finding),
    ensures
        lists_found(request, events) == lists_found(request, events.drop_last()),
{
}

proof fn lemma_written_holds(request: RequestView, step: StepView, name: Seq<char>)
    requires
        step.state is Writing,
        on_course(request, Some(step.state->change.before), step),
    ensures
        ({
            let change = step.state->change;
            exists|now: ListsView| #[trigger]
                is_outcome(now, request, change.before, change.added) && step.effect == (
                EffectView::WritePackages { content: conf_text(now.packages, now.fonts) }) && (
                list_of(request, now).contains(name) <==> (list_of(request, change.before).contains(
                    name,
                ) || request.install.contains(name)) && !request.remove.contains(name))
        }),
{
    let change = step.state->change;
    let now = choose|now: ListsView| #[trigger]
        is_outcome(now, request, change.before, change.added) && step.effect == (
        EffectView::WritePackages { content: conf_text(now.packages, now.fonts) });
    lemma_outcome_holds(now, request, change.before, change.added, name);
    law_fresh(list_of(request, change.before), request.install);
    assert(fresh(list_of(request, change.before), request.install).contains(name)
        <==> request.install.contains(name) && !list_of(request, change.before).contains(name));
    assert(is_outcome(now, request, change.before, change.added));
}

/// Nothing is written as a change once the system was rebuilt.
proof fn lemma_no_write_after_rebuild(request: RequestView, events: Seq<EventView>)
    requires
        can_run(request, events),
        events.len() > 0,
        run(request, events).state is Writing,
    ensures
        !(run(request, events.drop_last()).state is Rebuilding),
{
    let state = run(request, events.drop_last()).state;
    if state is Rebuilding {
        assert(run(request, events) == next_step(state, events.last()));
    }
}

proof fn lemma_begin_has_no_change(request: RequestView)
    requires
        is_about_system(request),
    ensures
        !(begin_step(request).state is Writing),
        !(begin_step(request).state is Rebuilding && begin_step(request).state->written is Some),
{
}

/// A rebuild with a change comes right after the change was written, and only then.
pub proof fn law_rebuild_follows_write(request: RequestView, events: Seq<EventView>)
    requires
        is_about_system(request),
        can_run(request, events),
        run(request, events).state matches StateView::Rebuilding { written: Some(_), .. },
    ensures
        events.len() > 0,
        run(request, events.drop_last()).state is Writing,
        Some(run(request, events.drop_last()).state->change) == run(request, events).state->written,
        events.last() == EventView::Wrote(Ok(())),
{
    if events.len() == 0 {
        lemma_begin_has_no_change(request);
    }
    let rest = events.drop_last();
    let state = run(request, rest).state;
    lemma_on_course(request, rest);
    law_request_is_kept(request, rest);
    law_states_follow(state, events.last());
    match events.last() {
        EventView::Wrote(Ok(u)) => {
            assert(u == ());
        },
        _ => {},
    }
}

proof fn lemma_outcome_holds(
    now: ListsView,
    request: RequestView,
    lists: ListsView,
    names: Seq<Seq<char>>,
    name: Seq<char>,
)
    requires
        is_outcome(now, request, lists, names),
    ensures
        list_of(request, now).contains(name) <==> (list_of(request, lists).contains(name)
            || names.contains(name)) && !request.remove.contains(name),
{
    broadcast use vstd::seq_lib::group_to_multiset_ensures;

    let list = list_of(request, now);
    assert(list.to_multiset().count(name) > 0 <==> list.contains(name));
    assert(list_of(request, lists).to_multiset().count(name) > 0 <==> list_of(
        request,
        lists,
    ).contains(name));
    assert(names.to_multiset().count(name) > 0 <==> names.contains(name));
}

} // verus!
