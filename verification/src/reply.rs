//! What the system hands back, and what a session makes of it.

use crate::command::{lossy, nix_output};
use crate::request::{
    read_view, wrote_view, EffectView, Event, EventView, RequestView, State, StateView, Step,
};
use crate::search::{packages_in, search_nixpkgs};
use crate::session::{advance, fits, next_step};
use crate::session_laws::{can_run, law_exit_is_the_end, run};
use crate::suggest::{attr_name, suggested, suggestions};
use crate::text::{opt_view, views};
use crate::validate::{
    attrs_in, checkable, checkable_names, existence_flags, flags_in, list_views,
    nixpkgs_attr_names,
};
use vstd::prelude::*;
use vstd::string::*;

verus! {

/// What the system hands back after something was done.
#[derive(Debug, PartialEq, Eq)]
pub enum Reply {
    /// A program ended, with success or not.
    Done(bool),
    /// What a program printed, if it could be run.
    Printed(Option<Vec<u8>>),
    /// Whether `packages.conf` exists.
    Exists(bool),
    /// The text of `packages.conf`, or why it could not be read.
    Read(Result<String, String>),
    /// Whether `packages.conf` was written, or why not.
    Wrote(Result<(), String>),
    /// The text of the system configuration, if it could be read.
    Config(Option<String>),
}

/// What the system hands back, as a mathematical value.
pub enum ReplyView {
    Done(bool),
    Printed(Option<Seq<u8>>),
    Exists(bool),
    Read(Result<Seq<char>, Seq<char>>),
    Wrote(Result<(), Seq<char>>),
    Config(Option<Seq<char>>),
}

/// The bytes in `b`, if any.
pub open spec fn bytes_view(b: Option<Vec<u8>>) -> Option<Seq<u8>> {
    match b {
        Some(v) => Some(v@),
        None => None,
    }
}

impl View for Reply {
    type V = ReplyView;

    open spec fn view(&self) -> ReplyView {
        match *self {
            Reply::Done(ok) => ReplyView::Done(ok),
            Reply::Printed(bytes) => ReplyView::Printed(bytes_view(bytes)),
            Reply::Exists(there) => ReplyView::Exists(there),
            Reply::Read(text) => ReplyView::Read(read_view(text)),
            Reply::Wrote(result) => ReplyView::Wrote(wrote_view(result)),
            Reply::Config(text) => ReplyView::Config(opt_view(text)),
        }
    }
}

/// The text in the bytes that were printed, if any were.
pub open spec fn printed_text(bytes: Option<Seq<u8>>) -> Option<Seq<char>> {
    match bytes {
        Some(b) => Some(lossy(b)),
        None => None,
    }
}

/// Whether `reply` is what a session in `state` waits for.
pub open spec fn awaits(state: StateView, reply: ReplyView) -> bool {
    match state {
        StateView::Syncing { .. }
        | StateView::Collecting
        | StateView::Booting
        | StateView::Shelling
        | StateView::Installing { .. }
        | StateView::Rebuilding { .. } => reply is Done,
        StateView::Searching { .. }
        | StateView::Checking { .. }
        | StateView::Suggesting { .. } => reply is Printed,
        StateView::Listing { request, at } => reply is Printed && at < request.remove.len(),
        StateView::Unlisting { request, at } => reply is Done && at < request.remove.len(),
        StateView::Locating { .. } | StateView::Finding { .. } => reply is Exists,
        StateView::Creating { .. }
        | StateView::Writing { .. }
        | StateView::Restoring => reply is Wrote,
        StateView::Importing { .. } => reply is Config,
        StateView::Reading { .. } => reply is Read,
        StateView::Finished => false,
    }
}

/// What `reply` means to a session in `state`: what a program printed is read as the
/// session needs it.
pub open spec fn understood(state: StateView, reply: ReplyView) -> EventView {
    match reply {
        ReplyView::Done(ok) => EventView::Done(ok),
        ReplyView::Printed(bytes) => {
            let text = printed_text(bytes);
            match state {
                StateView::Searching { .. } => EventView::Found(
                    packages_in(
                        match text {
                            Some(t) => t,
                            None => Seq::empty(),
                        },
                    ),
                ),
                StateView::Checking { names, .. } => EventView::Existence(
                    flags_in(text, checkable(names)),
                ),
                StateView::Suggesting { missing } => EventView::Suggested(
                    missing.map_values(|n: Seq<char>| suggested(n, attrs_in(text))),
                ),
                _ => EventView::Listing(text),
            }
        },
        ReplyView::Exists(there) => EventView::Exists(there),
        ReplyView::Read(text) => EventView::Read(text),
        ReplyView::Wrote(result) => EventView::Wrote(result),
        ReplyView::Config(text) => EventView::Config(text),
    }
}

/// The names to suggest for each of `missing`, out of `attrs`.
fn suggestions_for(missing: &Vec<String>, attrs: &Vec<String>) -> (r: Vec<Vec<String>>)
    ensures
        list_views(r@) == views(missing@).map_values(
            |n: Seq<char>| suggested(n, views(attrs@)),
        ),
{
    let mut out: Vec<Vec<String>> = Vec::new();
    let ghost s = views(missing@);
    let ghost g = |n: Seq<char>| suggested(n, views(attrs@));
    for i in 0..missing.len()
        invariant
            s == views(missing@),
            g == (|n: Seq<char>| suggested(n, views(attrs@))),
            list_views(out@) == s.take(i as int).map_values(g),
    {
        let names = suggestions(missing[i].as_str(), attrs);
        proof {
            assert(s.take(i + 1).map_values(g) == s.take(i as int).map_values(g).push(
                views(names@),
            ));
            assert(list_views(out@.push(names)) == list_views(out@).push(views(names@)));
        }
        out.push(names);
    }
    assert(s.take(missing@.len() as int) == s);
    out
}

/// What `reply` means to a session in `state`.
pub fn interpret(state: &State, reply: Reply) -> (r: Event)
    ensures
        r@ == understood(state@, reply@),
{
    match reply {
        Reply::Done(ok) => Event::Done(ok),
        Reply::Printed(bytes) => {
            let text = nix_output(&bytes);
            assert(opt_view(text) == printed_text(bytes_view(bytes)));
            match state {
                State::Searching { .. } => {
                    let output = match text {
                        Some(t) => t,
                        None => String::new(),
                    };
                    Event::Found(search_nixpkgs(output.as_str()))
                },
                State::Checking { names, .. } => {
                    let known = checkable_names(names);
                    Event::Existence(existence_flags(&text, &known))
                },
                State::Suggesting { missing } => {
                    let attrs = nixpkgs_attr_names(&text);
                    let lists = suggestions_for(missing, &attrs);
                    proof {
                        let t = opt_view(text);
                        let g = |n: Seq<char>| suggested(n, views(attrs@));
                        let h = |n: Seq<char>| suggested(n, attrs_in(t));
                        assert(g =~= h);
                    }
                    Event::Suggested(lists)
                },
                _ => Event::Listing(text),
            }
        },
        Reply::Exists(there) => Event::Exists(there),
        Reply::Read(text) => Event::Read(text),
        Reply::Wrote(result) => Event::Wrote(result),
        Reply::Config(text) => Event::Config(text),
    }
}

/// A reply that a session waits for means an event that it waits for.
pub proof fn law_reply_fits(state: StateView, reply: ReplyView)
    requires
        awaits(state, reply),
    ensures
        fits(state, understood(state, reply)),
{
}

/// Whether `reply` is what a session in `state` waits for.
pub fn is_awaited(state: &State, reply: &Reply) -> (r: bool)
    ensures
        r == awaits(state@, reply@),
{
    match (state, reply) {
        (State::Syncing { .. }, Reply::Done(_)) => true,
        (State::Collecting, Reply::Done(_)) => true,
        (State::Booting, Reply::Done(_)) => true,
        (State::Shelling, Reply::Done(_)) => true,
        (State::Installing { .. }, Reply::Done(_)) => true,
        (State::Rebuilding { .. }, Reply::Done(_)) => true,
        (State::Searching { .. }, Reply::Printed(_)) => true,
        (State::Checking { .. }, Reply::Printed(_)) => true,
        (State::Suggesting { .. }, Reply::Printed(_)) => true,
        (State::Listing { request, at }, Reply::Printed(_)) => *at < request.remove.len(),
        (State::Unlisting { request, at }, Reply::Done(_)) => *at < request.remove.len(),
        (State::Locating { .. }, Reply::Exists(_)) => true,
        (State::Finding { .. }, Reply::Exists(_)) => true,
        (State::Creating { .. }, Reply::Wrote(_)) => true,
        (State::Writing { .. }, Reply::Wrote(_)) => true,
        (State::Restoring, Reply::Wrote(_)) => true,
        (State::Importing { .. }, Reply::Config(_)) => true,
        (State::Reading { .. }, Reply::Read(_)) => true,
        _ => false,
    }
}

/// The step that follows when `reply` comes to a session in `state`.
pub fn resume(state: State, reply: Reply) -> (r: Step)
    requires
        awaits(state@, reply@),
    ensures
        r@ == next_step(state@, understood(state@, reply@)),
{
    proof {
        law_reply_fits(state@, reply@);
    }
    let event = interpret(&state, reply);
    advance(state, event)
}

/// What a program printed is read for what it was run for: packages after a search, answers
/// about the checkable names after a check, suggestions for each missing name, and the text
/// itself for a listing. Every other reply means what it says.
pub proof fn law_replies_are_understood(
    state: StateView,
    bytes: Option<Seq<u8>>,
    reply: ReplyView,
    i: int,
)
    ensures
        printed_text(None) is None,
        bytes matches Some(b) ==> printed_text(bytes) == Some(lossy(b)),
        state is Searching ==> understood(state, ReplyView::Printed(bytes)) == EventView::Found(
            packages_in(
                match bytes {
                    Some(b) => lossy(b),
                    None => Seq::empty(),
                },
            ),
        ),
        state matches StateView::Checking { names, .. } ==> understood(
            state,
            ReplyView::Printed(bytes),
        ) == EventView::Existence(
            flags_in(printed_text(bytes), names.filter(|n: Seq<char>| attr_name(n))),
        ),
        state matches StateView::Suggesting { missing } ==> {
            &&& understood(state, ReplyView::Printed(bytes)) is Suggested
            &&& understood(state, ReplyView::Printed(bytes))->Suggested_0.len() == missing.len()
            &&& 0 <= i < missing.len() ==> understood(
                state,
                ReplyView::Printed(bytes),
            )->Suggested_0[i] == suggested(missing[i], attrs_in(printed_text(bytes)))
        },
        state is Listing ==> understood(state, ReplyView::Printed(bytes)) == EventView::Listing(
            printed_text(bytes),
        ),
        match reply {
            ReplyView::Done(ok) => understood(state, reply) == EventView::Done(ok),
            ReplyView::Exists(there) => understood(state, reply) == EventView::Exists(there),
            ReplyView::Read(text) => understood(state, reply) == EventView::Read(text),
            ReplyView::Wrote(result) => understood(state, reply) == EventView::Wrote(result),
            ReplyView::Config(text) => understood(state, reply) == EventView::Config(text),
            ReplyView::Printed(_) => true,
        },
{
}

/// Whatever comes of what a session does, the session waits for it: the end of a program
/// that is run, the output of one that is asked, whether the file is there, its text, what
/// became of a write, or the text of the configuration.
pub proof fn law_what_comes_is_awaited(
    request: RequestView,
    events: Seq<EventView>,
    ok: bool,
    bytes: Option<Seq<u8>>,
    text: Result<Seq<char>, Seq<char>>,
    result: Result<(), Seq<char>>,
    config: Option<Seq<char>>,
)
    requires
        can_run(request, events),
    ensures
        ({
            let step = run(request, events);
            match step.effect {
                EffectView::Privileged { .. }
                | EffectView::PrivilegedStreaming { .. }
                | EffectView::Nix { .. }
                | EffectView::NixStreaming { .. } => awaits(step.state, ReplyView::Done(ok)),
                EffectView::NixOutput { .. } => awaits(step.state, ReplyView::Printed(bytes)),
                EffectView::FindPackages => awaits(step.state, ReplyView::Exists(ok)),
                EffectView::ReadPackages => awaits(step.state, ReplyView::Read(text)),
                EffectView::WritePackages { .. } => awaits(step.state, ReplyView::Wrote(result)),
                EffectView::ReadConfig => awaits(step.state, ReplyView::Config(config)),
                EffectView::Exit { .. } => step.state is Finished,
            }
        }),
{
    law_exit_is_the_end(request, events);
}

} // verus!
