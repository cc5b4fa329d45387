//! What a session is asked, says, does and is told: the values that pass between the
//! decisions and the system.

use crate::order::all;
use crate::search::{Package, PackageView};
use crate::text::{opt_view, views};
use crate::validate::{flags_view, list_views};
use vstd::prelude::*;

verus! {

/// What the command line asks for.
#[derive(Debug, PartialEq, Eq)]
pub struct Request {
    pub profile: bool,
    pub temp: bool,
    pub font: bool,
    pub sync: bool,
    pub upgrade: bool,
    pub clean: bool,
    pub all: bool,
    pub install: Vec<String>,
    pub remove: Vec<String>,
    pub search: Vec<String>,
}

/// What the command line asks for, as a mathematical value.
pub struct RequestView {
    pub profile: bool,
    pub temp: bool,
    pub font: bool,
    pub sync: bool,
    pub upgrade: bool,
    pub clean: bool,
    pub all: bool,
    pub install: Seq<Seq<char>>,
    pub remove: Seq<Seq<char>>,
    pub search: Seq<Seq<char>>,
}

impl View for Request {
    type V = RequestView;

    open spec fn view(&self) -> RequestView {
        RequestView {
            profile: self.profile,
            temp: self.temp,
            font: self.font,
            sync: self.sync,
            upgrade: self.upgrade,
            clean: self.clean,
            all: self.all,
            install: views(self.install@),
            remove: views(self.remove@),
            search: views(self.search@),
        }
    }
}

/// Something to tell the user.
#[derive(Debug, PartialEq, Eq)]
pub enum Output {
    /// A line of standard output.
    Line(String),
    /// A text on standard output with no line feed behind it.
    Part(String),
    /// A line of standard error.
    Error(String),
}

/// Something to tell the user, as a mathematical value.
pub enum OutputView {
    Line(Seq<char>),
    Part(Seq<char>),
    Error(Seq<char>),
}

impl View for Output {
    type V = OutputView;

    open spec fn view(&self) -> OutputView {
        match *self {
            Output::Line(s) => OutputView::Line(s@),
            Output::Part(s) => OutputView::Part(s@),
            Output::Error(s) => OutputView::Error(s@),
        }
    }
}

/// Something to do.
#[derive(Debug, PartialEq, Eq)]
pub enum Effect {
    /// Run a program with the rights of root.
    Privileged { program: String, args: Vec<String> },
    /// Run a program with the rights of root and show its output as it comes.
    PrivilegedStreaming { program: String, args: Vec<String> },
    /// Run `nix`.
    Nix { args: Vec<String> },
    /// Run `nix` and show its output as it comes.
    NixStreaming { args: Vec<String> },
    /// Run `nix` and keep what it prints.
    NixOutput { args: Vec<String> },
    /// Find out whether `packages.conf` exists.
    FindPackages,
    /// Read `packages.conf`.
    ReadPackages,
    /// Write `packages.conf`.
    WritePackages { content: String },
    /// Read the system configuration.
    ReadConfig,
    /// End the program.
    Exit { success: bool },
}

/// Something to do, as a mathematical value.
pub enum EffectView {
    Privileged { program: Seq<char>, args: Seq<Seq<char>> },
    PrivilegedStreaming { program: Seq<char>, args: Seq<Seq<char>> },
    Nix { args: Seq<Seq<char>> },
    NixStreaming { args: Seq<Seq<char>> },
    NixOutput { args: Seq<Seq<char>> },
    FindPackages,
    ReadPackages,
    WritePackages { content: Seq<char> },
    ReadConfig,
    Exit { success: bool },
}

impl View for Effect {
    type V = EffectView;

    open spec fn view(&self) -> EffectView {
        match *self {
            Effect::Privileged { program, args } => EffectView::Privileged {
                program: program@,
                args: views(args@),
            },
            Effect::PrivilegedStreaming { program, args } => EffectView::PrivilegedStreaming {
                program: program@,
                args: views(args@),
            },
            Effect::Nix { args } => EffectView::Nix { args: views(args@) },
            Effect::NixStreaming { args } => EffectView::NixStreaming { args: views(args@) },
            Effect::NixOutput { args } => EffectView::NixOutput { args: views(args@) },
            Effect::FindPackages => EffectView::FindPackages,
            Effect::ReadPackages => EffectView::ReadPackages,
            Effect::WritePackages { content } => EffectView::WritePackages { content: content@ },
            Effect::ReadConfig => EffectView::ReadConfig,
            Effect::Exit { success } => EffectView::Exit { success },
        }
    }
}

/// What came of something that was done.
#[derive(Debug, PartialEq, Eq)]
pub enum Event {
    /// A program ended, with success or not.
    Done(bool),
    /// The packages that a search found.
    Found(Vec<Package>),
    /// What nixpkgs says of each name that it was asked about, if it could be asked.
    Existence(Option<Vec<Option<bool>>>),
    /// The names to suggest for each missing name.
    Suggested(Vec<Vec<String>>),
    /// The packages in the user's profile as `nix` lists them, if it could be asked.
    Listing(Option<String>),
    /// Whether `packages.conf` exists.
    Exists(bool),
    /// The text of `packages.conf`, or why it could not be read.
    Read(Result<String, String>),
    /// Whether `packages.conf` was written, or why not.
    Wrote(Result<(), String>),
    /// The text of the system configuration, if it could be read.
    Config(Option<String>),
}

/// What came of something that was done, as a mathematical value.
pub enum EventView {
    Done(bool),
    Found(Seq<PackageView>),
    Existence(Option<Seq<Option<bool>>>),
    Suggested(Seq<Seq<Seq<char>>>),
    Listing(Option<Seq<char>>),
    Exists(bool),
    Read(Result<Seq<char>, Seq<char>>),
    Wrote(Result<(), Seq<char>>),
    Config(Option<Seq<char>>),
}

/// The text in `s`, or the text of the error.
pub open spec fn read_view(s: Result<String, String>) -> Result<Seq<char>, Seq<char>> {
    match s {
        Ok(t) => Ok(t@),
        Err(e) => Err(e@),
    }
}

/// Success, or the text of the error.
pub open spec fn wrote_view(s: Result<(), String>) -> Result<(), Seq<char>> {
    match s {
        Ok(_) => Ok(()),
        Err(e) => Err(e@),
    }
}

impl View for Event {
    type V = EventView;

    open spec fn view(&self) -> EventView {
        match *self {
            Event::Done(ok) => EventView::Done(ok),
            Event::Found(packages) => EventView::Found(all(packages@)),
            Event::Existence(flags) => EventView::Existence(flags_view(flags)),
            Event::Suggested(lists) => EventView::Suggested(list_views(lists@)),
            Event::Listing(text) => EventView::Listing(opt_view(text)),
            Event::Exists(there) => EventView::Exists(there),
            Event::Read(text) => EventView::Read(read_view(text)),
            Event::Wrote(result) => EventView::Wrote(wrote_view(result)),
            Event::Config(text) => EventView::Config(opt_view(text)),
        }
    }
}

/// The two managed lists.
#[derive(Debug, PartialEq, Eq)]
pub struct Lists {
    pub packages: Vec<String>,
    pub fonts: Vec<String>,
}

/// The two managed lists, as a mathematical value.
pub struct ListsView {
    pub packages: Seq<Seq<char>>,
    pub fonts: Seq<Seq<char>>,
}

impl View for Lists {
    type V = ListsView;

    open spec fn view(&self) -> ListsView {
        ListsView { packages: views(self.packages@), fonts: views(self.fonts@) }
    }
}

/// A change to the managed lists that has been written.
#[derive(Debug, PartialEq, Eq)]
pub struct Change {
    /// The lists before the change.
    pub before: Lists,
    /// The names that were added.
    pub added: Vec<String>,
    /// The names that were removed.
    pub removed: Vec<String>,
}

/// A change to the managed lists, as a mathematical value.
pub struct ChangeView {
    pub before: ListsView,
    pub added: Seq<Seq<char>>,
    pub removed: Seq<Seq<char>>,
}

impl View for Change {
    type V = ChangeView;

    open spec fn view(&self) -> ChangeView {
        ChangeView {
            before: self.before@,
            added: views(self.added@),
            removed: views(self.removed@),
        }
    }
}

/// What the names that are being checked are wanted for.
#[derive(Debug, PartialEq, Eq)]
pub enum Goal {
    /// A temporary shell.
    Shell,
    /// The user's profile.
    Profile,
    /// The managed lists, which are these now.
    System(Lists),
}

/// What the names that are being checked are wanted for, as a mathematical value.
pub enum GoalView {
    Shell,
    Profile,
    System(ListsView),
}

impl View for Goal {
    type V = GoalView;

    open spec fn view(&self) -> GoalView {
        match *self {
            Goal::Shell => GoalView::Shell,
            Goal::Profile => GoalView::Profile,
            Goal::System(lists) => GoalView::System(lists@),
        }
    }
}

/// What a session waits for.
#[derive(Debug, PartialEq, Eq)]
pub enum State {
    /// The channels are being updated.
    Syncing { request: Request },
    /// nixpkgs is being searched.
    Searching { request: Request },
    /// Old generations are being deleted.
    Collecting,
    /// The bootloader is being updated.
    Booting,
    /// nixpkgs is being asked whether it has the names.
    Checking { request: Request, names: Vec<String>, goal: Goal },
    /// nixpkgs is being asked for its names, to find some for the missing ones.
    Suggesting { missing: Vec<String> },
    /// A temporary shell is open.
    Shelling,
    /// Packages are being installed to the user's profile.
    Installing { request: Request },
    /// The profile is being listed to find the name at this place in the request.
    Listing { request: Request, at: usize },
    /// The name at this place in the request is being removed from the profile.
    Unlisting { request: Request, at: usize },
    /// `packages.conf` is being looked for, to be created where it is not there.
    Locating { request: Request },
    /// `packages.conf` is being created.
    Creating { request: Request },
    /// The system configuration is being read.
    Importing { request: Request },
    /// `packages.conf` is being looked for, to be read where it is there.
    Finding { request: Request },
    /// `packages.conf` is being read.
    Reading { request: Request },
    /// The change is being written to `packages.conf`.
    Writing { request: Request, change: Change },
    /// The system is being rebuilt, with the change that was written, if any.
    Rebuilding { request: Request, written: Option<Change> },
    /// The lists before the change are being written to `packages.conf`.
    Restoring,
    /// Nothing is left to do.
    Finished,
}

/// What a session waits for, as a mathematical value.
pub enum StateView {
    Syncing { request: RequestView },
    Searching { request: RequestView },
    Collecting,
    Booting,
    Checking { request: RequestView, names: Seq<Seq<char>>, goal: GoalView },
    Suggesting { missing: Seq<Seq<char>> },
    Shelling,
    Installing { request: RequestView },
    Listing { request: RequestView, at: nat },
    Unlisting { request: RequestView, at: nat },
    Locating { request: RequestView },
    Creating { request: RequestView },
    Importing { request: RequestView },
    Finding { request: RequestView },
    Reading { request: RequestView },
    Writing { request: RequestView, change: ChangeView },
    Rebuilding { request: RequestView, written: Option<ChangeView> },
    Restoring,
    Finished,
}

/// The change in `c`, if any.
pub open spec fn change_view(c: Option<Change>) -> Option<ChangeView> {
    match c {
        Some(change) => Some(change@),
        None => None,
    }
}

impl View for State {
    type V = StateView;

    open spec fn view(&self) -> StateView {
        match *self {
            State::Syncing { request } => StateView::Syncing { request: request@ },
            State::Searching { request } => StateView::Searching { request: request@ },
            State::Collecting => StateView::Collecting,
            State::Booting => StateView::Booting,
            State::Checking { request, names, goal } => StateView::Checking {
                request: request@,
                names: views(names@),
                goal: goal@,
            },
            State::Suggesting { missing } => StateView::Suggesting { missing: views(missing@) },
            State::Shelling => StateView::Shelling,
            State::Installing { request } => StateView::Installing { request: request@ },
            State::Listing { request, at } => StateView::Listing {
                request: request@,
                at: at as nat,
            },
            State::Unlisting { request, at } => StateView::Unlisting {
                request: request@,
                at: at as nat,
            },
            State::Locating { request } => StateView::Locating { request: request@ },
            State::Creating { request } => StateView::Creating { request: request@ },
            State::Importing { request } => StateView::Importing { request: request@ },
            State::Finding { request } => StateView::Finding { request: request@ },
            State::Reading { request } => StateView::Reading { request: request@ },
            State::Writing { request, change } => StateView::Writing {
                request: request@,
                change: change@,
            },
            State::Rebuilding { request, written } => StateView::Rebuilding {
                request: request@,
                written: change_view(written),
            },
            State::Restoring => StateView::Restoring,
            State::Finished => StateView::Finished,
        }
    }
}

/// What to tell the user, then what to do, and what the session waits for then.
#[derive(Debug, PartialEq, Eq)]
pub struct Step {
    pub output: Vec<Output>,
    pub effect: Effect,
    pub state: State,
}

/// A step of a session, as a mathematical value.
#[verifier::ext_equal]
pub struct StepView {
    pub output: Seq<OutputView>,
    pub effect: EffectView,
    pub state: StateView,
}

impl View for Step {
    type V = StepView;

    open spec fn view(&self) -> StepView {
        StepView { output: all(self.output@), effect: self.effect@, state: self.state@ }
    }
}

} // verus!
