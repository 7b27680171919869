//! What passes between the executor and its caller: the actions that the
//! executor asks for and the events that answer them.

use vstd::prelude::*;
use vstd::string::*;
use crate::builtins::{Effect, EffectView, Line};

verus! {

/// Where a child process reads its standard input from.
#[derive(Debug, Clone)]
pub enum Source {
    /// The shell's own standard input.
    Inherit,
    /// The named file, opened for reading.
    File(String),
    /// The standard output of the child spawned just before.
    Pipe,
}

/// Where a child process writes its standard output to.
#[derive(Debug, Clone)]
pub enum Sink {
    /// The shell's own standard output.
    Inherit,
    /// The named file, created if missing; appended to, or else emptied first.
    File { path: String, append: bool },
    /// A new pipe, read by the child spawned next.
    Pipe,
}

/// A request to start one process.
#[derive(Debug, Clone)]
pub struct Spawn {
    /// The program, followed by its arguments.
    pub argv: Vec<String>,
    pub stdin: Source,
    pub stdout: Sink,
}

/// How a child process ended.
#[derive(Debug, Clone, Copy, PartialEq, Eq, Structural)]
pub enum Exit {
    /// It exited with this code. The status recorded for it is the code
    /// reduced to the range from 0 to 255.
    Code(i32),
    /// A signal ended it.
    Signal,
    /// Waiting for it failed.
    Unknown,
}

/// What the caller is asked to do next.
#[derive(Debug, Clone)]
pub enum Action {
    /// Carry out what is left of a builtin; answer with [`Event::Status`].
    Builtin(Effect),
    /// Find out whether one of these paths is an executable file; answer with
    /// [`Event::Resolved`].
    Resolve(Vec<String>),
    /// Open the redirections and start the process; answer with
    /// [`Event::Spawned`], or with the failure that came first.
    Spawn(Spawn),
    /// Wait for the oldest child not yet waited for; answer with
    /// [`Event::Exited`].
    Wait,
    /// The list is done. `false` ends the session.
    Stop(bool),
}

/// What the caller reports back.
#[derive(Debug, Clone)]
pub enum Event {
    /// Nothing has happened yet: the first event.
    Start,
    /// The builtin's effect was carried out, with this status. What is
    /// recorded is the number reduced to the range from 0 to 255.
    Status(i32),
    /// Whether the command was found.
    Resolved(bool),
    /// The process was started.
    Spawned,
    /// The input file could not be opened; the reason.
    InputFailed(String),
    /// The output file could not be opened; the reason.
    OutputFailed(String),
    /// The process could not be started; the reason.
    SpawnFailed(String),
    /// The child waited for has ended.
    Exited(Exit),
}

/// What is to be printed, and what is to be done after that.
#[derive(Debug, Clone)]
pub struct Step {
    pub lines: Vec<Line>,
    pub action: Action,
}

/// What a [`Source`] stands for.
pub enum SourceView {
    Inherit,
    File(Seq<char>),
    Pipe,
}

/// What a [`Sink`] stands for.
pub enum SinkView {
    Inherit,
    File { path: Seq<char>, append: bool },
    Pipe,
}

/// What a [`Spawn`] stands for.
pub struct SpawnView {
    pub argv: Seq<Seq<char>>,
    pub stdin: SourceView,
    pub stdout: SinkView,
}

/// What an [`Action`] stands for.
pub enum ActionView {
    Builtin(EffectView),
    Resolve(Seq<Seq<char>>),
    Spawn(SpawnView),
    Wait,
    Stop(bool),
}

/// What an [`Event`] stands for.
pub enum EventView {
    Start,
    Status(int),
    Resolved(bool),
    Spawned,
    InputFailed(Seq<char>),
    OutputFailed(Seq<char>),
    SpawnFailed(Seq<char>),
    Exited(Exit),
}

impl View for Source {
    type V = SourceView;

    open spec fn view(&self) -> SourceView {
        match self {
            Source::Inherit => SourceView::Inherit,
            Source::File(f) => SourceView::File(f@),
            Source::Pipe => SourceView::Pipe,
        }
    }
}

impl View for Sink {
    type V = SinkView;

    open spec fn view(&self) -> SinkView {
        match self {
            Sink::Inherit => SinkView::Inherit,
            Sink::File { path, append } => SinkView::File { path: path@, append: *append },
            Sink::Pipe => SinkView::Pipe,
        }
    }
}

impl View for Spawn {
    type V = SpawnView;

    open spec fn view(&self) -> SpawnView {
        SpawnView { argv: self.argv.deep_view(), stdin: self.stdin@, stdout: self.stdout@ }
    }
}

impl View for Action {
    type V = ActionView;

    open spec fn view(&self) -> ActionView {
        match self {
            Action::Builtin(e) => ActionView::Builtin(e@),
            Action::Resolve(paths) => ActionView::Resolve(paths.deep_view()),
            Action::Spawn(s) => ActionView::Spawn(s@),
            Action::Wait => ActionView::Wait,
            Action::Stop(keep) => ActionView::Stop(*keep),
        }
    }
}

impl View for Event {
    type V = EventView;

    open spec fn view(&self) -> EventView {
        match self {
            Event::Start => EventView::Start,
            Event::Status(c) => EventView::Status(*c as int),
            Event::Resolved(b) => EventView::Resolved(*b),
            Event::Spawned => EventView::Spawned,
            Event::InputFailed(e) => EventView::InputFailed(e@),
            Event::OutputFailed(e) => EventView::OutputFailed(e@),
            Event::SpawnFailed(e) => EventView::SpawnFailed(e@),
            Event::Exited(x) => EventView::Exited(*x),
        }
    }
}

} // verus!
