//! What the executor does at every event, as a transition system over plain
//! values, and what is proved of it.
//!
//! [`react`] is one call of the executor. A pipeline starts as [`begin`]
//! says and goes on as [`single`] and [`chain`] say; [`proceed`] runs the
//! list on when a pipeline is over.

use vstd::prelude::*;
use crate::builtins::{
    builtin_of, candidates, effect_of, exit_status, search_path, vars_after, EffectView, LineView,
};
use crate::environment::Bindings;
use crate::parser::{Command, Commands, RunIf};
use crate::process::{ActionView, EventView, Exit, SinkView, SourceView, SpawnView};
use crate::shell::{is_status, status_of};

verus! {

/// What the executor is waiting for.
#[derive(Debug, Clone, Copy, PartialEq, Eq, Structural)]
pub enum Phase {
    /// Nothing is in progress: the next pipeline is to be chosen.
    Idle,
    /// The effect of a builtin is being carried out.
    Builtin,
    /// A single command is being looked up.
    Resolving,
    /// A single command is being started.
    Spawning,
    /// A single command is running.
    Waiting,
    /// A stage of a pipe chain is being started.
    ChainSpawning,
    /// All stages of a pipe chain run; they are waited for in turn.
    ChainWaiting,
    /// A stage failed to start; the stages before it are waited for.
    ChainReaping,
    /// The list has been run to its end.
    Done,
    /// An `exit` has ended the session.
    Exited,
}

/// The executor's position in a command list.
pub struct Run {
    /// Number of list entries that are behind or in progress.
    pub next: int,
    pub phase: Phase,
    /// In a pipe chain: the stage being started.
    pub stage: int,
    /// In a pipe chain: how many stages have been started.
    pub children: int,
    /// In a pipe chain: how many children have been waited for.
    pub waited: int,
    /// The input redirection of the command being started could not be
    /// opened and is left out.
    pub plain_in: bool,
    /// The same for its output redirection.
    pub plain_out: bool,
}

/// The position `next` in phase `phase`, with nothing started.
pub open spec fn at(next: int, phase: Phase) -> Run {
    Run { next, phase, stage: 0, children: 0, waited: 0, plain_in: false, plain_out: false }
}

/// What one call of the executor comes to: its new position, the last status
/// and the variables after it, the lines to print and the action to take.
pub struct Turn {
    pub run: Run,
    pub status: int,
    pub vars: Bindings,
    pub lines: Seq<LineView>,
    pub action: ActionView,
}

/// What becomes of a pipeline at one event.
pub enum Outcome {
    /// It is over, with this status.
    Finished { status: int, vars: Bindings, lines: Seq<LineView> },
    /// It was an `exit`, which asked for this status.
    Quit { status: int },
    /// It goes on with this action.
    Next { run: Run, lines: Seq<LineView>, action: ActionView },
}

/// Whether a pipeline with this condition runs after a pipeline that ended
/// with `status`.
pub open spec fn runs(cond: RunIf, status: int) -> bool {
    match cond {
        RunIf::Always => true,
        RunIf::OnSuccess => status == 0,
        RunIf::OnFailure => status != 0,
    }
}

/// The first entry from `from` on whose condition lets it run after `status`,
/// or the length of the list. Entries that are passed over leave the status
/// as it is.
pub open spec fn next_runnable(list: Commands, from: int, status: int) -> int
    decreases list.len() - from,
{
    if 0 <= from < list.len() && !runs(list[from].1, status) {
        next_runnable(list, from + 1, status)
    } else {
        from
    }
}

/// The first stage from `from` on that names a program, or the length of the
/// pipeline.
pub open spec fn next_stage(p: Seq<Command>, from: int) -> int
    decreases p.len() - from,
{
    if 0 <= from < p.len() && p[from].argv.len() == 0 {
        next_stage(p, from + 1)
    } else {
        from
    }
}

/// The search for the next entry to run stops between `from` and the end,
/// on an entry that runs.
pub proof fn lemma_next_runnable(list: Commands, from: int, status: int)
    requires
        0 <= from <= list.len(),
    ensures
        from <= next_runnable(list, from, status) <= list.len(),
        next_runnable(list, from, status) < list.len() ==> runs(
            list[next_runnable(list, from, status)].1,
            status,
        ),
        forall|k: int|
            from <= k < next_runnable(list, from, status) ==> !runs((#[trigger] list[k]).1, status),
    decreases list.len() - from,
{
    if from < list.len() && !runs(list[from].1, status) {
        lemma_next_runnable(list, from + 1, status);
    }
}

/// The search for the next stage stops between `from` and the end, on a stage
/// that names a program.
pub proof fn lemma_next_stage(p: Seq<Command>, from: int)
    requires
        0 <= from <= p.len(),
    ensures
        from <= next_stage(p, from) <= p.len(),
        next_stage(p, from) < p.len() ==> p[next_stage(p, from)].argv.len() > 0,
    decreases p.len() - from,
{
    if from < p.len() && p[from].argv.len() == 0 {
        lemma_next_stage(p, from + 1);
    }
}

/// The standard input of a command: its input file, unless there is none or
/// it could not be opened.
pub open spec fn source_of(file: Option<Seq<char>>, plain: bool) -> SourceView {
    match file {
        Some(f) => if plain {
            SourceView::Inherit
        } else {
            SourceView::File(f)
        },
        None => SourceView::Inherit,
    }
}

/// The standard output of a command: its output file, unless there is none or
/// it could not be opened.
pub open spec fn sink_of(file: Option<Seq<char>>, append: bool, plain: bool) -> SinkView {
    match file {
        Some(f) => if plain {
            SinkView::Inherit
        } else {
            SinkView::File { path: f, append }
        },
        None => SinkView::Inherit,
    }
}

/// The request that starts a command on its own.
pub open spec fn single_request(c: Command, plain_in: bool, plain_out: bool) -> SpawnView {
    SpawnView {
        argv: c.argv,
        stdin: source_of(c.stdin_file, plain_in),
        stdout: sink_of(c.stdout_file, c.append, plain_out),
    }
}

/// The request that starts stage `k` of the chain `p` when `children` stages
/// have been started before it: the first stage started reads what its own
/// redirection says, every later one reads the pipe; the last stage of the
/// pipeline writes where its own redirection says, every other one writes
/// into a pipe.
pub open spec fn stage_request(p: Seq<Command>, k: int, children: int, plain_out: bool) -> SpawnView {
    SpawnView {
        argv: p[k].argv,
        stdin: if children > 0 {
            SourceView::Pipe
        } else {
            source_of(p[k].stdin_file, false)
        },
        stdout: if k == p.len() - 1 {
            sink_of(p[k].stdout_file, p[k].append, plain_out)
        } else {
            SinkView::Pipe
        },
    }
}

/// The line that reports `what` about `subject` on standard error.
pub open spec fn complaint(subject: Seq<char>, what: Seq<char>) -> LineView {
    LineView::Stderr(subject + ": "@ + what)
}

/// How the pipeline `p` starts, as entry number `next` of its list.
///
/// An empty pipeline and a lone command without a program are over at once
/// with status 0. A lone builtin runs in the shell. A lone program is looked
/// up first. Two or more commands are a pipe chain, whose stages are all
/// started as processes.
pub open spec fn begin(p: Seq<Command>, next: int, vars: Bindings) -> Outcome {
    if p.len() == 0 {
        Outcome::Finished { status: 0, vars, lines: Seq::empty() }
    } else if p.len() == 1 {
        let argv = p[0].argv;
        if argv.len() == 0 {
            Outcome::Finished { status: 0, vars, lines: Seq::empty() }
        } else if builtin_of(argv[0]) is Some {
            match effect_of(argv, vars) {
                EffectView::Exit => Outcome::Quit { status: exit_status(argv) },
                EffectView::Done { lines, status } => Outcome::Finished {
                    status,
                    vars: vars_after(argv, vars),
                    lines,
                },
                effect => Outcome::Next {
                    run: at(next, Phase::Builtin),
                    lines: Seq::empty(),
                    action: ActionView::Builtin(effect),
                },
            }
        } else {
            Outcome::Next {
                run: at(next, Phase::Resolving),
                lines: Seq::empty(),
                action: ActionView::Resolve(candidates(argv[0], search_path(vars))),
            }
        }
    } else {
        let k = next_stage(p, 0);
        if k < p.len() {
            Outcome::Next {
                run: Run {
                    next,
                    phase: Phase::ChainSpawning,
                    stage: k,
                    children: 0,
                    waited: 0,
                    plain_in: false,
                    plain_out: false,
                },
                lines: Seq::empty(),
                action: ActionView::Spawn(stage_request(p, k, 0, false)),
            }
        } else {
            Outcome::Finished { status: 0, vars, lines: Seq::empty() }
        }
    }
}

/// The status of a command run on its own: the status that its exit code
/// stands for, and 1 if a signal ended it or nothing is known. It lies
/// between 0 and 255.
pub open spec fn single_status(event: EventView) -> int {
    match event {
        EventView::Exited(Exit::Code(c)) => status_of(c as int),
        _ => 1,
    }
}

/// The status of a pipe chain, from the end of its last child: the status
/// that the exit code stands for, and 0 if there is no code. It lies
/// between 0 and 255.
pub open spec fn chain_status(event: EventView) -> int {
    match event {
        EventView::Exited(Exit::Code(c)) => status_of(c as int),
        _ => 0,
    }
}

/// The status of a builtin whose effect the caller carried out: the status
/// that the number reported stands for, and 1 if none was reported. It lies
/// between 0 and 255.
pub open spec fn builtin_status(event: EventView) -> int {
    match event {
        EventView::Status(c) => status_of(c),
        _ => 1,
    }
}

/// The pipeline is over with `status`, after printing `lines`.
pub open spec fn over(status: int, vars: Bindings, lines: Seq<LineView>) -> Outcome {
    Outcome::Finished { status, vars, lines }
}

/// What an event does to a command that runs on its own.
///
/// A command that is not found is reported and has status 127; nothing is
/// started. A redirection that cannot be opened is reported and left out,
/// and the command is started again without it. A command that cannot be
/// started is reported and has status 1.
pub open spec fn single(c: Command, run: Run, vars: Bindings, event: EventView) -> Outcome {
    match run.phase {
        Phase::Resolving => match event {
            EventView::Resolved(true) => Outcome::Next {
                run: Run {
                    next: run.next,
                    phase: Phase::Spawning,
                    stage: 0,
                    children: 0,
                    waited: 0,
                    plain_in: false,
                    plain_out: false,
                },
                lines: Seq::empty(),
                action: ActionView::Spawn(single_request(c, false, false)),
            },
            _ => over(127, vars, seq![complaint(c.argv[0], "command not found"@)]),
        },
        Phase::Spawning => match event {
            EventView::Spawned => Outcome::Next {
                run: Run {
                    next: run.next,
                    phase: Phase::Waiting,
                    stage: 0,
                    children: 0,
                    waited: 0,
                    plain_in: run.plain_in,
                    plain_out: run.plain_out,
                },
                lines: Seq::empty(),
                action: ActionView::Wait,
            },
            EventView::InputFailed(why) => if c.stdin_file is Some && !run.plain_in {
                Outcome::Next {
                    run: Run {
                        next: run.next,
                        phase: Phase::Spawning,
                        stage: 0,
                        children: 0,
                        waited: 0,
                        plain_in: true,
                        plain_out: run.plain_out,
                    },
                    lines: seq![complaint(c.stdin_file->0, why)],
                    action: ActionView::Spawn(single_request(c, true, run.plain_out)),
                }
            } else {
                over(1, vars, Seq::empty())
            },
            EventView::OutputFailed(why) => if c.stdout_file is Some && !run.plain_out {
                Outcome::Next {
                    run: Run {
                        next: run.next,
                        phase: Phase::Spawning,
                        stage: 0,
                        children: 0,
                        waited: 0,
                        plain_in: run.plain_in,
                        plain_out: true,
                    },
                    lines: seq![complaint(c.stdout_file->0, why)],
                    action: ActionView::Spawn(single_request(c, run.plain_in, true)),
                }
            } else {
                over(1, vars, Seq::empty())
            },
            EventView::SpawnFailed(why) => over(1, vars, seq![complaint(c.argv[0], why)]),
            _ => over(1, vars, Seq::empty()),
        },
        Phase::Waiting => over(single_status(event), vars, Seq::empty()),
        _ => over(builtin_status(event), vars, Seq::empty()),
    }
}

/// A stage of the chain could not be started: the pipeline has status 1,
/// once the children started before have been waited for.
pub open spec fn abandon(run: Run, vars: Bindings, lines: Seq<LineView>) -> Outcome {
    if run.children > 0 {
        Outcome::Next {
            run: Run {
                next: run.next,
                phase: Phase::ChainReaping,
                stage: run.stage,
                children: run.children,
                waited: 0,
                plain_in: false,
                plain_out: false,
            },
            lines,
            action: ActionView::Wait,
        }
    } else {
        over(1, vars, lines)
    }
}

/// What an event does to a pipe chain.
///
/// The stages that name a program are started in order. When all are
/// started, they are waited for in the same order, and the end of the last
/// one gives the status. An input file of the first stage that cannot be
/// opened ends the pipeline with status 1; an output file of the last stage
/// that cannot be opened is left out.
pub open spec fn chain(p: Seq<Command>, run: Run, vars: Bindings, event: EventView) -> Outcome {
    let k = run.stage;
    let n = run.children;
    match run.phase {
        Phase::ChainSpawning => match event {
            EventView::Spawned => {
                let k2 = next_stage(p, k + 1);
                if k2 < p.len() {
                    Outcome::Next {
                        run: Run {
                            next: run.next,
                            phase: Phase::ChainSpawning,
                            stage: k2,
                            children: n + 1,
                            waited: 0,
                            plain_in: false,
                            plain_out: false,
                        },
                        lines: Seq::empty(),
                        action: ActionView::Spawn(stage_request(p, k2, n + 1, false)),
                    }
                } else {
                    Outcome::Next {
                        run: Run {
                            next: run.next,
                            phase: Phase::ChainWaiting,
                            stage: k,
                            children: n + 1,
                            waited: 0,
                            plain_in: false,
                            plain_out: false,
                        },
                        lines: Seq::empty(),
                        action: ActionView::Wait,
                    }
                }
            },
            EventView::InputFailed(why) => if n == 0 && p[k].stdin_file is Some {
                over(1, vars, seq![complaint(p[k].stdin_file->0, why)])
            } else {
                abandon(run, vars, Seq::empty())
            },
            EventView::OutputFailed(why) => if k == p.len() - 1 && p[k].stdout_file is Some
                && !run.plain_out {
                Outcome::Next {
                    run: Run {
                        next: run.next,
                        phase: Phase::ChainSpawning,
                        stage: k,
                        children: n,
                        waited: 0,
                        plain_in: false,
                        plain_out: true,
                    },
                    lines: seq![complaint(p[k].stdout_file->0, why)],
                    action: ActionView::Spawn(stage_request(p, k, n, true)),
                }
            } else {
                abandon(run, vars, Seq::empty())
            },
            EventView::SpawnFailed(why) => abandon(run, vars, seq![complaint(p[k].argv[0], why)]),
            _ => abandon(run, vars, Seq::empty()),
        },
        Phase::ChainReaping => if run.waited + 1 < n {
            Outcome::Next {
                run: Run {
                    next: run.next,
                    phase: Phase::ChainReaping,
                    stage: k,
                    children: n,
                    waited: run.waited + 1,
                    plain_in: false,
                    plain_out: false,
                },
                lines: Seq::empty(),
                action: ActionView::Wait,
            }
        } else {
            over(1, vars, Seq::empty())
        },
        _ => if run.waited + 1 < n {
            Outcome::Next {
                run: Run {
                    next: run.next,
                    phase: Phase::ChainWaiting,
                    stage: k,
                    children: n,
                    waited: run.waited + 1,
                    plain_in: false,
                    plain_out: false,
                },
                lines: Seq::empty(),
                action: ActionView::Wait,
            }
        } else {
            over(chain_status(event), vars, Seq::empty())
        },
    }
}

/// What an event does to the pipeline in progress.
pub open spec fn respond(p: Seq<Command>, run: Run, vars: Bindings, event: EventView) -> Outcome {
    match run.phase {
        Phase::ChainSpawning | Phase::ChainWaiting | Phase::ChainReaping => chain(
            p,
            run,
            vars,
            event,
        ),
        _ => single(p[0], run, vars, event),
    }
}

/// Runs the list from entry `from` on, after a pipeline that ended with
/// `status`, until an action is due.
///
/// Entries whose condition does not hold are passed over and leave the status
/// as it is. A pipeline that is over at once records its status and the next
/// entry is looked at. An `exit` records the status it asks for and stops the
/// list with `Stop(false)`. The end of the list stops it with `Stop(true)`.
pub open spec fn proceed(
    list: Commands,
    from: int,
    status: int,
    vars: Bindings,
    lines: Seq<LineView>,
) -> Turn
    decreases list.len() - from,
{
    let i = next_runnable(list, from, status);
    if 0 <= from && i < list.len() {
        proof {
            if from <= list.len() {
                lemma_next_runnable(list, from, status);
            }
        }
        match begin(list[i].0, i + 1, vars) {
            Outcome::Finished { status: s, vars: v, lines: l } => proceed(
                list,
                i + 1,
                s,
                v,
                lines + l,
            ),
            Outcome::Quit { status: s } => Turn {
                run: at(i + 1, Phase::Exited),
                status: s,
                vars,
                lines,
                action: ActionView::Stop(false),
            },
            Outcome::Next { run, lines: l, action } => Turn {
                run,
                status,
                vars,
                lines: lines + l,
                action,
            },
        }
    } else {
        Turn {
            run: at(list.len() as int, Phase::Done),
            status,
            vars,
            lines,
            action: ActionView::Stop(true),
        }
    }
}

/// One call of the executor: what `event` leads to when the executor stands
/// at `run` in `list`, the last status is `status` and the variables are
/// `vars`.
pub open spec fn react(
    list: Commands,
    run: Run,
    status: int,
    vars: Bindings,
    event: EventView,
) -> Turn {
    match run.phase {
        Phase::Idle => proceed(list, run.next, status, vars, Seq::empty()),
        Phase::Done => Turn { run, status, vars, lines: Seq::empty(), action: ActionView::Stop(true) },
        Phase::Exited => Turn {
            run,
            status,
            vars,
            lines: Seq::empty(),
            action: ActionView::Stop(false),
        },
        _ => match respond(list[run.next - 1].0, run, vars, event) {
            Outcome::Finished { status: s, vars: v, lines: l } => proceed(list, run.next, s, v, l),
            Outcome::Quit { status: s } => Turn {
                run: at(run.next, Phase::Exited),
                status: s,
                vars,
                lines: Seq::empty(),
                action: ActionView::Stop(false),
            },
            Outcome::Next { run: r, lines: l, action } => Turn {
                run: r,
                status,
                vars,
                lines: l,
                action,
            },
        },
    }
}

/// Whether a position makes sense in a list: it lies within the list, and
/// the pipeline in progress is of the kind that the phase speaks of.
pub open spec fn coherent(list: Commands, run: Run) -> bool {
    &&& 0 <= run.next <= list.len()
    &&& match run.phase {
        Phase::Idle | Phase::Done | Phase::Exited => true,
        Phase::Builtin | Phase::Resolving | Phase::Spawning | Phase::Waiting => {
            &&& run.next >= 1
            &&& list[run.next - 1].0.len() == 1
            &&& list[run.next - 1].0[0].argv.len() > 0
        },
        Phase::ChainSpawning => {
            &&& run.next >= 1
            &&& list[run.next - 1].0.len() >= 2
            &&& 0 <= run.children <= run.stage < list[run.next - 1].0.len()
            &&& list[run.next - 1].0[run.stage].argv.len() > 0
        },
        Phase::ChainWaiting | Phase::ChainReaping => {
            &&& run.next >= 1
            &&& 0 <= run.waited < run.children <= list[run.next - 1].0.len()
        },
    }
}

/// The pipeline in progress after the events `events`, each of which answers
/// the action before it; events after the one that ends the pipeline are not
/// looked at.
pub open spec fn chain_after(
    p: Seq<Command>,
    run: Run,
    vars: Bindings,
    events: Seq<EventView>,
) -> Outcome
    recommends
        events.len() > 0,
    decreases events.len(),
{
    let first = chain(p, run, vars, events[0]);
    if events.len() <= 1 {
        first
    } else {
        match first {
            Outcome::Next { run: r, lines, action } => chain_after(p, r, vars, events.skip(1)),
            over => over,
        }
    }
}

/// The event that says that a child ended in the way `exit`.
pub open spec fn exited(exit: Exit) -> EventView {
    EventView::Exited(exit)
}

/// Once all stages of a pipe chain run, the status of the pipeline is that
/// of the child waited for last, whatever became of the others: after as
/// many events as there are children left, the pipeline is over with the
/// status that the last event gives, and nothing is printed.
pub proof fn lemma_chain_status_is_last(
    p: Seq<Command>,
    run: Run,
    vars: Bindings,
    events: Seq<EventView>,
)
    requires
        run.phase == Phase::ChainWaiting,
        0 <= run.waited < run.children,
        events.len() == run.children - run.waited,
    ensures
        chain_after(p, run, vars, events) == over(chain_status(events.last()), vars, Seq::empty()),
    decreases events.len(),
{
    if events.len() > 1 {
        let first = chain(p, run, vars, events[0]);
        let rest = events.skip(1);
        lemma_chain_status_is_last(p, first->Next_run, vars, rest);
    }
}

/// Whether every stage of the pipeline names a program.
pub open spec fn all_named(p: Seq<Command>) -> bool {
    forall|k: int| 0 <= k < p.len() ==> (#[trigger] p[k]).argv.len() > 0
}

/// In a pipe chain whose stages all name a program, each stage that starts
/// leads to the start of the next, and the start of the last leads to the
/// wait for the first child: after `p.len() - run.stage` events `Spawned`
/// all stages run and none has been waited for.
pub proof fn lemma_chain_starts_every_stage(p: Seq<Command>, run: Run, vars: Bindings, events: Seq<EventView>)
    requires
        all_named(p),
        run.phase == Phase::ChainSpawning,
        0 <= run.stage < p.len(),
        run.children == run.stage,
        events.len() == p.len() - run.stage,
        forall|i: int| 0 <= i < events.len() ==> #[trigger] events[i] == EventView::Spawned,
    ensures
        chain_after(p, run, vars, events) == (Outcome::Next {
            run: Run {
                next: run.next,
                phase: Phase::ChainWaiting,
                stage: p.len() - 1,
                children: p.len() as int,
                waited: 0,
                plain_in: false,
                plain_out: false,
            },
            lines: Seq::empty(),
            action: ActionView::Wait,
        }),
    decreases events.len(),
{
    let k = run.stage;
    if k + 1 < p.len() {
        let first = chain(p, run, vars, events[0]);
        let rest = events.skip(1);
        lemma_chain_starts_every_stage(p, first->Next_run, vars, rest);
    }
}

/// Feeding events in two parts is feeding them in one: if the first part
/// leaves the pipeline in progress, the second part goes on from there.
pub proof fn lemma_chain_after_in_parts(
    p: Seq<Command>,
    run: Run,
    vars: Bindings,
    first: Seq<EventView>,
    second: Seq<EventView>,
)
    requires
        first.len() > 0,
        second.len() > 0,
        chain_after(p, run, vars, first) is Next,
    ensures
        chain_after(p, run, vars, first + second) == chain_after(
            p,
            chain_after(p, run, vars, first)->Next_run,
            vars,
            second,
        ),
    decreases first.len(),
{
    let all = first + second;
    if first.len() == 1 {
        assert(all.skip(1) =~= second);
    } else {
        assert(all.skip(1) =~= first.skip(1) + second);
        let head = chain(p, run, vars, first[0]);
        lemma_chain_after_in_parts(p, head->Next_run, vars, first.skip(1), second);
    }
}

/// The events of a pipe chain in which every stage starts and the children
/// end as `exits` say, in the order of the stages.
pub open spec fn smooth_events(exits: Seq<Exit>) -> Seq<EventView> {
    Seq::new(exits.len(), |i: int| EventView::Spawned) + Seq::new(
        exits.len(),
        |i: int| exited(exits[i]),
    )
}

/// The status of a pipe chain is that of its last stage alone. In a pipeline
/// of two or more commands that all name a program, where every stage starts
/// and the children end as `exits` say: the pipeline is over after the last
/// child, with the exit code of the last child, whatever the codes of the
/// others.
pub proof fn lemma_pipe_chain_status(p: Seq<Command>, next: int, vars: Bindings, exits: Seq<Exit>)
    requires
        p.len() >= 2,
        all_named(p),
        exits.len() == p.len(),
    ensures
        begin(p, next, vars) is Next,
        begin(p, next, vars)->Next_action == ActionView::Spawn(stage_request(p, 0, 0, false)),
        chain_after(p, begin(p, next, vars)->Next_run, vars, smooth_events(exits)) == over(
            chain_status(exited(exits.last())),
            vars,
            Seq::empty(),
        ),
{
    let run = begin(p, next, vars)->Next_run;
    let spawned = Seq::new(exits.len(), |i: int| EventView::Spawned);
    let ended = Seq::new(exits.len(), |i: int| exited(exits[i]));
    lemma_chain_starts_every_stage(p, run, vars, spawned);
    lemma_chain_after_in_parts(p, run, vars, spawned, ended);
    lemma_chain_status_is_last(p, chain_after(p, run, vars, spawned)->Next_run, vars, ended);
}

/// After a pipeline that failed, an entry that runs on success is passed
/// over without a change of the status, and an entry that runs on failure is
/// the next to run; after a pipeline that succeeded it is the other way
/// round. An entry that runs always is never passed over.
pub proof fn lemma_conditions(list: Commands, from: int, status: int)
    requires
        0 <= from < list.len(),
    ensures
        runs(list[from].1, status) ==> next_runnable(list, from, status) == from,
        !runs(list[from].1, status) ==> next_runnable(list, from, status) == next_runnable(
            list,
            from + 1,
            status,
        ),
        list[from].1 == RunIf::Always ==> runs(list[from].1, status),
        list[from].1 == RunIf::OnSuccess ==> (runs(list[from].1, status) <==> status == 0),
        list[from].1 == RunIf::OnFailure ==> (runs(list[from].1, status) <==> status != 0),
{
}

/// Entries that are passed over change nothing: running the list from
/// `from` is running it from the next entry whose condition holds, with the
/// same status, variables and lines.
pub proof fn lemma_skipped_entries_change_nothing(
    list: Commands,
    from: int,
    status: int,
    vars: Bindings,
    lines: Seq<LineView>,
)
    requires
        0 <= from <= list.len(),
    ensures
        proceed(list, from, status, vars, lines) == proceed(
            list,
            next_runnable(list, from, status),
            status,
            vars,
            lines,
        ),
    decreases list.len() - from,
{
    lemma_next_runnable(list, from, status);
}

/// In a list of three pipelines of which the second runs on success and the
/// third on failure: if the first ends with a status other than 0, the second
/// is passed over, the third is the next to start, with the status of the
/// first still on record; and when the third is over, its status is the last
/// status and the list is done.
pub proof fn lemma_failure_skips_to_alternative(
    list: Commands,
    first: int,
    third: int,
    vars: Bindings,
    after: Bindings,
    lines: Seq<LineView>,
)
    requires
        list.len() == 3,
        list[1].1 == RunIf::OnSuccess,
        list[2].1 == RunIf::OnFailure,
        first != 0,
    ensures
        next_runnable(list, 1, first) == 2,
        begin(list[2].0, 3, vars) is Next ==> {
            &&& proceed(list, 1, first, vars, lines).status == first
            &&& proceed(list, 1, first, vars, lines).run.next == 3
            &&& proceed(list, 1, first, vars, lines).action == begin(list[2].0, 3, vars)->Next_action
        },
        begin(list[2].0, 3, vars) matches Outcome::Finished { status: s, vars: v, lines: l }
            ==> proceed(list, 1, first, vars, lines) == proceed(list, 3, s, v, lines + l),
        proceed(list, 3, third, after, lines).status == third,
        proceed(list, 3, third, after, lines).action == ActionView::Stop(true),
{
    assert(next_runnable(list, 2, first) == 2);
}

/// A command that is not found is not started: the answer `Resolved(false)`
/// ends its pipeline with status 127 and the complaint `name: command not
/// found`, and the list goes on behind it. Where it was the last entry, 127
/// is the last status and the list is done.
pub proof fn lemma_unresolved_command(list: Commands, run: Run, status: int, vars: Bindings)
    requires
        coherent(list, run),
        run.phase == Phase::Resolving,
    ensures
        single(list[run.next - 1].0[0], run, vars, EventView::Resolved(false)) == over(
            127,
            vars,
            seq![complaint(list[run.next - 1].0[0].argv[0], "command not found"@)],
        ),
        react(list, run, status, vars, EventView::Resolved(false)) == proceed(
            list,
            run.next,
            127,
            vars,
            seq![complaint(list[run.next - 1].0[0].argv[0], "command not found"@)],
        ),
        run.next == list.len() ==> {
            &&& react(list, run, status, vars, EventView::Resolved(false)).status == 127
            &&& react(list, run, status, vars, EventView::Resolved(false)).action
                == ActionView::Stop(true)
        },
{
}

/// The action that a call comes to fits the phase it leaves the executor
/// in: the list is stopped exactly in the phases `Done` and `Exited`, with
/// `Stop(false)` exactly after an `exit`; a builtin's effect is asked for in
/// phase `Builtin`, a lookup in phase `Resolving`, a start in the spawning
/// phases and a wait in the waiting phases.
pub open spec fn fits(action: ActionView, phase: Phase) -> bool {
    match action {
        ActionView::Stop(keep) => if keep {
            phase == Phase::Done
        } else {
            phase == Phase::Exited
        },
        ActionView::Builtin(effect) => phase == Phase::Builtin && !(effect is Exit) && !(effect is Done),
        ActionView::Resolve(paths) => phase == Phase::Resolving,
        ActionView::Spawn(request) => phase == Phase::Spawning || phase == Phase::ChainSpawning,
        ActionView::Wait => phase == Phase::Waiting || phase == Phase::ChainWaiting || phase
            == Phase::ChainReaping,
    }
}

/// Whatever entry the list is run on from, the action fits the phase.
pub proof fn lemma_proceed_fits(
    list: Commands,
    from: int,
    status: int,
    vars: Bindings,
    lines: Seq<LineView>,
)
    requires
        0 <= from <= list.len(),
    ensures
        fits(
            proceed(list, from, status, vars, lines).action,
            proceed(list, from, status, vars, lines).run.phase,
        ),
    decreases list.len() - from,
{
    lemma_next_runnable(list, from, status);
    let i = next_runnable(list, from, status);
    if i < list.len() {
        match begin(list[i].0, i + 1, vars) {
            Outcome::Finished { status: s, vars: v, lines: l } => {
                lemma_proceed_fits(list, i + 1, s, v, lines + l);
            },
            _ => {},
        }
    }
}

/// Whatever the event, the action that the call comes to fits the phase that
/// it leaves the executor in. In particular the caller is told to stop
/// exactly when the list is done or an `exit` was met, and `Stop(false)`
/// means the latter.
pub proof fn lemma_action_fits_phase(
    list: Commands,
    run: Run,
    status: int,
    vars: Bindings,
    event: EventView,
)
    requires
        coherent(list, run),
    ensures
        fits(
            react(list, run, status, vars, event).action,
            react(list, run, status, vars, event).run.phase,
        ),
{
    match run.phase {
        Phase::Idle => {
            lemma_proceed_fits(list, run.next, status, vars, Seq::empty());
        },
        Phase::Done | Phase::Exited => {},
        _ => {
            match respond(list[run.next - 1].0, run, vars, event) {
                Outcome::Finished { status: s, vars: v, lines: l } => {
                    lemma_proceed_fits(list, run.next, s, v, l);
                },
                _ => {},
            }
        },
    }
}

/// Once the list is stopped it stays stopped: every further event leaves
/// the position, the status and the variables as they are, prints nothing
/// and gives the same `Stop` again.
pub proof fn lemma_stopped_stays_stopped(
    list: Commands,
    run: Run,
    status: int,
    vars: Bindings,
    event: EventView,
)
    requires
        run.phase == Phase::Done || run.phase == Phase::Exited,
    ensures
        react(list, run, status, vars, event) == (Turn {
            run,
            status,
            vars,
            lines: Seq::empty(),
            action: ActionView::Stop(run.phase == Phase::Done),
        }),
{
}

/// The executor never leaves the list: from a coherent position every event
/// leads to a coherent position.
pub proof fn lemma_react_coherent(
    list: Commands,
    run: Run,
    status: int,
    vars: Bindings,
    event: EventView,
)
    requires
        coherent(list, run),
    ensures
        coherent(list, react(list, run, status, vars, event).run),
{
    match run.phase {
        Phase::Idle => {
            lemma_proceed_coherent(list, run.next, status, vars, Seq::empty());
        },
        Phase::Done | Phase::Exited => {},
        _ => {
            let p = list[run.next - 1].0;
            if run.phase == Phase::ChainSpawning {
                lemma_next_stage(p, run.stage + 1);
            }
            match respond(p, run, vars, event) {
                Outcome::Finished { status: s, vars: v, lines: l } => {
                    lemma_proceed_coherent(list, run.next, s, v, l);
                },
                _ => {},
            }
        },
    }
}

/// Running the list on from any entry leads to a coherent position.
pub proof fn lemma_proceed_coherent(
    list: Commands,
    from: int,
    status: int,
    vars: Bindings,
    lines: Seq<LineView>,
)
    requires
        0 <= from <= list.len(),
    ensures
        coherent(list, proceed(list, from, status, vars, lines).run),
    decreases list.len() - from,
{
    lemma_next_runnable(list, from, status);
    let i = next_runnable(list, from, status);
    if i < list.len() {
        lemma_next_stage(list[i].0, 0);
        match begin(list[i].0, i + 1, vars) {
            Outcome::Finished { status: s, vars: v, lines: l } => {
                lemma_proceed_coherent(list, i + 1, s, v, lines + l);
            },
            _ => {},
        }
    }
}

/// A bound on the number of events that the pipeline `p` takes.
pub open spec fn budget(p: Seq<Command>) -> int {
    3 * (p.len() as int) + 5
}

/// A bound on the number of events that the entries from `from` on take.
pub open spec fn ahead(list: Commands, from: int) -> int
    decreases list.len() - from,
{
    if 0 <= from < list.len() {
        budget(list[from].0) + 1 + ahead(list, from + 1)
    } else {
        0
    }
}

/// A bound on the number of events that the pipeline in progress still
/// takes.
pub open spec fn pending(p: Seq<Command>, run: Run) -> int {
    match run.phase {
        Phase::Idle | Phase::Done | Phase::Exited => 0,
        Phase::Builtin | Phase::Waiting => 1,
        Phase::Resolving => 5,
        Phase::Spawning => 4 - (if run.plain_in {
            1int
        } else {
            0int
        }) - (if run.plain_out {
            1int
        } else {
            0int
        }),
        Phase::ChainSpawning => 3 * (p.len() - run.stage) + run.children + (if run.plain_out {
            0int
        } else {
            1int
        }),
        Phase::ChainWaiting | Phase::ChainReaping => run.children - run.waited,
    }
}

/// A bound on the number of events that the list still takes from the
/// position `run`.
pub open spec fn events_left(list: Commands, run: Run) -> int {
    ahead(list, run.next) + pending(list[run.next - 1].0, run)
}

/// What lies ahead is never negative, and less lies ahead of a later entry.
pub proof fn lemma_ahead(list: Commands, from: int, to: int)
    requires
        0 <= from <= to <= list.len(),
    ensures
        0 <= ahead(list, to) <= ahead(list, from),
        to < list.len() ==> ahead(list, to) == budget(list[to].0) + 1 + ahead(list, to + 1),
    decreases list.len() - from,
{
    if from < to {
        lemma_ahead(list, from + 1, to);
    } else if from < list.len() {
        lemma_ahead(list, from + 1, from + 1);
    }
}

/// Running the list on from `from` either stops it or leaves less to come
/// than lay ahead of `from`.
pub proof fn lemma_proceed_makes_progress(
    list: Commands,
    from: int,
    status: int,
    vars: Bindings,
    lines: Seq<LineView>,
)
    requires
        0 <= from <= list.len(),
    ensures
        proceed(list, from, status, vars, lines).action is Stop || 0 <= events_left(
            list,
            proceed(list, from, status, vars, lines).run,
        ) < ahead(list, from),
    decreases list.len() - from,
{
    lemma_next_runnable(list, from, status);
    let i = next_runnable(list, from, status);
    if i < list.len() {
        lemma_ahead(list, from, i);
        lemma_ahead(list, i + 1, i + 1);
        let p = list[i].0;
        lemma_next_stage(p, 0);
        match begin(p, i + 1, vars) {
            Outcome::Finished { status: s, vars: v, lines: l } => {
                lemma_proceed_makes_progress(list, i + 1, s, v, lines + l);
            },
            _ => {},
        }
    }
}

/// Every call brings the end of the list nearer: unless it stops the list,
/// it leaves fewer events to come than there were, and never less than
/// none. So a list is done after at most `events_left` further calls,
/// however the events fall.
pub proof fn lemma_every_call_makes_progress(
    list: Commands,
    run: Run,
    status: int,
    vars: Bindings,
    event: EventView,
)
    requires
        coherent(list, run),
        run.phase != Phase::Done,
        run.phase != Phase::Exited,
    ensures
        react(list, run, status, vars, event).action is Stop || 0 <= events_left(
            list,
            react(list, run, status, vars, event).run,
        ) < events_left(list, run),
{
    lemma_ahead(list, run.next, run.next);
    match run.phase {
        Phase::Idle => {
            lemma_proceed_makes_progress(list, run.next, status, vars, Seq::empty());
        },
        _ => {
            let p = list[run.next - 1].0;
            if run.phase == Phase::ChainSpawning {
                lemma_next_stage(p, run.stage + 1);
            }
            match respond(p, run, vars, event) {
                Outcome::Finished { status: s, vars: v, lines: l } => {
                    lemma_proceed_makes_progress(list, run.next, s, v, l);
                },
                _ => {},
            }
        },
    }
}

/// Running the list on leaves the last status as it is or records an exit
/// status: the status afterwards is the one before, or lies between 0 and
/// 255.
pub proof fn lemma_proceed_keeps_status(
    list: Commands,
    from: int,
    status: int,
    vars: Bindings,
    lines: Seq<LineView>,
)
    requires
        0 <= from <= list.len(),
    ensures
        proceed(list, from, status, vars, lines).status == status || is_status(
            proceed(list, from, status, vars, lines).status,
        ),
    decreases list.len() - from,
{
    lemma_next_runnable(list, from, status);
    let i = next_runnable(list, from, status);
    if i < list.len() {
        match begin(list[i].0, i + 1, vars) {
            Outcome::Finished { status: s, vars: v, lines: l } => {
                lemma_proceed_keeps_status(list, i + 1, s, v, lines + l);
            },
            _ => {},
        }
    }
}

/// The last status is always an exit status: a call leaves it as it is or
/// records a status between 0 and 255, whatever the event and whatever
/// number the event carries. So a last status in that range stays in it.
/// The status that an `exit` asks for, the code of a child and the status
/// that the caller reports for a builtin are all reduced to that range
/// before they are recorded.
pub proof fn lemma_status_stays_status(
    list: Commands,
    run: Run,
    status: int,
    vars: Bindings,
    event: EventView,
)
    requires
        coherent(list, run),
    ensures
        react(list, run, status, vars, event).status == status || is_status(
            react(list, run, status, vars, event).status,
        ),
        is_status(status) ==> is_status(react(list, run, status, vars, event).status),
{
    match run.phase {
        Phase::Idle => {
            lemma_proceed_keeps_status(list, run.next, status, vars, Seq::empty());
        },
        Phase::Done | Phase::Exited => {},
        _ => {
            match respond(list[run.next - 1].0, run, vars, event) {
                Outcome::Finished { status: s, vars: v, lines: l } => {
                    lemma_proceed_keeps_status(list, run.next, s, v, l);
                },
                _ => {},
            }
        },
    }
}

/// What a series of calls comes to, where the calls take `events` in order,
/// each from the position, the status and the variables that the call before
/// it left: what the last call comes to, with the lines of all calls.
pub open spec fn play(
    list: Commands,
    run: Run,
    status: int,
    vars: Bindings,
    events: Seq<EventView>,
) -> Turn
    recommends
        events.len() > 0,
    decreases events.len(),
{
    let first = react(list, run, status, vars, events[0]);
    if events.len() <= 1 {
        first
    } else {
        let rest = play(list, first.run, first.status, first.vars, events.skip(1));
        Turn {
            run: rest.run,
            status: rest.status,
            vars: rest.vars,
            lines: first.lines + rest.lines,
            action: rest.action,
        }
    }
}

/// Whether the phase is one of a pipe chain.
pub open spec fn in_chain(phase: Phase) -> bool {
    phase == Phase::ChainSpawning || phase == Phase::ChainWaiting || phase == Phase::ChainReaping
}

/// While a pipe chain is waited for and children are left after `events`,
/// the pipeline goes on: every event counts one child off.
pub proof fn lemma_chain_waiting_goes_on(
    p: Seq<Command>,
    run: Run,
    vars: Bindings,
    events: Seq<EventView>,
)
    requires
        run.phase == Phase::ChainWaiting,
        0 <= run.waited,
        0 < events.len() < run.children - run.waited,
    ensures
        chain_after(p, run, vars, events) == (Outcome::Next {
            run: Run {
                next: run.next,
                phase: Phase::ChainWaiting,
                stage: run.stage,
                children: run.children,
                waited: run.waited + events.len(),
                plain_in: false,
                plain_out: false,
            },
            lines: Seq::empty(),
            action: ActionView::Wait,
        }),
    decreases events.len(),
{
    if events.len() > 1 {
        let first = chain(p, run, vars, events[0]);
        lemma_chain_waiting_goes_on(p, first->Next_run, vars, events.skip(1));
    }
}

/// A series of calls on a pipe chain follows the chain: if the pipeline is
/// still in progress before the last of `events`, the calls come to what the
/// chain comes to after all of them. Where that is the end of the pipeline,
/// the list is run on behind it with the status of the pipeline.
pub proof fn lemma_play_follows_chain(
    list: Commands,
    run: Run,
    status: int,
    vars: Bindings,
    events: Seq<EventView>,
)
    requires
        coherent(list, run),
        in_chain(run.phase),
        events.len() > 0,
        events.len() > 1 ==> chain_after(list[run.next - 1].0, run, vars, events.drop_last()) is Next,
    ensures
        match chain_after(list[run.next - 1].0, run, vars, events) {
            Outcome::Finished { status: s, vars: v, lines: l } => {
                let end = proceed(list, run.next, s, v, l);
                let all = play(list, run, status, vars, events);
                all.run == end.run && all.status == end.status && all.vars == end.vars
                    && all.action == end.action
            },
            Outcome::Next { run: r, lines: l, action } => {
                let all = play(list, run, status, vars, events);
                all.run == r && all.status == status && all.vars == vars && all.action == action
            },
            Outcome::Quit { status: s } => true,
        },
    decreases events.len(),
{
    let p = list[run.next - 1].0;
    if events.len() > 1 {
        let first = chain(p, run, vars, events[0]);
        let front = events.drop_last();
        if front.len() > 1 {
            assert(front.skip(1) =~= events.skip(1).drop_last());
        }
        lemma_react_coherent(list, run, status, vars, events[0]);
        lemma_play_follows_chain(list, first->Next_run, status, vars, events.skip(1));
    }
}

/// The status of a pipe chain at the function: a list of one pipeline of two
/// or more commands that all name a program is run by one call for the
/// start, one for each stage that starts, and one for each child that ends.
/// After the last of them the list is done, and the last status is the
/// status of the child that ended last, whatever became of the others.
pub proof fn lemma_pipe_chain_play(list: Commands, status: int, vars: Bindings, exits: Seq<Exit>)
    requires
        list.len() == 1,
        runs(list[0].1, status),
        list[0].0.len() >= 2,
        all_named(list[0].0),
        exits.len() == list[0].0.len(),
    ensures
        play(
            list,
            at(0, Phase::Idle),
            status,
            vars,
            seq![EventView::Start] + smooth_events(exits),
        ).status == chain_status(exited(exits.last())),
        play(
            list,
            at(0, Phase::Idle),
            status,
            vars,
            seq![EventView::Start] + smooth_events(exits),
        ).action == ActionView::Stop(true),
        is_status(
            play(
                list,
                at(0, Phase::Idle),
                status,
                vars,
                seq![EventView::Start] + smooth_events(exits),
            ).status,
        ),
{
    let p = list[0].0;
    let events = smooth_events(exits);
    let all = seq![EventView::Start] + events;
    let spawned = Seq::new(exits.len(), |i: int| EventView::Spawned);
    let ended = Seq::new(exits.len(), |i: int| exited(exits[i]));
    let first = react(list, at(0, Phase::Idle), status, vars, EventView::Start);
    let run = first.run;
    assert(all.skip(1) =~= events);
    lemma_pipe_chain_status(p, 1, vars, exits);
    lemma_chain_starts_every_stage(p, run, vars, spawned);
    let waiting = chain_after(p, run, vars, spawned)->Next_run;
    let front = events.drop_last();
    assert(front =~= spawned + ended.drop_last());
    lemma_chain_after_in_parts(p, run, vars, spawned, ended.drop_last());
    lemma_chain_waiting_goes_on(p, waiting, vars, ended.drop_last());
    lemma_play_follows_chain(list, run, status, vars, events);
}

} // verus!
