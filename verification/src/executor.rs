//! The executor: runs a command list one event at a time.
//!
//! It starts nothing and prints nothing itself. Each call of [`run_list`]
//! takes the event that answers the action before and returns the lines to
//! print and the next action; what a call comes to is laid down in
//! [`crate::machine`].

use vstd::prelude::*;
use vstd::string::*;
use crate::builtins::{find_in_path, is_builtin, Effect, Line, LineView};
use crate::environment::{Bindings, Environment};
use crate::machine::{
    at, begin, chain, coherent, complaint, lemma_next_stage, lemma_status_stays_status,
    next_runnable, next_stage, play, proceed, react, runs, single, single_request, sink_of,
    source_of, stage_request, Outcome, Phase, Run, Turn,
};
use crate::parser::{CommandList, Commands, RunIf, SimpleCmd};
use crate::process::{Action, Event, EventView, Exit, Sink, Source, Spawn, Step};
use crate::shell::{is_status, normalise, Shell};

verus! {

/// The executor of one command list: the list and the position in it.
pub struct Execution {
    list: CommandList,
    next: usize,
    phase: Phase,
    stage: usize,
    children: usize,
    waited: usize,
    plain_in: bool,
    plain_out: bool,
}

impl View for Execution {
    type V = Run;

    closed spec fn view(&self) -> Run {
        Run {
            next: self.next as int,
            phase: self.phase,
            stage: self.stage as int,
            children: self.children as int,
            waited: self.waited as int,
            plain_in: self.plain_in,
            plain_out: self.plain_out,
        }
    }
}

/// What the pipeline asks of the caller, or how it ended.
enum Progress {
    Finished(i32),
    Quit,
    Next(Action),
}

/// Whether what was computed is what `outcome` says: the progress, the
/// position, the variables and the lines added.
spec fn agrees(
    progress: Progress,
    outcome: Outcome,
    run: Run,
    before: Run,
    vars: Bindings,
    added: Seq<LineView>,
    exit: int,
) -> bool {
    match outcome {
        Outcome::Finished { status, vars: v, lines } => {
            &&& progress == Progress::Finished(status as i32)
            &&& status == status as i32
            &&& vars == v
            &&& added == lines
            &&& run == before
        },
        Outcome::Quit { status } => {
            &&& progress is Quit
            &&& exit == status
            &&& added == Seq::<LineView>::empty()
            &&& run == before
        },
        Outcome::Next { run: r, lines, action } => {
            &&& progress is Next
            &&& progress->Next_0@ == action
            &&& added == lines
            &&& run == r
        },
    }
}

fn copy(words: &Vec<String>) -> (v: Vec<String>)
    ensures
        v.deep_view() == words.deep_view(),
{
    let mut v: Vec<String> = Vec::new();
    let mut i: usize = 0;
    while i < words.len()
        invariant
            i <= words.len(),
            v.len() == i,
            forall|k: int| 0 <= k < i ==> (#[trigger] v[k])@ == words[k]@,
        decreases words.len() - i,
    {
        v.push(words[i].clone());
        i += 1;
    }
    v
}

fn complain(subject: &str, what: &str) -> (line: Line)
    ensures
        line@ == complaint(subject@, what@),
{
    let mut text = subject.to_owned();
    text.append(": ");
    text.append(what);
    Line::Stderr(text)
}

/// The standard input of a command with the input redirection `file`;
/// `plain` says that the file could not be opened.
pub fn make_stdin(file: &Option<String>, plain: bool) -> (source: Source)
    ensures
        source@ == source_of(file.deep_view(), plain),
{
    match file {
        Some(f) => if plain {
            Source::Inherit
        } else {
            Source::File(f.clone())
        },
        None => Source::Inherit,
    }
}

/// The standard output of a command with the output redirection `file`;
/// `plain` says that the file could not be opened.
pub fn make_stdout(file: &Option<String>, append: bool, plain: bool) -> (sink: Sink)
    ensures
        sink@ == sink_of(file.deep_view(), append, plain),
{
    match file {
        Some(f) => if plain {
            Sink::Inherit
        } else {
            Sink::File { path: f.clone(), append }
        },
        None => Sink::Inherit,
    }
}

fn request_single(cmd: &SimpleCmd, plain_in: bool, plain_out: bool) -> (spawn: Spawn)
    ensures
        spawn@ == single_request(cmd@, plain_in, plain_out),
{
    Spawn {
        argv: copy(&cmd.argv),
        stdin: make_stdin(&cmd.stdin_file, plain_in),
        stdout: make_stdout(&cmd.stdout_file, cmd.append, plain_out),
    }
}

fn request_stage(p: &Vec<SimpleCmd>, k: usize, children: usize, plain_out: bool) -> (spawn: Spawn)
    requires
        k < p.len(),
    ensures
        spawn@ == stage_request(p.deep_view(), k as int, children as int, plain_out),
{
    let cmd = &p[k];
    Spawn {
        argv: copy(&cmd.argv),
        stdin: if children > 0 {
            Source::Pipe
        } else {
            make_stdin(&cmd.stdin_file, false)
        },
        stdout: if k == p.len() - 1 {
            make_stdout(&cmd.stdout_file, cmd.append, plain_out)
        } else {
            Sink::Pipe
        },
    }
}

fn skip_empty(p: &Vec<SimpleCmd>, from: usize) -> (k: usize)
    requires
        from <= p.len(),
    ensures
        k == next_stage(p.deep_view(), from as int),
        from <= k <= p.len(),
        k < p.len() ==> p[k as int].argv.len() > 0,
{
    let mut k = from;
    while k < p.len() && p[k].argv.len() == 0
        invariant
            from <= k <= p.len(),
            next_stage(p.deep_view(), k as int) == next_stage(p.deep_view(), from as int),
        decreases p.len() - k,
    {
        k += 1;
    }
    k
}

impl Execution {
    /// The list that is being run.
    pub closed spec fn commands(&self) -> Commands {
        self.list.deep_view()
    }

    /// The position is coherent with the list.
    pub open spec fn well_formed(&self) -> bool {
        coherent(self.commands(), self@)
    }

    /// An executor that stands before the first entry of `list`.
    pub fn new(list: CommandList) -> (exec: Execution)
        ensures
            exec.commands() == list.deep_view(),
            exec@ == at(0, Phase::Idle),
            exec.well_formed(),
    {
        Execution {
            list,
            next: 0,
            phase: Phase::Idle,
            stage: 0,
            children: 0,
            waited: 0,
            plain_in: false,
            plain_out: false,
        }
    }

    /// What the executor is waiting for.
    pub fn phase(&self) -> (phase: Phase)
        ensures
            phase == self@.phase,
    {
        self.phase
    }

    fn set(&mut self, phase: Phase, stage: usize, children: usize, waited: usize, plain_in: bool, plain_out: bool)
        ensures
            final(self).commands() == old(self).commands(),
            final(self).list == old(self).list,
            final(self)@ == (Run {
                next: old(self)@.next,
                phase,
                stage: stage as int,
                children: children as int,
                waited: waited as int,
                plain_in,
                plain_out,
            }),
    {
        self.phase = phase;
        self.stage = stage;
        self.children = children;
        self.waited = waited;
        self.plain_in = plain_in;
        self.plain_out = plain_out;
    }
}

/// Starts the pipeline of the entry before `exec.next`.
///
/// What it comes to is [`begin`] of that pipeline.
fn run_pipeline(
    exec: &mut Execution,
    shell: &mut Shell,
    env: &mut Environment,
    lines: &mut Vec<Line>,
) -> (progress: Progress)
    requires
        1 <= old(exec).next <= old(exec).list.len(),
    ensures
        final(exec).list == old(exec).list,
        agrees(
            progress,
            begin(
                old(exec).commands()[old(exec)@.next - 1].0,
                old(exec)@.next,
                old(env)@,
            ),
            final(exec)@,
            old(exec)@,
            final(env)@,
            final(lines).deep_view().skip(old(lines).deep_view().len() as int),
            final(shell).last_exit_code as int,
        ),
        final(lines).deep_view().take(old(lines).deep_view().len() as int) == old(
            lines,
        ).deep_view(),
        old(lines).deep_view().len() <= final(lines).deep_view().len(),
        !(progress is Quit) ==> final(shell).last_exit_code == old(shell).last_exit_code,
        progress is Next ==> final(env)@ == old(env)@,
        progress is Quit ==> final(env)@ == old(env)@,
{
    let i = exec.next - 1;
    let ghost before = lines.deep_view();
    assert(lines.deep_view().skip(before.len() as int) =~= Seq::<LineView>::empty());
    let n = exec.list[i].0.len();
    if n == 0 {
        return Progress::Finished(0);
    }
    if n == 1 {
        if exec.list[i].0[0].argv.len() == 0 {
            return Progress::Finished(0);
        }
        if is_builtin(exec.list[i].0[0].argv[0].as_str()) {
            let argv = exec.list[i].0[0].argv.as_slice();
            let effect = crate::builtins::run(argv, shell, env);
            match effect {
                Effect::Exit => {
                    return Progress::Quit;
                },
                Effect::Done { lines: mut more, status } => {
                    let ghost added = more.deep_view();
                    lines.append(&mut more);
                    assert(lines.deep_view().skip(before.len() as int) =~= added);
                    return Progress::Finished(status);
                },
                other => {
                    exec.set(Phase::Builtin, 0, 0, 0, false, false);
                    return Progress::Next(Action::Builtin(other));
                },
            }
        }
        let paths = find_in_path(exec.list[i].0[0].argv[0].as_str(), env);
        exec.set(Phase::Resolving, 0, 0, 0, false, false);
        return Progress::Next(Action::Resolve(paths));
    }
    let k = skip_empty(&exec.list[i].0, 0);
    if k < n {
        let spawn = request_stage(&exec.list[i].0, k, 0, false);
        exec.set(Phase::ChainSpawning, k, 0, 0, false, false);
        Progress::Next(Action::Spawn(spawn))
    } else {
        Progress::Finished(0)
    }
}

/// Whether the entry with condition `cond` runs after `status`.
fn condition_holds(cond: RunIf, status: i32) -> (r: bool)
    ensures
        r == runs(cond, status as int),
{
    match cond {
        RunIf::Always => true,
        RunIf::OnSuccess => status == 0,
        RunIf::OnFailure => status != 0,
    }
}

/// Takes the event that answers the last action for a command that runs on
/// its own, or for a builtin whose effect the caller carried out.
///
/// What it comes to is [`single`] of that command.
fn spawn_single(
    exec: &mut Execution,
    event: &Event,
    lines: &mut Vec<Line>,
    Ghost(vars): Ghost<Bindings>,
) -> (progress: Progress)
    requires
        old(exec).well_formed(),
        old(lines).len() == 0,
        old(exec).phase == Phase::Builtin || old(exec).phase == Phase::Resolving || old(
            exec,
        ).phase == Phase::Spawning || old(exec).phase == Phase::Waiting,
    ensures
        final(exec).list == old(exec).list,
        agrees(
            progress,
            single(
                old(exec).commands()[old(exec)@.next - 1].0[0],
                old(exec)@,
                vars,
                event@,
            ),
            final(exec)@,
            old(exec)@,
            vars,
            final(lines).deep_view(),
            0,
        ),
        final(exec).well_formed(),
{
    let i = exec.next - 1;
    let ghost c = exec.commands()[i as int].0[0];
    assert(lines.deep_view() =~= Seq::<LineView>::empty());
    match exec.phase {
        Phase::Resolving => match event {
            Event::Resolved(true) => {
                let spawn = request_single(&exec.list[i].0[0], false, false);
                exec.set(Phase::Spawning, 0, 0, 0, false, false);
                Progress::Next(Action::Spawn(spawn))
            },
            _ => {
                lines.push(complain(exec.list[i].0[0].argv[0].as_str(), "command not found"));
                assert(lines.deep_view() =~= seq![complaint(c.argv[0], "command not found"@)]);
                Progress::Finished(127)
            },
        },
        Phase::Spawning => match event {
            Event::Spawned => {
                let plain_in = exec.plain_in;
                let plain_out = exec.plain_out;
                exec.set(Phase::Waiting, 0, 0, 0, plain_in, plain_out);
                Progress::Next(Action::Wait)
            },
            Event::InputFailed(why) => {
                if exec.list[i].0[0].stdin_file.is_some() && !exec.plain_in {
                    let file = exec.list[i].0[0].stdin_file.as_ref().unwrap();
                    lines.push(complain(file.as_str(), why.as_str()));
                    assert(lines.deep_view() =~= seq![complaint(c.stdin_file->0, why@)]);
                    let plain_out = exec.plain_out;
                    let spawn = request_single(&exec.list[i].0[0], true, plain_out);
                    exec.set(Phase::Spawning, 0, 0, 0, true, plain_out);
                    Progress::Next(Action::Spawn(spawn))
                } else {
                    Progress::Finished(1)
                }
            },
            Event::OutputFailed(why) => {
                if exec.list[i].0[0].stdout_file.is_some() && !exec.plain_out {
                    let file = exec.list[i].0[0].stdout_file.as_ref().unwrap();
                    lines.push(complain(file.as_str(), why.as_str()));
                    assert(lines.deep_view() =~= seq![complaint(c.stdout_file->0, why@)]);
                    let plain_in = exec.plain_in;
                    let spawn = request_single(&exec.list[i].0[0], plain_in, true);
                    exec.set(Phase::Spawning, 0, 0, 0, plain_in, true);
                    Progress::Next(Action::Spawn(spawn))
                } else {
                    Progress::Finished(1)
                }
            },
            Event::SpawnFailed(why) => {
                lines.push(complain(exec.list[i].0[0].argv[0].as_str(), why.as_str()));
                assert(lines.deep_view() =~= seq![complaint(c.argv[0], why@)]);
                Progress::Finished(1)
            },
            _ => Progress::Finished(1),
        },
        Phase::Waiting => match event {
            Event::Exited(Exit::Code(code)) => Progress::Finished(normalise(*code)),
            _ => Progress::Finished(1),
        },
        _ => match event {
            Event::Status(code) => Progress::Finished(normalise(*code)),
            _ => Progress::Finished(1),
        },
    }
}

/// Takes the event that answers the last action for a pipe chain.
///
/// What it comes to is [`chain`] of that pipeline.
fn run_pipe_chain(
    exec: &mut Execution,
    event: &Event,
    lines: &mut Vec<Line>,
    Ghost(vars): Ghost<Bindings>,
) -> (progress: Progress)
    requires
        old(exec).well_formed(),
        old(lines).len() == 0,
        old(exec).phase == Phase::ChainSpawning || old(exec).phase == Phase::ChainWaiting || old(
            exec,
        ).phase == Phase::ChainReaping,
    ensures
        final(exec).list == old(exec).list,
        agrees(
            progress,
            chain(old(exec).commands()[old(exec)@.next - 1].0, old(exec)@, vars, event@),
            final(exec)@,
            old(exec)@,
            vars,
            final(lines).deep_view(),
            0,
        ),
        final(exec).well_formed(),
{
    let i = exec.next - 1;
    let k = exec.stage;
    let n = exec.children;
    let ghost p = exec.commands()[i as int].0;
    assert(p.len() == exec.list[i as int].0.len());
    assert(lines.deep_view() =~= Seq::<LineView>::empty());
    let mut failed = false;
    match exec.phase {
        Phase::ChainSpawning => {
            match event {
                Event::Spawned => {
                    let k2 = skip_empty(&exec.list[i].0, k + 1);
                    if k2 < exec.list[i].0.len() {
                        let spawn = request_stage(&exec.list[i].0, k2, n + 1, false);
                        exec.set(Phase::ChainSpawning, k2, n + 1, 0, false, false);
                        return Progress::Next(Action::Spawn(spawn));
                    } else {
                        exec.set(Phase::ChainWaiting, k, n + 1, 0, false, false);
                        return Progress::Next(Action::Wait);
                    }
                },
                Event::InputFailed(why) => {
                    if n == 0 && exec.list[i].0[k].stdin_file.is_some() {
                        let file = exec.list[i].0[k].stdin_file.as_ref().unwrap();
                        lines.push(complain(file.as_str(), why.as_str()));
                        assert(lines.deep_view() =~= seq![complaint(p[k as int].stdin_file->0, why@)]);
                        return Progress::Finished(1);
                    }
                    failed = true;
                },
                Event::OutputFailed(why) => {
                    if k == exec.list[i].0.len() - 1 && exec.list[i].0[k].stdout_file.is_some()
                        && !exec.plain_out {
                        let file = exec.list[i].0[k].stdout_file.as_ref().unwrap();
                        lines.push(complain(file.as_str(), why.as_str()));
                        assert(lines.deep_view() =~= seq![
                            complaint(p[k as int].stdout_file->0, why@),
                        ]);
                        let spawn = request_stage(&exec.list[i].0, k, n, true);
                        exec.set(Phase::ChainSpawning, k, n, 0, false, true);
                        return Progress::Next(Action::Spawn(spawn));
                    }
                    failed = true;
                },
                Event::SpawnFailed(why) => {
                    lines.push(complain(exec.list[i].0[k].argv[0].as_str(), why.as_str()));
                    assert(lines.deep_view() =~= seq![complaint(p[k as int].argv[0], why@)]);
                    failed = true;
                },
                _ => {
                    failed = true;
                },
            }
            if n > 0 {
                exec.set(Phase::ChainReaping, k, n, 0, false, false);
                Progress::Next(Action::Wait)
            } else {
                Progress::Finished(1)
            }
        },
        Phase::ChainReaping => {
            if exec.waited + 1 < n {
                let waited = exec.waited + 1;
                exec.set(Phase::ChainReaping, k, n, waited, false, false);
                Progress::Next(Action::Wait)
            } else {
                Progress::Finished(1)
            }
        },
        _ => {
            if exec.waited + 1 < n {
                let waited = exec.waited + 1;
                exec.set(Phase::ChainWaiting, k, n, waited, false, false);
                Progress::Next(Action::Wait)
            } else {
                match event {
                    Event::Exited(Exit::Code(code)) => Progress::Finished(normalise(*code)),
                    _ => Progress::Finished(0),
                }
            }
        },
    }
}

/// Runs a command list, one event at a time.
///
/// The first call takes [`Event::Start`]. Each call prints nothing and
/// starts nothing itself: it returns the lines to print and the action to
/// take, and the next call takes the event that answers that action. An
/// event that does not answer the action counts as its failure. The action
/// `Stop(keep)` ends the list; `keep` is `false` exactly if an `exit` ended
/// it, and the status that the `exit` asked for is then in `shell`. Every
/// status that is recorded lies between 0 and 255, whatever number the event
/// carries: a last status in that range stays in it.
///
/// The call comes to exactly [`react`]: the position, the last status in
/// `shell`, the variables in `env`, the lines and the action.
pub fn run_list(exec: &mut Execution, shell: &mut Shell, env: &mut Environment, event: Event) -> (step:
    Step)
    requires
        old(exec).well_formed(),
    ensures
        final(exec).well_formed(),
        final(exec).commands() == old(exec).commands(),
        final(shell).last_exit_code == old(shell).last_exit_code || final(shell).valid(),
        old(shell).valid() ==> final(shell).valid(),
        final(exec)@ == react(
            old(exec).commands(),
            old(exec)@,
            old(shell).last_exit_code as int,
            old(env)@,
            event@,
        ).run,
        final(shell).last_exit_code == react(
            old(exec).commands(),
            old(exec)@,
            old(shell).last_exit_code as int,
            old(env)@,
            event@,
        ).status,
        final(env)@ == react(
            old(exec).commands(),
            old(exec)@,
            old(shell).last_exit_code as int,
            old(env)@,
            event@,
        ).vars,
        step.lines.deep_view() == react(
            old(exec).commands(),
            old(exec)@,
            old(shell).last_exit_code as int,
            old(env)@,
            event@,
        ).lines,
        step.action@ == react(
            old(exec).commands(),
            old(exec)@,
            old(shell).last_exit_code as int,
            old(env)@,
            event@,
        ).action,
{
    let ghost list = exec.commands();
    let ghost goal = react(list, exec@, shell.last_exit_code as int, env@, event@);
    proof {
        lemma_status_stays_status(list, exec@, shell.last_exit_code as int, env@, event@);
    }
    let mut lines: Vec<Line> = Vec::new();
    assert(lines.deep_view() =~= Seq::<LineView>::empty());
    match exec.phase {
        Phase::Done => {
            return Step { lines, action: Action::Stop(true) };
        },
        Phase::Exited => {
            return Step { lines, action: Action::Stop(false) };
        },
        Phase::Idle => {},
        Phase::ChainSpawning | Phase::ChainWaiting | Phase::ChainReaping => {
            match run_pipe_chain(exec, &event, &mut lines, Ghost(env@)) {
                Progress::Next(action) => {
                    return Step { lines, action };
                },
                Progress::Finished(status) => {
                    shell.last_exit_code = status;
                },
                Progress::Quit => {
                    return Step { lines, action: Action::Stop(false) };
                },
            }
        },
        _ => {
            match spawn_single(exec, &event, &mut lines, Ghost(env@)) {
                Progress::Next(action) => {
                    return Step { lines, action };
                },
                Progress::Finished(status) => {
                    shell.last_exit_code = status;
                },
                Progress::Quit => {
                    return Step { lines, action: Action::Stop(false) };
                },
            }
        },
    }
    loop
        invariant
            exec.list.deep_view() == list,
            list == old(exec).commands(),
            exec.next <= exec.list.len(),
            goal.status == old(shell).last_exit_code || is_status(goal.status),
            goal == react(
                old(exec).commands(),
                old(exec)@,
                old(shell).last_exit_code as int,
                old(env)@,
                event@,
            ),
            goal == proceed(
                list,
                exec.next as int,
                shell.last_exit_code as int,
                env@,
                lines.deep_view(),
            ),
        decreases exec.list.len() - exec.next,
    {
        let mut i = exec.next;
        while i < exec.list.len() && !condition_holds(exec.list[i].1, shell.last_exit_code)
            invariant
                exec.list.deep_view() == list,
                exec.next <= i <= exec.list.len(),
                next_runnable(list, i as int, shell.last_exit_code as int) == next_runnable(
                    list,
                    exec.next as int,
                    shell.last_exit_code as int,
                ),
            decreases exec.list.len() - i,
        {
            i += 1;
        }
        if i >= exec.list.len() {
            exec.next = i;
            exec.set(Phase::Done, 0, 0, 0, false, false);
            return Step { lines, action: Action::Stop(true) };
        }
        exec.next = i + 1;
        let ghost before = lines.deep_view();
        let ghost outcome = begin(list[i as int].0, i + 1, env@);
        match run_pipeline(exec, shell, env, &mut lines) {
            Progress::Finished(status) => {
                shell.last_exit_code = status;
                assert(lines.deep_view() =~= before + outcome->Finished_lines) by {
                    assert(lines.deep_view() =~= lines.deep_view().take(before.len() as int)
                        + lines.deep_view().skip(before.len() as int));
                }
            },
            Progress::Quit => {
                exec.set(Phase::Exited, 0, 0, 0, false, false);
                return Step { lines, action: Action::Stop(false) };
            },
            Progress::Next(action) => {
                proof {
                    lemma_next_stage(list[i as int].0, 0);
                }
                return Step { lines, action };
            },
        }
    }
}

/// The events as the executor sees them.
pub open spec fn views(events: Seq<Event>) -> Seq<EventView> {
    Seq::new(events.len(), |i: int| events[i]@)
}

/// The turn `turn` with `lines` printed before its own lines.
spec fn after_lines(lines: Seq<LineView>, turn: Turn) -> Turn {
    Turn {
        run: turn.run,
        status: turn.status,
        vars: turn.vars,
        lines: lines + turn.lines,
        action: turn.action,
    }
}

/// Runs a command list through a series of events that is known beforehand:
/// the first call of [`run_list`] takes the first event, each further call
/// the next. This is for a caller that has the answers at hand when it
/// starts, such as a dry run over recorded outcomes.
///
/// The result is the action that the last call asks for, with the lines of
/// all calls in order; it is `None` if there is no event, and nothing has
/// changed then. Otherwise the calls come to exactly [`play`], of which
/// [`crate::machine::lemma_pipe_chain_play`] says what it is for a pipe
/// chain whose stages all start.
pub fn run_script(
    exec: &mut Execution,
    shell: &mut Shell,
    env: &mut Environment,
    events: Vec<Event>,
) -> (step: Option<Step>)
    requires
        old(exec).well_formed(),
    ensures
        final(exec).well_formed(),
        final(exec).commands() == old(exec).commands(),
        final(shell).last_exit_code == old(shell).last_exit_code || final(shell).valid(),
        old(shell).valid() ==> final(shell).valid(),
        events.len() == 0 ==> {
            &&& step is None
            &&& final(exec)@ == old(exec)@
            &&& final(shell).last_exit_code == old(shell).last_exit_code
            &&& final(env)@ == old(env)@
        },
        events.len() > 0 ==> {
            let turn = play(
                old(exec).commands(),
                old(exec)@,
                old(shell).last_exit_code as int,
                old(env)@,
                views(events@),
            );
            &&& step is Some
            &&& final(exec)@ == turn.run
            &&& final(shell).last_exit_code == turn.status
            &&& final(env)@ == turn.vars
            &&& step.unwrap().lines.deep_view() == turn.lines
            &&& step.unwrap().action@ == turn.action
        },
{
    let mut events = events;
    let n = events.len();
    if n == 0 {
        return None;
    }
    let ghost all = views(events@);
    let ghost list = exec.commands();
    let ghost goal = play(list, exec@, shell.last_exit_code as int, env@, all);
    let mut lines: Vec<Line> = Vec::new();
    let mut i: usize = 0;
    assert(all.skip(0) =~= all);
    while i + 1 < n
        invariant
            n == events.len(),
            n == all.len(),
            i < n,
            exec.well_formed(),
            exec.commands() == list,
            forall|k: int| i <= k < n ==> (#[trigger] events[k])@ == all[k],
            shell.last_exit_code == old(shell).last_exit_code || shell.valid(),
            goal == after_lines(
                lines.deep_view(),
                play(list, exec@, shell.last_exit_code as int, env@, all.skip(i as int)),
            ),
        decreases n - i,
    {
        let mut event = Event::Start;
        std::mem::swap(&mut event, &mut events[i]);
        let ghost before = lines.deep_view();
        let ghost rest = all.skip(i as int);
        assert(rest.skip(1) =~= all.skip(i + 1));
        let step = run_list(exec, shell, env, event);
        let mut more = step.lines;
        let ghost added = more.deep_view();
        lines.append(&mut more);
        assert(lines.deep_view() =~= before + added);
        i += 1;
        assert(goal == after_lines(
            lines.deep_view(),
            play(list, exec@, shell.last_exit_code as int, env@, all.skip(i as int)),
        )) by {
            let tail = play(list, exec@, shell.last_exit_code as int, env@, all.skip(i as int));
            assert(before + (added + tail.lines) =~= (before + added) + tail.lines);
        }
    }
    let mut event = Event::Start;
    std::mem::swap(&mut event, &mut events[i]);
    let step = run_list(exec, shell, env, event);
    let mut more = step.lines;
    lines.append(&mut more);
    Some(Step { lines, action: step.action })
}

} // verus!
