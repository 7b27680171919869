//! The commands that the shell runs itself, and the search for the programs
//! that it does not.
//!
//! A builtin changes the shell's own state here and leaves as an [`Effect`]
//! what needs the operating system.

use vstd::prelude::*;
use vstd::string::*;
use crate::environment::{bind, lookup, unbind, valid_name, valid_value, Bindings, Environment};
use crate::shell::{is_status, normalise, status_of, Shell};
use crate::text::{
    chars_of, find_from, join_from, next_of, parse_i32, parse_int, pieces, spaced, split, str_eq,
    string_of,
};

verus! {

/// The commands that the shell executes itself.
#[derive(Debug, Clone, Copy, PartialEq, Eq, Structural)]
pub enum Builtin {
    Cd,
    Clear,
    Echo,
    Env,
    Exit,
    Export,
    Pwd,
    Type,
    Unset,
    Which,
}

/// The builtin that `name` names, if any.
pub open spec fn builtin_of(name: Seq<char>) -> Option<Builtin> {
    if name == "cd"@ {
        Some(Builtin::Cd)
    } else if name == "clear"@ {
        Some(Builtin::Clear)
    } else if name == "echo"@ {
        Some(Builtin::Echo)
    } else if name == "env"@ {
        Some(Builtin::Env)
    } else if name == "exit"@ {
        Some(Builtin::Exit)
    } else if name == "export"@ {
        Some(Builtin::Export)
    } else if name == "pwd"@ {
        Some(Builtin::Pwd)
    } else if name == "type"@ {
        Some(Builtin::Type)
    } else if name == "unset"@ {
        Some(Builtin::Unset)
    } else if name == "which"@ {
        Some(Builtin::Which)
    } else {
        None
    }
}

/// The names of the builtins, in alphabetical order.
pub open spec fn builtin_names() -> Seq<Seq<char>> {
    seq![
        "cd"@,
        "clear"@,
        "echo"@,
        "env"@,
        "exit"@,
        "export"@,
        "pwd"@,
        "type"@,
        "unset"@,
        "which"@,
    ]
}

/// A name is that of a builtin exactly if it is in the list of names.
pub proof fn lemma_builtin_names(name: Seq<char>)
    ensures
        builtin_of(name) is Some <==> builtin_names().contains(name),
{
}

/// The builtin named `name`, if there is one.
pub fn lookup_builtin(name: &str) -> (b: Option<Builtin>)
    ensures
        b == builtin_of(name@),
{
    if str_eq(name, "cd") {
        Some(Builtin::Cd)
    } else if str_eq(name, "clear") {
        Some(Builtin::Clear)
    } else if str_eq(name, "echo") {
        Some(Builtin::Echo)
    } else if str_eq(name, "env") {
        Some(Builtin::Env)
    } else if str_eq(name, "exit") {
        Some(Builtin::Exit)
    } else if str_eq(name, "export") {
        Some(Builtin::Export)
    } else if str_eq(name, "pwd") {
        Some(Builtin::Pwd)
    } else if str_eq(name, "type") {
        Some(Builtin::Type)
    } else if str_eq(name, "unset") {
        Some(Builtin::Unset)
    } else if str_eq(name, "which") {
        Some(Builtin::Which)
    } else {
        None
    }
}

/// Whether `name` names a builtin.
pub fn is_builtin(name: &str) -> (r: bool)
    ensures
        r == builtin_of(name@) is Some,
        r == builtin_names().contains(name@),
{
    lookup_builtin(name).is_some()
}

/// The names of the builtins, in alphabetical order.
pub fn names() -> (v: Vec<String>)
    ensures
        v.deep_view() == builtin_names(),
{
    let mut v: Vec<String> = Vec::new();
    v.push("cd".to_owned());
    v.push("clear".to_owned());
    v.push("echo".to_owned());
    v.push("env".to_owned());
    v.push("exit".to_owned());
    v.push("export".to_owned());
    v.push("pwd".to_owned());
    v.push("type".to_owned());
    v.push("unset".to_owned());
    v.push("which".to_owned());
    v
}

/// A line of output and the stream it goes to.
#[derive(Debug, Clone)]
pub enum Line {
    /// For standard output.
    Stdout(String),
    /// For standard error.
    Stderr(String),
}

/// What a [`Line`] stands for.
pub enum LineView {
    Stdout(Seq<char>),
    Stderr(Seq<char>),
}

impl View for Line {
    type V = LineView;

    open spec fn view(&self) -> LineView {
        match self {
            Line::Stdout(t) => LineView::Stdout(t@),
            Line::Stderr(t) => LineView::Stderr(t@),
        }
    }
}

impl DeepView for Line {
    type V = LineView;

    open spec fn deep_view(&self) -> LineView {
        self@
    }
}

/// What remains to be done for a builtin once the shell's own state has been
/// updated: the part that touches the operating system.
#[derive(Debug, Clone)]
pub enum Effect {
    /// Print the lines; the builtin's status is `status`.
    Done { lines: Vec<Line>, status: i32 },
    /// End the session. The status asked for is already in the shell state.
    Exit,
    /// Clear the terminal; the status is 0.
    Clear,
    /// Print the working directory; the status is 0, or 1 if it cannot be
    /// found out.
    PrintDir,
    /// Change the working directory to `base`, or to `rest` below `base`;
    /// the status is 0, or 1 if that fails.
    ChangeDir { base: String, rest: Option<String> },
    /// Search each name and report with [`report`], which gives the status.
    Locate { names: Vec<String>, describe: bool },
}

/// What an [`Effect`] stands for.
pub enum EffectView {
    Done { lines: Seq<LineView>, status: int },
    Exit,
    Clear,
    PrintDir,
    ChangeDir { base: Seq<char>, rest: Option<Seq<char>> },
    Locate { names: Seq<Seq<char>>, describe: bool },
}

impl View for Effect {
    type V = EffectView;

    open spec fn view(&self) -> EffectView {
        match self {
            Effect::Done { lines, status } => EffectView::Done {
                lines: lines.deep_view(),
                status: *status as int,
            },
            Effect::Exit => EffectView::Exit,
            Effect::Clear => EffectView::Clear,
            Effect::PrintDir => EffectView::PrintDir,
            Effect::ChangeDir { base, rest } => EffectView::ChangeDir {
                base: base@,
                rest: rest.deep_view(),
            },
            Effect::Locate { names, describe } => EffectView::Locate {
                names: names.deep_view(),
                describe: *describe,
            },
        }
    }
}

/// The home directory: `HOME`, or else `USERPROFILE`.
pub open spec fn home(vars: Bindings) -> Option<Seq<char>> {
    match lookup(vars, "HOME"@) {
        Some(h) => Some(h),
        None => lookup(vars, "USERPROFILE"@),
    }
}

/// The home directory, if the environment names one.
pub fn home_dir(env: &Environment) -> (dir: Option<String>)
    ensures
        dir.deep_view() == home(env@),
{
    match env.get("HOME") {
        Some(h) => Some(h),
        None => env.get("USERPROFILE"),
    }
}

/// Whether a path is `~` or starts with `~/` or `~\`.
pub open spec fn is_home_path(path: Seq<char>) -> bool {
    path == seq!['~'] || (path.len() >= 2 && path[0] == '~' && (path[1] == '/' || path[1] == '\\'))
}

/// The directory a path denotes, as a base and an optional part below it: a
/// `~` path lies below the home directory, or below `/` where none is known;
/// any other path is its own base.
pub open spec fn resolved(path: Seq<char>, vars: Bindings) -> (Seq<char>, Option<Seq<char>>) {
    if is_home_path(path) {
        let base = match home(vars) {
            Some(h) => h,
            None => seq!['/'],
        };
        if path.len() > 1 {
            (base, Some(path.skip(2)))
        } else {
            (base, None)
        }
    } else {
        (path, None)
    }
}

/// Resolves a leading `~` of a path against the home directory.
pub fn resolve_path(path: &str, env: &Environment) -> (target: (String, Option<String>))
    ensures
        target.deep_view() == resolved(path@, env@),
{
    let v = chars_of(path);
    if v.len() >= 1 && v[0] == '~' && (v.len() == 1 || v[1] == '/' || v[1] == '\\') {
        proof {
            if v.len() == 1 {
                assert(path@ =~= seq!['~']);
            }
        }
        let base = match home_dir(env) {
            Some(h) => h,
            None => {
                proof {
                    reveal_strlit("/");
                }
                "/".to_owned()
            },
        };
        if v.len() > 1 {
            let rest = string_of(&v, 2, v.len());
            (base, Some(rest))
        } else {
            (base, None)
        }
    } else {
        (path.to_owned(), None)
    }
}

/// The status that `exit` asks for, always between 0 and 255. It is the
/// first argument where that is a number between 0 and 255. A number outside
/// that range is reduced modulo 256, as the operating system reduces the
/// status of a process: `exit -1` asks for 255, `exit 300` for 44. Without
/// an argument, and with one that is no number of 32 bits, it is 0.
pub open spec fn exit_status(argv: Seq<Seq<char>>) -> int {
    if argv.len() > 1 {
        match parse_int(argv[1]) {
            Some(n) => status_of(n),
            None => 0,
        }
    } else {
        0
    }
}

/// Whatever its arguments, `exit` asks for an exit status.
pub proof fn lemma_exit_status_is_status(argv: Seq<Seq<char>>)
    ensures
        is_status(exit_status(argv)),
{
}

fn exit_code(argv: &[String]) -> (code: i32)
    ensures
        code == exit_status(argv.deep_view()),
        is_status(code as int),
{
    if argv.len() > 1 {
        match parse_i32(argv[1].as_str()) {
            Some(n) => normalise(n),
            None => 0,
        }
    } else {
        0
    }
}

/// The variables after the assignment `arg`: `name=value` binds the name if
/// name and value are acceptable; anything else changes nothing.
pub open spec fn assigned(vars: Bindings, arg: Seq<char>) -> Bindings {
    let p = next_of(arg, '=', 0);
    if p < arg.len() && valid_name(arg.take(p)) && valid_value(arg.skip(p + 1)) {
        bind(vars, arg.take(p), arg.skip(p + 1))
    } else {
        vars
    }
}

/// The variables after the assignments `args`, made from left to right.
pub open spec fn exported(vars: Bindings, args: Seq<Seq<char>>) -> Bindings
    decreases args.len(),
{
    if args.len() == 0 {
        vars
    } else {
        assigned(exported(vars, args.drop_last()), args.last())
    }
}

/// The variables after each of `names` has been removed.
pub open spec fn unset_all(vars: Bindings, names: Seq<Seq<char>>) -> Bindings
    decreases names.len(),
{
    if names.len() == 0 {
        vars
    } else {
        unbind(unset_all(vars, names.drop_last()), names.last())
    }
}

fn export(argv: &[String], env: &mut Environment)
    requires
        argv.len() >= 1,
    ensures
        final(env)@ == exported(old(env)@, argv.deep_view().skip(1)),
{
    let ghost args = argv.deep_view().skip(1);
    let mut i: usize = 1;
    while i < argv.len()
        invariant
            1 <= i <= argv.len(),
            args == argv.deep_view().skip(1),
            env@ == exported(old(env)@, args.take(i - 1)),
        decreases argv.len() - i,
    {
        proof {
            let next = args.take(i as int);
            assert(next.drop_last() =~= args.take(i - 1));
        }
        let v = chars_of(argv[i].as_str());
        let p = find_from(&v, '=', 0);
        if p < v.len() {
            let name = string_of(&v, 0, p);
            let value = string_of(&v, p + 1, v.len());
            env.set(name.as_str(), value.as_str());
        }
        i += 1;
    }
    assert(args.take(i - 1) =~= args);
}

fn unset(argv: &[String], env: &mut Environment)
    requires
        argv.len() >= 1,
    ensures
        final(env)@ == unset_all(old(env)@, argv.deep_view().skip(1)),
{
    let ghost args = argv.deep_view().skip(1);
    let mut i: usize = 1;
    while i < argv.len()
        invariant
            1 <= i <= argv.len(),
            args == argv.deep_view().skip(1),
            env@ == unset_all(old(env)@, args.take(i - 1)),
        decreases argv.len() - i,
    {
        proof {
            let next = args.take(i as int);
            assert(next.drop_last() =~= args.take(i - 1));
        }
        env.remove(argv[i].as_str());
        i += 1;
    }
    assert(args.take(i - 1) =~= args);
}

/// One line `name=value` for each variable, in order.
pub open spec fn listing(vars: Bindings) -> Seq<LineView> {
    Seq::new(vars.len(), |i: int| LineView::Stdout(vars[i].0 + seq!['='] + vars[i].1))
}

fn list(env: &Environment) -> (lines: Vec<Line>)
    ensures
        lines.deep_view() == listing(env@),
{
    let mut lines: Vec<Line> = Vec::new();
    let mut i: usize = 0;
    while i < env.len()
        invariant
            i <= env@.len(),
            lines.len() == i,
            forall|k: int| 0 <= k < i ==> (#[trigger] lines[k])@ == listing(env@)[k],
        decreases env@.len() - i,
    {
        let mut text = env.name_at(i).to_owned();
        text.push('=');
        text.append(env.value_at(i));
        assert(text@ =~= env@[i as int].0 + seq!['='] + env@[i as int].1);
        lines.push(Line::Stdout(text));
        i += 1;
    }
    lines
}

/// What the search for `name` came to, for `which` (`describe` false) or
/// `type` (`describe` true).
pub open spec fn verdict(name: Seq<char>, found: Option<Seq<char>>, describe: bool) -> LineView {
    if describe && builtin_of(name) is Some {
        LineView::Stdout(name + " is a shell builtin"@)
    } else {
        match found {
            Some(path) => if describe {
                LineView::Stdout(name + " is "@ + path)
            } else {
                LineView::Stdout(path)
            },
            None => LineView::Stderr(name + ": not found"@),
        }
    }
}

/// What was found for the `i`-th name; nothing where `found` is too short.
pub open spec fn found_at(found: Seq<Option<Seq<char>>>, i: int) -> Option<Seq<char>> {
    if 0 <= i < found.len() {
        found[i]
    } else {
        None
    }
}

/// The lines that `which` or `type` prints for `names`.
pub open spec fn verdicts(
    names: Seq<Seq<char>>,
    found: Seq<Option<Seq<char>>>,
    describe: bool,
) -> Seq<LineView> {
    Seq::new(names.len(), |i: int| verdict(names[i], found_at(found, i), describe))
}

/// The report of `which` or `type`: one line for each name, and status 1 if
/// any of them was not found, else 0.
pub open spec fn reported(
    names: Seq<Seq<char>>,
    found: Seq<Option<Seq<char>>>,
    describe: bool,
) -> EffectView {
    let lines = verdicts(names, found, describe);
    EffectView::Done {
        lines,
        status: if exists|i: int| 0 <= i < lines.len() && #[trigger] lines[i] is Stderr {
            1
        } else {
            0
        },
    }
}

/// Finishes `which` and `type`: `found[i]` is the path found for `names[i]`,
/// if any.
pub fn report(names: &[String], found: &[Option<String>], describe: bool) -> (effect: Effect)
    ensures
        effect@ == reported(names.deep_view(), found.deep_view(), describe),
{
    let ghost want = verdicts(names.deep_view(), found.deep_view(), describe);
    let mut lines: Vec<Line> = Vec::new();
    let mut code: i32 = 0;
    let mut i: usize = 0;
    while i < names.len()
        invariant
            i <= names.len(),
            lines.len() == i,
            want == verdicts(names.deep_view(), found.deep_view(), describe),
            forall|k: int| 0 <= k < i ==> (#[trigger] lines[k])@ == want[k],
            code == 0 || code == 1,
            code == 1 <==> exists|k: int| 0 <= k < i && #[trigger] want[k] is Stderr,
        decreases names.len() - i,
    {
        let name = names[i].as_str();
        let line = if describe && is_builtin(name) {
            let mut text = name.to_owned();
            text.append(" is a shell builtin");
            Line::Stdout(text)
        } else if i < found.len() && found[i].is_some() {
            let path = found[i].as_ref().unwrap();
            if describe {
                let mut text = name.to_owned();
                text.append(" is ");
                text.append(path.as_str());
                Line::Stdout(text)
            } else {
                Line::Stdout(path.clone())
            }
        } else {
            let mut text = name.to_owned();
            text.append(": not found");
            code = 1;
            Line::Stderr(text)
        };
        assert(line@ == want[i as int]);
        lines.push(line);
        i += 1;
    }
    assert(lines.deep_view() =~= want);
    Effect::Done { lines, status: code }
}

/// What the builtin call `argv` leaves to be done, given the variables in
/// force before it.
pub open spec fn effect_of(argv: Seq<Seq<char>>, vars: Bindings) -> EffectView {
    if argv.len() == 0 {
        EffectView::Done { lines: Seq::empty(), status: 127 }
    } else {
        match builtin_of(argv[0]) {
            Some(Builtin::Exit) => EffectView::Exit,
            Some(Builtin::Echo) => EffectView::Done {
                lines: seq![LineView::Stdout(spaced(argv.skip(1)))],
                status: 0,
            },
            Some(Builtin::Pwd) => EffectView::PrintDir,
            Some(Builtin::Cd) => {
                let path = if argv.len() > 1 {
                    argv[1]
                } else {
                    match home(vars) {
                        Some(h) => h,
                        None => Seq::empty(),
                    }
                };
                EffectView::ChangeDir { base: resolved(path, vars).0, rest: resolved(path, vars).1 }
            },
            Some(Builtin::Clear) => EffectView::Clear,
            Some(Builtin::Export) => EffectView::Done { lines: Seq::empty(), status: 0 },
            Some(Builtin::Unset) => EffectView::Done { lines: Seq::empty(), status: 0 },
            Some(Builtin::Env) => EffectView::Done { lines: listing(vars), status: 0 },
            Some(Builtin::Which) => EffectView::Locate { names: argv.skip(1), describe: false },
            Some(Builtin::Type) => EffectView::Locate { names: argv.skip(1), describe: true },
            None => EffectView::Done { lines: Seq::empty(), status: 127 },
        }
    }
}

/// The variables in force after the builtin call `argv`.
pub open spec fn vars_after(argv: Seq<Seq<char>>, vars: Bindings) -> Bindings {
    if argv.len() == 0 {
        vars
    } else {
        match builtin_of(argv[0]) {
            Some(Builtin::Export) => exported(vars, argv.skip(1)),
            Some(Builtin::Unset) => unset_all(vars, argv.skip(1)),
            _ => vars,
        }
    }
}

/// The last status on record after the builtin call `argv`: `exit` records
/// the status it asks for, which lies between 0 and 255; nothing else touches
/// the record.
pub open spec fn status_after(argv: Seq<Seq<char>>, status: int) -> int {
    if argv.len() > 0 && builtin_of(argv[0]) == Some(Builtin::Exit) {
        exit_status(argv)
    } else {
        status
    }
}

fn copy_from(words: &[String], from: usize) -> (v: Vec<String>)
    requires
        from <= words.len(),
    ensures
        v.deep_view() == words.deep_view().skip(from as int),
{
    let mut v: Vec<String> = Vec::new();
    let mut i: usize = from;
    while i < words.len()
        invariant
            from <= i <= words.len(),
            v.len() == i - from,
            forall|k: int| 0 <= k < v.len() ==> (#[trigger] v[k])@ == words[k + from]@,
        decreases words.len() - i,
    {
        v.push(words[i].clone());
        i += 1;
    }
    v
}

/// Runs the builtin call `argv` as far as the shell's own state goes, and
/// says what is left to do.
///
/// `exit` records its status in `shell`; `export` and `unset` change `env`;
/// everything that needs the operating system is described by the effect.
/// An `argv` that names no builtin gives status 127. A last status between
/// 0 and 255 stays so, and the status of an effect that is done lies there.
pub fn run(argv: &[String], shell: &mut Shell, env: &mut Environment) -> (effect: Effect)
    ensures
        effect@ == effect_of(argv.deep_view(), old(env)@),
        final(env)@ == vars_after(argv.deep_view(), old(env)@),
        final(shell).last_exit_code == status_after(
            argv.deep_view(),
            old(shell).last_exit_code as int,
        ),
        final(shell).last_exit_code == old(shell).last_exit_code || final(shell).valid(),
        old(shell).valid() ==> final(shell).valid(),
        effect matches Effect::Done { status, .. } ==> is_status(status as int),
{
    if argv.len() == 0 {
        let lines: Vec<Line> = Vec::new();
        assert(lines.deep_view() =~= Seq::empty());
        return Effect::Done { lines, status: 127 };
    }
    match lookup_builtin(argv[0].as_str()) {
        Some(Builtin::Exit) => {
            shell.last_exit_code = exit_code(argv);
            Effect::Exit
        },
        Some(Builtin::Echo) => {
            let mut lines: Vec<Line> = Vec::new();
            lines.push(Line::Stdout(join_from(argv, 1)));
            assert(lines.deep_view() =~= seq![LineView::Stdout(spaced(argv.deep_view().skip(1)))]);
            Effect::Done { lines, status: 0 }
        },
        Some(Builtin::Pwd) => Effect::PrintDir,
        Some(Builtin::Cd) => {
            let path = if argv.len() > 1 {
                argv[1].clone()
            } else {
                match home_dir(env) {
                    Some(h) => h,
                    None => String::new(),
                }
            };
            let (base, rest) = resolve_path(path.as_str(), env);
            Effect::ChangeDir { base, rest }
        },
        Some(Builtin::Clear) => Effect::Clear,
        Some(Builtin::Export) => {
            export(argv, env);
            let lines: Vec<Line> = Vec::new();
            assert(lines.deep_view() =~= Seq::empty());
            Effect::Done { lines, status: 0 }
        },
        Some(Builtin::Unset) => {
            unset(argv, env);
            let lines: Vec<Line> = Vec::new();
            assert(lines.deep_view() =~= Seq::empty());
            Effect::Done { lines, status: 0 }
        },
        Some(Builtin::Env) => Effect::Done { lines: list(env), status: 0 },
        Some(Builtin::Which) => Effect::Locate { names: copy_from(argv, 1), describe: false },
        Some(Builtin::Type) => Effect::Locate { names: copy_from(argv, 1), describe: true },
        None => {
            let lines: Vec<Line> = Vec::new();
            assert(lines.deep_view() =~= Seq::empty());
            Effect::Done { lines, status: 127 }
        },
    }
}

/// Whether a command name is a path rather than a bare name.
pub open spec fn has_separator(name: Seq<char>) -> bool {
    name.contains('/') || name.contains('\\')
}

/// `name` in the directory `dir`: an empty `dir` is the working directory.
pub open spec fn in_dir(dir: Seq<char>, name: Seq<char>) -> Seq<char> {
    if dir.len() == 0 {
        name
    } else if dir.last() == '/' {
        dir + name
    } else {
        dir + seq!['/'] + name
    }
}

/// The paths at which the command `name` is looked for, in order: a name
/// with a separator is itself the only candidate, a bare name is tried in
/// each directory of the search path `path`.
pub open spec fn candidates(name: Seq<char>, path: Seq<char>) -> Seq<Seq<char>> {
    if has_separator(name) {
        seq![name]
    } else {
        let dirs = pieces(path, ':', 0);
        Seq::new(dirs.len(), |i: int| in_dir(dirs[i], name))
    }
}

/// A command name that holds a separator is looked for at that path alone:
/// the search path has no part in it.
pub proof fn lemma_path_with_separator_skips_search(
    name: Seq<char>,
    path: Seq<char>,
    other: Seq<char>,
)
    requires
        has_separator(name),
    ensures
        candidates(name, path) == seq![name],
        candidates(name, path) == candidates(name, other),
{
}

/// A bare command name is looked for once in each directory of the search
/// path, in the order of the path.
pub proof fn lemma_bare_name_once_per_directory(name: Seq<char>, path: Seq<char>, i: int)
    requires
        !has_separator(name),
        0 <= i < pieces(path, ':', 0).len(),
    ensures
        candidates(name, path).len() == pieces(path, ':', 0).len(),
        candidates(name, path)[i] == in_dir(pieces(path, ':', 0)[i], name),
{
}

/// The search path: the value of `PATH`, or nothing.
pub open spec fn search_path(vars: Bindings) -> Seq<char> {
    match lookup(vars, "PATH"@) {
        Some(p) => p,
        None => Seq::empty(),
    }
}

fn contains_char(v: &Vec<char>, c: char) -> (r: bool)
    ensures
        r == v@.contains(c),
{
    let j = find_from(v, c, 0);
    proof {
        crate::text::lemma_next_of(v@, c, 0);
    }
    j < v.len()
}

fn join_path(dir: &str, name: &str) -> (path: String)
    ensures
        path@ == in_dir(dir@, name@),
{
    let d = chars_of(dir);
    if d.len() == 0 {
        name.to_owned()
    } else {
        let mut path = dir.to_owned();
        if d[d.len() - 1] != '/' {
            path.push('/');
        }
        path.append(name);
        path
    }
}

/// Lists the paths at which the command `name` is to be looked for, in the
/// order in which they are tried. The first that is an executable file is
/// the command; if none is, the command is not found.
pub fn find_in_path(name: &str, env: &Environment) -> (paths: Vec<String>)
    ensures
        paths.deep_view() == candidates(name@, search_path(env@)),
{
    let v = chars_of(name);
    let mut paths: Vec<String> = Vec::new();
    if contains_char(&v, '/') || contains_char(&v, '\\') {
        paths.push(name.to_owned());
        return paths;
    }
    let path_var = match env.get("PATH") {
        Some(p) => p,
        None => String::new(),
    };
    let dirs = split(path_var.as_str(), ':');
    let mut i: usize = 0;
    while i < dirs.len()
        invariant
            i <= dirs.len(),
            paths.len() == i,
            dirs.deep_view() == pieces(search_path(env@), ':', 0),
            forall|k: int| 0 <= k < i ==> (#[trigger] paths[k])@ == in_dir(dirs[k]@, name@),
        decreases dirs.len() - i,
    {
        paths.push(join_path(dirs[i].as_str(), name));
        i += 1;
    }
    paths
}

/// The index of the first candidate that is an executable file, where
/// `executable[i]` says whether the `i`-th candidate is one: the least index
/// that is marked, or the number of candidates.
pub open spec fn first_marked(executable: Seq<bool>, from: int) -> int
    decreases executable.len() - from,
{
    if 0 <= from < executable.len() && !executable[from] {
        first_marked(executable, from + 1)
    } else {
        from
    }
}

/// The command among the candidates `paths`: the first that is marked as an
/// executable file. A candidate without a mark counts as none.
pub open spec fn chosen(paths: Seq<Seq<char>>, executable: Seq<bool>) -> Option<Seq<char>> {
    let i = first_marked(executable, 0);
    if i < executable.len() && i < paths.len() {
        Some(paths[i])
    } else {
        None
    }
}

/// Picks the command among the candidates that [`find_in_path`] lists:
/// `executable[i]` says whether `paths[i]` is an executable file.
pub fn pick(paths: &[String], executable: &[bool]) -> (path: Option<String>)
    ensures
        path.deep_view() == chosen(paths.deep_view(), executable@),
{
    let mut i: usize = 0;
    while i < executable.len() && !executable[i]
        invariant
            i <= executable.len(),
            first_marked(executable@, i as int) == first_marked(executable@, 0),
        decreases executable.len() - i,
    {
        i += 1;
    }
    if i < executable.len() && i < paths.len() {
        Some(paths[i].clone())
    } else {
        None
    }
}

} // verus!
