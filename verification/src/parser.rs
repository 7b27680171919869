//! The parser: from tokens to a list of pipelines.
//!
//! [`parsed`] says what list a token sequence stands for; [`parse`] builds
//! it.

use vstd::prelude::*;
use vstd::string::*;
use crate::environment::Bindings;
use crate::lexer::{at, lemma_step_advances, lex_with, scan, start, step, Lexeme, Scan, Token};

verus! {

/// One command with optional redirections.
#[derive(Debug, Clone)]
pub struct SimpleCmd {
    /// The program or builtin name, followed by its arguments.
    pub argv: Vec<String>,
    /// File that standard input is read from.
    pub stdin_file: Option<String>,
    /// File that standard output is written to.
    pub stdout_file: Option<String>,
    /// Whether output is appended to `stdout_file` rather than replacing it.
    pub append: bool,
}

/// A sequence of commands connected by pipes.
pub type Pipeline = Vec<SimpleCmd>;

/// How a pipeline is conditionally connected to the previous one.
#[derive(Debug, Clone, Copy, PartialEq, Eq, Structural)]
pub enum RunIf {
    /// First, or after `;`.
    Always,
    /// After `&&`.
    OnSuccess,
    /// After `||`.
    OnFailure,
}

/// A pipeline with its run condition.
pub type CommandList = Vec<(Pipeline, RunIf)>;

/// What a [`SimpleCmd`] stands for.
pub struct Command {
    pub argv: Seq<Seq<char>>,
    pub stdin_file: Option<Seq<char>>,
    pub stdout_file: Option<Seq<char>>,
    pub append: bool,
}

/// What a [`CommandList`] stands for.
pub type Commands = Seq<(Seq<Command>, RunIf)>;

impl View for SimpleCmd {
    type V = Command;

    open spec fn view(&self) -> Command {
        Command {
            argv: self.argv.deep_view(),
            stdin_file: self.stdin_file.deep_view(),
            stdout_file: self.stdout_file.deep_view(),
            append: self.append,
        }
    }
}

impl DeepView for SimpleCmd {
    type V = Command;

    open spec fn deep_view(&self) -> Command {
        self@
    }
}

impl DeepView for RunIf {
    type V = RunIf;

    open spec fn deep_view(&self) -> RunIf {
        *self
    }
}

impl Default for SimpleCmd {
    fn default() -> (cmd: SimpleCmd)
        ensures
            cmd@ == blank(),
    {
        let cmd = SimpleCmd { argv: Vec::new(), stdin_file: None, stdout_file: None, append: false };
        assert(cmd.argv.deep_view() =~= Seq::empty());
        cmd
    }
}

/// The command that nothing has been put into yet.
pub open spec fn blank() -> Command {
    Command { argv: Seq::empty(), stdin_file: None, stdout_file: None, append: false }
}

/// Whether a command holds neither a word nor a redirection.
pub open spec fn is_blank(c: Command) -> bool {
    c.argv.len() == 0 && c.stdin_file is None && c.stdout_file is None
}

/// The parser between two tokens: the finished list, the pipeline and the
/// command under construction, and the condition that the pipeline under
/// construction will carry.
pub struct Build {
    pub list: Commands,
    pub pipeline: Seq<Command>,
    pub cmd: Command,
    pub run_if: RunIf,
}

/// The parser before the first token.
pub open spec fn initial() -> Build {
    Build { list: Seq::empty(), pipeline: Seq::empty(), cmd: blank(), run_if: RunIf::Always }
}

/// Ends the command under construction: it joins the pipeline unless it is
/// blank.
pub open spec fn end_command(b: Build) -> Build {
    if is_blank(b.cmd) {
        b
    } else {
        Build { list: b.list, pipeline: b.pipeline.push(b.cmd), cmd: blank(), run_if: b.run_if }
    }
}

/// Ends the pipeline under construction: it joins the list with the pending
/// condition unless it is empty; `next` becomes the pending condition either
/// way.
pub open spec fn end_pipeline(b: Build, next: RunIf) -> Build {
    let b = end_command(b);
    if b.pipeline.len() > 0 {
        Build {
            list: b.list.push((b.pipeline, b.run_if)),
            pipeline: Seq::empty(),
            cmd: b.cmd,
            run_if: next,
        }
    } else {
        Build { list: b.list, pipeline: b.pipeline, cmd: b.cmd, run_if: next }
    }
}

/// What one token does to the parser.
pub open spec fn feed(b: Build, t: Lexeme) -> Build {
    match t {
        Lexeme::Word(w) => Build {
            list: b.list,
            pipeline: b.pipeline,
            cmd: Command {
                argv: b.cmd.argv.push(w),
                stdin_file: b.cmd.stdin_file,
                stdout_file: b.cmd.stdout_file,
                append: b.cmd.append,
            },
            run_if: b.run_if,
        },
        Lexeme::Pipe => end_command(b),
        Lexeme::Semicolon => end_pipeline(b, RunIf::Always),
        Lexeme::And => end_pipeline(b, RunIf::OnSuccess),
        Lexeme::Or => end_pipeline(b, RunIf::OnFailure),
        Lexeme::RedirectOut(f) => Build {
            list: b.list,
            pipeline: b.pipeline,
            cmd: Command {
                argv: b.cmd.argv,
                stdin_file: b.cmd.stdin_file,
                stdout_file: Some(f),
                append: false,
            },
            run_if: b.run_if,
        },
        Lexeme::RedirectAppend(f) => Build {
            list: b.list,
            pipeline: b.pipeline,
            cmd: Command {
                argv: b.cmd.argv,
                stdin_file: b.cmd.stdin_file,
                stdout_file: Some(f),
                append: true,
            },
            run_if: b.run_if,
        },
        Lexeme::RedirectIn(f) => Build {
            list: b.list,
            pipeline: b.pipeline,
            cmd: Command {
                argv: b.cmd.argv,
                stdin_file: Some(f),
                stdout_file: b.cmd.stdout_file,
                append: b.cmd.append,
            },
            run_if: b.run_if,
        },
    }
}

/// The parser after all of `tokens`, fed from left to right.
pub open spec fn feed_all(b: Build, tokens: Seq<Lexeme>) -> Build
    decreases tokens.len(),
{
    if tokens.len() == 0 {
        b
    } else {
        feed(feed_all(b, tokens.drop_last()), tokens.last())
    }
}

/// The command list that `tokens` stand for: the end of the input ends the
/// last pipeline as a `;` would.
pub open spec fn parsed(tokens: Seq<Lexeme>) -> Commands {
    end_pipeline(feed_all(initial(), tokens), RunIf::Always).list
}

/// Every pipeline of the list has a command, and no command is blank.
pub open spec fn finalized(list: Commands) -> bool {
    forall|i: int|
        0 <= i < list.len() ==> (#[trigger] list[i]).0.len() > 0 && full(list[i].0)
}

/// No command of the pipeline is blank.
pub open spec fn full(pipeline: Seq<Command>) -> bool {
    forall|j: int| 0 <= j < pipeline.len() ==> !is_blank(#[trigger] pipeline[j])
}

/// The part of the parser's state that is already settled is finalized.
pub open spec fn settled(b: Build) -> bool {
    finalized(b.list) && full(b.pipeline)
}

/// Ending a command or a pipeline keeps the settled part finalized.
pub proof fn lemma_end_settled(b: Build, next: RunIf)
    requires
        settled(b),
    ensures
        settled(end_command(b)),
        settled(end_pipeline(b, next)),
{
}

/// Feeding tokens keeps the settled part finalized.
pub proof fn lemma_feed_all_settled(b: Build, tokens: Seq<Lexeme>)
    requires
        settled(b),
    ensures
        settled(feed_all(b, tokens)),
    decreases tokens.len(),
{
    if tokens.len() > 0 {
        lemma_feed_all_settled(b, tokens.drop_last());
    }
}

/// Whatever the tokens, the parsed list is finalized: it holds no empty
/// pipeline and no blank command.
pub proof fn lemma_parsed_finalized(tokens: Seq<Lexeme>)
    ensures
        finalized(parsed(tokens)),
{
    lemma_feed_all_settled(initial(), tokens);
}

/// Whether a token connects commands or pipelines: `|`, `;`, `&&` or `||`.
pub open spec fn is_connector(t: Lexeme) -> bool {
    t is Pipe || t is Semicolon || t is And || t is Or
}

/// No token of the sequence connects commands or pipelines.
pub open spec fn plain(tokens: Seq<Lexeme>) -> bool {
    forall|i: int| 0 <= i < tokens.len() ==> !is_connector(#[trigger] tokens[i])
}

/// Tokens without a connector all go into one command: nothing is settled
/// yet, and the command is blank only if there was no token.
pub proof fn lemma_plain_tokens_fill_one_command(tokens: Seq<Lexeme>)
    requires
        plain(tokens),
    ensures
        feed_all(initial(), tokens).list.len() == 0,
        feed_all(initial(), tokens).pipeline.len() == 0,
        feed_all(initial(), tokens).run_if == RunIf::Always,
        is_blank(feed_all(initial(), tokens).cmd) <==> tokens.len() == 0,
    decreases tokens.len(),
{
    if tokens.len() > 0 {
        let front = tokens.drop_last();
        lemma_plain_tokens_fill_one_command(front);
    }
}

/// A token sequence that is not empty and holds no connector stands for
/// exactly one list entry: one pipeline of one command, which runs always.
/// The command is the one that the tokens fill.
pub proof fn lemma_plain_tokens_one_pipeline(tokens: Seq<Lexeme>)
    requires
        tokens.len() > 0,
        plain(tokens),
    ensures
        parsed(tokens).len() == 1,
        parsed(tokens)[0].0.len() == 1,
        parsed(tokens)[0].1 == RunIf::Always,
        parsed(tokens)[0].0[0] == feed_all(initial(), tokens).cmd,
{
    lemma_plain_tokens_fill_one_command(tokens);
}

/// The text of a word token.
pub open spec fn text_of(t: Lexeme) -> Seq<char> {
    match t {
        Lexeme::Word(w) => w,
        _ => Seq::empty(),
    }
}

/// Every token of the sequence is a word.
pub open spec fn all_words(tokens: Seq<Lexeme>) -> bool {
    forall|i: int| 0 <= i < tokens.len() ==> #[trigger] tokens[i] is Word
}

/// The command that holds the given words and no redirection.
pub open spec fn call(argv: Seq<Seq<char>>) -> Command {
    Command { argv, stdin_file: None, stdout_file: None, append: false }
}

/// Words alone fill the argument vector, in their order.
pub proof fn lemma_words_fill_the_arguments(tokens: Seq<Lexeme>)
    requires
        all_words(tokens),
    ensures
        plain(tokens),
        feed_all(initial(), tokens).cmd == call(tokens.map_values(|t: Lexeme| text_of(t))),
    decreases tokens.len(),
{
    let texts = tokens.map_values(|t: Lexeme| text_of(t));
    if tokens.len() > 0 {
        let front = tokens.drop_last();
        lemma_words_fill_the_arguments(front);
        assert(texts =~= front.map_values(|t: Lexeme| text_of(t)).push(text_of(tokens.last())));
    } else {
        assert(texts =~= Seq::<Seq<char>>::empty());
    }
}

/// A sequence of words stands for one command that is called with exactly
/// these words, in a pipeline of its own that runs always.
pub proof fn lemma_words_are_one_call(tokens: Seq<Lexeme>)
    requires
        tokens.len() > 0,
        all_words(tokens),
    ensures
        parsed(tokens) == seq![
            (seq![call(tokens.map_values(|t: Lexeme| text_of(t)))], RunIf::Always),
        ],
{
    lemma_words_fill_the_arguments(tokens);
    lemma_plain_tokens_one_pipeline(tokens);
    let entry = (seq![call(tokens.map_values(|t: Lexeme| text_of(t)))], RunIf::Always);
    assert(parsed(tokens)[0].0 =~= entry.0);
}

/// A command line whose tokens hold no connector, and which has a token at
/// all, comes to exactly one pipeline of one command with the condition
/// `Always`, whatever the last status and the variables are. A line without
/// any token comes to the empty list.
pub proof fn lemma_line_without_connector(
    line: Seq<char>,
    named: Seq<bool>,
    code: int,
    vars: Bindings,
)
    requires
        plain(lex_with(line, named, code, vars)),
    ensures
        lex_with(line, named, code, vars).len() > 0 ==> {
            &&& parsed(lex_with(line, named, code, vars)).len() == 1
            &&& parsed(lex_with(line, named, code, vars))[0].0.len() == 1
            &&& parsed(lex_with(line, named, code, vars))[0].1 == RunIf::Always
        },
        lex_with(line, named, code, vars).len() == 0 ==> parsed(
            lex_with(line, named, code, vars),
        ).len() == 0,
{
    let tokens = lex_with(line, named, code, vars);
    if tokens.len() > 0 {
        lemma_plain_tokens_one_pipeline(tokens);
    }
}

/// Whether the tokenizer stands on a connector that is neither quoted nor
/// escaped: outside quotes, on `|`, on `;` or on the first character of `&&`.
pub open spec fn on_connector(s: Seq<char>, st: Scan) -> bool {
    &&& 0 <= st.pos < s.len()
    &&& !st.single
    &&& !st.double
    &&& (s[st.pos] == '|' || s[st.pos] == ';' || (s[st.pos] == '&' && at(s, st.pos + 1, '&')))
}

/// Whether the tokenizer, run from `st` to the end of the line, ever stands
/// on a connector that is neither quoted nor escaped. A character behind a
/// backslash, and one inside `${...}`, is passed over in one step with what
/// stands before it, so the tokenizer never stands on it.
pub open spec fn meets_connector(
    s: Seq<char>,
    named: Seq<bool>,
    code: int,
    vars: Bindings,
    st: Scan,
) -> bool
    decreases s.len() - st.pos,
{
    if 0 <= st.pos < s.len() {
        proof {
            lemma_step_advances(s, named, code, vars, st);
        }
        on_connector(s, st) || meets_connector(s, named, code, vars, step(s, named, code, vars, st))
    } else {
        false
    }
}

/// The tokens hold a connector exactly if the tokenizer met one that is
/// neither quoted nor escaped.
pub proof fn lemma_connectors_are_those_met(
    s: Seq<char>,
    named: Seq<bool>,
    code: int,
    vars: Bindings,
    st: Scan,
)
    requires
        0 <= st.pos <= s.len(),
        plain(st.tokens),
    ensures
        plain(scan(s, named, code, vars, st).tokens) <==> !meets_connector(
            s,
            named,
            code,
            vars,
            st,
        ),
    decreases s.len() - st.pos,
{
    if st.pos < s.len() {
        let next = step(s, named, code, vars, st);
        lemma_step_advances(s, named, code, vars, st);
        if on_connector(s, st) {
            let k = next.tokens.len() - 1;
            assert(is_connector(next.tokens[k]));
            lemma_scan_keeps_tokens(s, named, code, vars, next, k);
        } else {
            lemma_connectors_are_those_met(s, named, code, vars, next);
        }
    }
}

/// Scanning adds tokens at the end and leaves those before as they are.
pub proof fn lemma_scan_keeps_tokens(
    s: Seq<char>,
    named: Seq<bool>,
    code: int,
    vars: Bindings,
    st: Scan,
    k: int,
)
    requires
        0 <= st.pos <= s.len(),
        0 <= k < st.tokens.len(),
    ensures
        k < scan(s, named, code, vars, st).tokens.len(),
        scan(s, named, code, vars, st).tokens[k] == st.tokens[k],
    decreases s.len() - st.pos,
{
    if st.pos < s.len() {
        lemma_step_advances(s, named, code, vars, st);
        lemma_scan_keeps_tokens(s, named, code, vars, step(s, named, code, vars, st), k);
    }
}

/// A command line in which no connector stands unquoted and unescaped, and
/// which has a token at all, comes to exactly one pipeline of one command
/// that runs always, whatever the last status and the variables are; and a
/// line in which one does stand has a connector among its tokens.
pub proof fn lemma_line_without_unescaped_connector(
    line: Seq<char>,
    named: Seq<bool>,
    code: int,
    vars: Bindings,
)
    ensures
        !meets_connector(line, named, code, vars, start()) <==> plain(
            lex_with(line, named, code, vars),
        ),
        !meets_connector(line, named, code, vars, start()) && lex_with(
            line,
            named,
            code,
            vars,
        ).len() > 0 ==> {
            &&& parsed(lex_with(line, named, code, vars)).len() == 1
            &&& parsed(lex_with(line, named, code, vars))[0].0.len() == 1
            &&& parsed(lex_with(line, named, code, vars))[0].1 == RunIf::Always
        },
{
    lemma_connectors_are_those_met(line, named, code, vars, start());
    let end = scan(line, named, code, vars, start());
    let tokens = lex_with(line, named, code, vars);
    if plain(end.tokens) {
        assert forall|i: int| 0 <= i < tokens.len() implies !is_connector(#[trigger] tokens[i]) by {
            if i < end.tokens.len() {
                assert(tokens[i] == end.tokens[i]);
            }
        }
        lemma_line_without_connector(line, named, code, vars);
    } else {
        let k = choose|k: int| 0 <= k < end.tokens.len() && is_connector(#[trigger] end.tokens[k]);
        assert(tokens[k] == end.tokens[k]);
    }
}

/// A line is free of connector characters if it holds neither `|` nor `;`
/// nor `&`.
pub open spec fn connector_free(line: Seq<char>) -> bool {
    forall|i: int|
        0 <= i < line.len() ==> (#[trigger] line[i]) != '|' && line[i] != ';' && line[i] != '&'
}

/// Scanning a line that is free of connector characters adds no connector to
/// the tokens.
pub proof fn lemma_scan_adds_no_connector(
    line: Seq<char>,
    named: Seq<bool>,
    code: int,
    vars: Bindings,
    st: Scan,
)
    requires
        connector_free(line),
        0 <= st.pos <= line.len(),
        plain(st.tokens),
    ensures
        plain(scan(line, named, code, vars, st).tokens),
    decreases line.len() - st.pos,
{
    if st.pos < line.len() {
        let next = step(line, named, code, vars, st);
        lemma_step_advances(line, named, code, vars, st);
        lemma_scan_adds_no_connector(line, named, code, vars, next);
    }
}

/// A line that holds none of the characters `|`, `;` and `&` has no
/// connector among its tokens.
pub proof fn lemma_connector_free_line_is_plain(
    line: Seq<char>,
    named: Seq<bool>,
    code: int,
    vars: Bindings,
)
    requires
        connector_free(line),
    ensures
        plain(lex_with(line, named, code, vars)),
{
    lemma_scan_adds_no_connector(line, named, code, vars, start());
}

fn flush_cmd(cmd: &mut SimpleCmd, pipeline: &mut Vec<SimpleCmd>, Ghost(b): Ghost<Build>)
    requires
        old(cmd)@ == b.cmd,
        old(pipeline).deep_view() == b.pipeline,
    ensures
        final(cmd)@ == end_command(b).cmd,
        final(pipeline).deep_view() == end_command(b).pipeline,
{
    if cmd.argv.len() > 0 || cmd.stdin_file.is_some() || cmd.stdout_file.is_some() {
        let mut done = SimpleCmd::default();
        std::mem::swap(cmd, &mut done);
        pipeline.push(done);
    }
}

fn flush_pipeline(
    cmd: &mut SimpleCmd,
    pipeline: &mut Vec<SimpleCmd>,
    list: &mut CommandList,
    run_if: &mut RunIf,
    next: RunIf,
    Ghost(b): Ghost<Build>,
)
    requires
        old(cmd)@ == b.cmd,
        old(pipeline).deep_view() == b.pipeline,
        old(list).deep_view() == b.list,
        *old(run_if) == b.run_if,
    ensures
        final(cmd)@ == end_pipeline(b, next).cmd,
        final(pipeline).deep_view() == end_pipeline(b, next).pipeline,
        final(list).deep_view() == end_pipeline(b, next).list,
        *final(run_if) == end_pipeline(b, next).run_if,
{
    flush_cmd(cmd, pipeline, Ghost(b));
    if pipeline.len() > 0 {
        let mut done: Vec<SimpleCmd> = Vec::new();
        std::mem::swap(pipeline, &mut done);
        list.push((done, *run_if));
    }
    *run_if = next;
}

/// Builds the command list that a token sequence stands for.
///
/// Words and redirections fill the current command, `|` ends the command,
/// `;`, `&&` and `||` end the pipeline and set the condition of the next one.
/// Nothing is rejected: blank commands and empty pipelines are dropped.
pub fn parse(tokens: Vec<Token>) -> (list: CommandList)
    ensures
        list.deep_view() == parsed(tokens.deep_view()),
        finalized(list.deep_view()),
{
    let mut list: CommandList = Vec::new();
    let mut pipeline: Vec<SimpleCmd> = Vec::new();
    let mut cmd = SimpleCmd::default();
    let mut run_if = RunIf::Always;
    let ghost all = tokens.deep_view();
    let ghost mut b = initial();
    let mut tokens = tokens;
    let n = tokens.len();
    let mut i: usize = 0;
    while i < n
        invariant
            i <= n,
            n == tokens.len(),
            n == all.len(),
            forall|k: int| i <= k < n ==> (#[trigger] tokens[k])@ == all[k],
            b == feed_all(initial(), all.take(i as int)),
            cmd@ == b.cmd,
            pipeline.deep_view() == b.pipeline,
            list.deep_view() == b.list,
            run_if == b.run_if,
        decreases n - i,
    {
        let mut token = Token::Pipe;
        std::mem::swap(&mut token, &mut tokens[i]);
        assert(all.take(i + 1).drop_last() =~= all.take(i as int));
        match token {
            Token::Word(w) => {
                let ghost before = cmd.argv.deep_view();
                cmd.argv.push(w);
                assert(cmd.argv.deep_view() =~= before.push(w@));
            },
            Token::Pipe => {
                flush_cmd(&mut cmd, &mut pipeline, Ghost(b));
            },
            Token::Semicolon => {
                flush_pipeline(&mut cmd, &mut pipeline, &mut list, &mut run_if, RunIf::Always, Ghost(b));
            },
            Token::And => {
                flush_pipeline(
                    &mut cmd,
                    &mut pipeline,
                    &mut list,
                    &mut run_if,
                    RunIf::OnSuccess,
                    Ghost(b),
                );
            },
            Token::Or => {
                flush_pipeline(
                    &mut cmd,
                    &mut pipeline,
                    &mut list,
                    &mut run_if,
                    RunIf::OnFailure,
                    Ghost(b),
                );
            },
            Token::RedirectOut(f) => {
                cmd.stdout_file = Some(f);
                cmd.append = false;
            },
            Token::RedirectAppend(f) => {
                cmd.stdout_file = Some(f);
                cmd.append = true;
            },
            Token::RedirectIn(f) => {
                cmd.stdin_file = Some(f);
            },
        }
        proof {
            b = feed(b, all[i as int]);
        }
        i += 1;
    }
    assert(all.take(n as int) =~= all);
    flush_pipeline(&mut cmd, &mut pipeline, &mut list, &mut run_if, RunIf::Always, Ghost(b));
    proof {
        lemma_parsed_finalized(all);
    }
    list
}

} // verus!
