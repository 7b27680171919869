//! The tokenizer: from a command line to tokens.
//!
//! [`lex`] says what the tokens of a line are, one character after the
//! other; [`tokenize`] computes them.

use vstd::prelude::*;
use vstd::string::*;
use crate::environment::{lookup, Bindings, Environment};
use crate::text::{alphanumeric, chars_of, decimal, decimal_text, marked, string_of};

verus! {

/// One lexical unit of a command line.
#[derive(Debug, Clone)]
pub enum Token {
    /// A word, after quotes, escapes and variables have been resolved.
    Word(String),
    /// `|`
    Pipe,
    /// `;`
    Semicolon,
    /// `&&`
    And,
    /// `||`
    Or,
    /// `> file`
    RedirectOut(String),
    /// `>> file`
    RedirectAppend(String),
    /// `< file`
    RedirectIn(String),
}

/// What a [`Token`] stands for, with its text as a sequence of characters.
pub enum Lexeme {
    Word(Seq<char>),
    Pipe,
    Semicolon,
    And,
    Or,
    RedirectOut(Seq<char>),
    RedirectAppend(Seq<char>),
    RedirectIn(Seq<char>),
}

impl View for Token {
    type V = Lexeme;

    open spec fn view(&self) -> Lexeme {
        match self {
            Token::Word(w) => Lexeme::Word(w@),
            Token::Pipe => Lexeme::Pipe,
            Token::Semicolon => Lexeme::Semicolon,
            Token::And => Lexeme::And,
            Token::Or => Lexeme::Or,
            Token::RedirectOut(f) => Lexeme::RedirectOut(f@),
            Token::RedirectAppend(f) => Lexeme::RedirectAppend(f@),
            Token::RedirectIn(f) => Lexeme::RedirectIn(f@),
        }
    }
}

impl DeepView for Token {
    type V = Lexeme;

    open spec fn deep_view(&self) -> Lexeme {
        self@
    }
}

impl PartialEq for Token {
    fn eq(&self, other: &Token) -> (r: bool) {
        match self {
            Token::Word(a) => match other {
                Token::Word(b) => *a == *b,
                _ => false,
            },
            Token::Pipe => match other {
                Token::Pipe => true,
                _ => false,
            },
            Token::Semicolon => match other {
                Token::Semicolon => true,
                _ => false,
            },
            Token::And => match other {
                Token::And => true,
                _ => false,
            },
            Token::Or => match other {
                Token::Or => true,
                _ => false,
            },
            Token::RedirectOut(a) => match other {
                Token::RedirectOut(b) => *a == *b,
                _ => false,
            },
            Token::RedirectAppend(a) => match other {
                Token::RedirectAppend(b) => *a == *b,
                _ => false,
            },
            Token::RedirectIn(a) => match other {
                Token::RedirectIn(b) => *a == *b,
                _ => false,
            },
        }
    }
}

impl vstd::std_specs::cmp::PartialEqSpecImpl for Token {
    open spec fn obeys_eq_spec() -> bool {
        true
    }

    open spec fn eq_spec(&self, other: &Token) -> bool {
        self@ == other@
    }
}

/// The three forms of redirection.
pub enum Redirect {
    Out,
    Append,
    In,
}

/// The tokenizer between two characters: where it stands, which quote is
/// open, the word collected so far and the tokens already produced.
pub struct Scan {
    pub pos: int,
    pub single: bool,
    pub double: bool,
    pub word: Seq<char>,
    pub tokens: Seq<Lexeme>,
}

/// The tokenizer before the first character.
pub open spec fn start() -> Scan {
    Scan { pos: 0, single: false, double: false, word: Seq::empty(), tokens: Seq::empty() }
}

/// Space or tab.
pub open spec fn is_blank(c: char) -> bool {
    c == ' ' || c == '\t'
}

/// For each character of `s`, whether it may stand in a `$name`: letters
/// and digits may, and `_`.
pub open spec fn name_chars(s: Seq<char>) -> Seq<bool> {
    Seq::new(s.len(), |i: int| alphanumeric(s[i]) || s[i] == '_')
}

/// Whether position `i` of `s` exists and holds `c`.
pub open spec fn at(s: Seq<char>, i: int, c: char) -> bool {
    0 <= i < s.len() && s[i] == c
}

/// Whether the character at `i` ends a redirection target: a blank or the
/// start of an operator.
pub open spec fn ends_target(s: Seq<char>, i: int) -> bool {
    is_blank(s[i]) || s[i] == '|' || s[i] == ';' || s[i] == '<' || s[i] == '>' || (s[i] == '&'
        && at(s, i + 1, '&'))
}

/// First position from `i` on that holds no blank.
pub open spec fn blanks_end(s: Seq<char>, i: int) -> int
    decreases s.len() - i,
{
    if 0 <= i < s.len() && is_blank(s[i]) {
        blanks_end(s, i + 1)
    } else {
        i
    }
}

/// First position from `i` on that ends a redirection target.
pub open spec fn target_end(s: Seq<char>, i: int) -> int
    decreases s.len() - i,
{
    if 0 <= i < s.len() && !ends_target(s, i) {
        target_end(s, i + 1)
    } else {
        i
    }
}

/// First position from `i` on that is not marked as a name character, but
/// not beyond `limit`.
pub open spec fn name_end(named: Seq<bool>, limit: int, i: int) -> int
    decreases limit - i,
{
    if 0 <= i < limit && marked(named, i) {
        name_end(named, limit, i + 1)
    } else {
        i
    }
}

/// First position from `i` on that holds `}`.
pub open spec fn brace_end(s: Seq<char>, i: int) -> int
    decreases s.len() - i,
{
    if 0 <= i < s.len() && s[i] != '}' {
        brace_end(s, i + 1)
    } else {
        i
    }
}

/// The four scans above stop between `i` and the end of the line.
pub proof fn lemma_ends_in_range(s: Seq<char>, named: Seq<bool>, i: int)
    requires
        0 <= i <= s.len(),
    ensures
        i <= blanks_end(s, i) <= s.len(),
        i <= target_end(s, i) <= s.len(),
        i <= name_end(named, s.len() as int, i) <= s.len(),
        i <= brace_end(s, i) <= s.len(),
    decreases s.len() - i,
{
    if i < s.len() {
        lemma_ends_in_range(s, named, i + 1);
    }
}

/// The value that `$name` stands for: that of the variable, or nothing.
pub open spec fn value_of(vars: Bindings, name: Seq<char>) -> Seq<char> {
    match lookup(vars, name) {
        Some(v) => v,
        None => Seq::empty(),
    }
}

/// What a `~` at the start of a word stands for: the home directory, or the
/// `~` itself where none is known.
pub open spec fn home_or_tilde(vars: Bindings) -> Seq<char> {
    match lookup(vars, "HOME"@) {
        Some(v) => v,
        None => seq!['~'],
    }
}

/// A redirection target with a leading `~` or `~/` replaced by the home
/// directory.
pub open spec fn expanded(path: Seq<char>, vars: Bindings) -> Seq<char> {
    if path == seq!['~'] || (path.len() >= 2 && path[0] == '~' && path[1] == '/') {
        value_of(vars, "HOME"@) + path.skip(1)
    } else {
        path
    }
}

/// `tokens`, followed by the pending word if there is one.
pub open spec fn flushed(tokens: Seq<Lexeme>, word: Seq<char>) -> Seq<Lexeme> {
    if word.len() > 0 {
        tokens.push(Lexeme::Word(word))
    } else {
        tokens
    }
}

/// The tokenizer after an operator that ends at `next`.
pub open spec fn emit(st: Scan, op: Lexeme, next: int) -> Scan {
    Scan {
        pos: next,
        single: st.single,
        double: st.double,
        word: Seq::empty(),
        tokens: flushed(st.tokens, st.word).push(op),
    }
}

/// The token of a redirection of the given kind to `path`.
pub open spec fn redirection(kind: Redirect, path: Seq<char>) -> Lexeme {
    match kind {
        Redirect::Out => Lexeme::RedirectOut(path),
        Redirect::Append => Lexeme::RedirectAppend(path),
        Redirect::In => Lexeme::RedirectIn(path),
    }
}

/// The tokenizer after a redirection operator that ends at `from`: blanks
/// are skipped and the run of characters up to the next blank or operator is
/// the target.
pub open spec fn redirect(s: Seq<char>, vars: Bindings, st: Scan, kind: Redirect, from: int) -> Scan {
    let a = blanks_end(s, from);
    let b = target_end(s, a);
    emit(st, redirection(kind, expanded(s.subrange(a, b), vars)), b)
}

/// The tokenizer with `text` added to the pending word, at the position
/// `next`.
pub open spec fn extend(st: Scan, text: Seq<char>, next: int) -> Scan {
    Scan { pos: next, single: st.single, double: st.double, word: st.word + text, tokens: st.tokens }
}

/// The tokenizer after the `$` at `st.pos`: `${name}` and `$name` stand
/// for the value of the variable, `$?` for the last status in decimal. A
/// brace that is not closed takes the rest of the line as the name; a name
/// may be empty.
pub open spec fn dollar(
    s: Seq<char>,
    named: Seq<bool>,
    code: int,
    vars: Bindings,
    st: Scan,
) -> Scan {
    let i = st.pos;
    if at(s, i + 1, '{') {
        let e = brace_end(s, i + 2);
        extend(
            st,
            value_of(vars, s.subrange(i + 2, e)),
            if e < s.len() {
                e + 1
            } else {
                e
            },
        )
    } else if at(s, i + 1, '?') {
        extend(st, decimal_text(code), i + 2)
    } else {
        let e = name_end(named, s.len() as int, i + 1);
        extend(st, value_of(vars, s.subrange(i + 1, e)), e)
    }
}

/// One step of the tokenizer: what the character at `st.pos` does.
///
/// In order of priority: a quote opens or closes its mode, unless the other
/// quote is open; outside single quotes a backslash takes the next character
/// literally and `$` expands a variable or the last status; a `~` that starts
/// an unquoted word is the home directory; inside quotes everything else is
/// literal; outside them `|`, `||`, `;`, `&&`, `>`, `>>` and `<` end the word
/// and give their token, a blank ends the word; any other character joins
/// the word.
pub open spec fn step(s: Seq<char>, named: Seq<bool>, code: int, vars: Bindings, st: Scan) -> Scan {
    let i = st.pos;
    let c = s[i];
    let quoted = st.single || st.double;
    if c == '\'' && !st.double {
        Scan { pos: i + 1, single: !st.single, double: st.double, word: st.word, tokens: st.tokens }
    } else if c == '"' && !st.single {
        Scan { pos: i + 1, single: st.single, double: !st.double, word: st.word, tokens: st.tokens }
    } else if c == '\\' && !st.single {
        if i + 1 < s.len() {
            extend(st, seq![s[i + 1]], i + 2)
        } else {
            extend(st, Seq::empty(), i + 1)
        }
    } else if c == '$' && !st.single {
        dollar(s, named, code, vars, st)
    } else if c == '~' && !quoted && st.word.len() == 0 {
        extend(st, home_or_tilde(vars), i + 1)
    } else if quoted {
        extend(st, seq![c], i + 1)
    } else if c == '|' {
        if at(s, i + 1, '|') {
            emit(st, Lexeme::Or, i + 2)
        } else {
            emit(st, Lexeme::Pipe, i + 1)
        }
    } else if c == ';' {
        emit(st, Lexeme::Semicolon, i + 1)
    } else if c == '&' && at(s, i + 1, '&') {
        emit(st, Lexeme::And, i + 2)
    } else if c == '>' {
        if at(s, i + 1, '>') {
            redirect(s, vars, st, Redirect::Append, i + 2)
        } else {
            redirect(s, vars, st, Redirect::Out, i + 1)
        }
    } else if c == '<' {
        redirect(s, vars, st, Redirect::In, i + 1)
    } else if is_blank(c) {
        Scan {
            pos: i + 1,
            single: st.single,
            double: st.double,
            word: Seq::empty(),
            tokens: flushed(st.tokens, st.word),
        }
    } else {
        extend(st, seq![c], i + 1)
    }
}

/// Every step moves forward and stays within the line.
pub proof fn lemma_step_advances(
    s: Seq<char>,
    named: Seq<bool>,
    code: int,
    vars: Bindings,
    st: Scan,
)
    requires
        0 <= st.pos < s.len(),
    ensures
        st.pos < step(s, named, code, vars, st).pos <= s.len(),
{
    let i = st.pos;
    if i + 2 <= s.len() {
        lemma_ends_in_range(s, named, i + 2);
        lemma_ends_in_range(s, named, blanks_end(s, i + 2));
    }
}

/// The tokenizer run from `st` to the end of the line.
pub open spec fn scan(s: Seq<char>, named: Seq<bool>, code: int, vars: Bindings, st: Scan) -> Scan
    decreases s.len() - st.pos,
{
    if 0 <= st.pos < s.len() {
        proof {
            lemma_step_advances(s, named, code, vars, st);
        }
        scan(s, named, code, vars, step(s, named, code, vars, st))
    } else {
        st
    }
}

/// The tokens of the line `s` whose name characters are marked in `named`,
/// where `code` is the status of the last pipeline and `vars` the variables
/// in force. A quote left open is closed by the end of the line.
pub open spec fn lex_with(s: Seq<char>, named: Seq<bool>, code: int, vars: Bindings) -> Seq<
    Lexeme,
> {
    let end = scan(s, named, code, vars, start());
    flushed(end.tokens, end.word)
}

/// The tokens of the line `s`: those of [`lex_with`], where letters, digits
/// and `_` are the name characters.
pub open spec fn lex(s: Seq<char>, code: int, vars: Bindings) -> Seq<Lexeme> {
    lex_with(s, name_chars(s), code, vars)
}

/// No word among the tokens is empty.
pub open spec fn solid(tokens: Seq<Lexeme>) -> bool {
    forall|i: int|
        0 <= i < tokens.len() ==> ((#[trigger] tokens[i]) matches Lexeme::Word(w) ==> w.len() > 0)
}

/// Scanning adds no empty word to the tokens.
pub proof fn lemma_scan_keeps_solid(
    s: Seq<char>,
    named: Seq<bool>,
    code: int,
    vars: Bindings,
    st: Scan,
)
    requires
        0 <= st.pos <= s.len(),
        solid(st.tokens),
    ensures
        solid(scan(s, named, code, vars, st).tokens),
    decreases s.len() - st.pos,
{
    if st.pos < s.len() {
        let next = step(s, named, code, vars, st);
        lemma_step_advances(s, named, code, vars, st);
        lemma_scan_keeps_solid(s, named, code, vars, next);
    }
}

/// Whatever the line, none of its word tokens is empty: what expands to
/// nothing, and a pair of quotes with nothing between them, gives no token.
pub proof fn lemma_words_are_not_empty(s: Seq<char>, named: Seq<bool>, code: int, vars: Bindings)
    ensures
        solid(lex_with(s, named, code, vars)),
{
    lemma_scan_keeps_solid(s, named, code, vars, start());
}

/// A character with a meaning of its own somewhere in a line: a quote, the
/// backslash, `$`, `~`, a blank, or one of the characters that operators are
/// made of.
pub open spec fn is_special(c: char) -> bool {
    c == '\'' || c == '"' || c == '\\' || c == '$' || c == '~' || c == '|' || c == ';' || c == '&'
        || c == '>' || c == '<' || is_blank(c)
}

/// No character of the text is special.
pub open spec fn ordinary(s: Seq<char>) -> bool {
    forall|i: int| 0 <= i < s.len() ==> !is_special(#[trigger] s[i])
}

/// Scanning ordinary text outside quotes collects it in the pending word.
pub proof fn lemma_scan_collects_ordinary(
    s: Seq<char>,
    named: Seq<bool>,
    code: int,
    vars: Bindings,
    st: Scan,
)
    requires
        ordinary(s),
        0 <= st.pos <= s.len(),
        !st.single,
        !st.double,
        st.word == s.take(st.pos),
    ensures
        scan(s, named, code, vars, st) == (Scan {
            pos: s.len() as int,
            single: false,
            double: false,
            word: s,
            tokens: st.tokens,
        }),
    decreases s.len() - st.pos,
{
    if st.pos < s.len() {
        let next = step(s, named, code, vars, st);
        assert(next.word =~= s.take(st.pos + 1));
        lemma_scan_collects_ordinary(s, named, code, vars, next);
    } else {
        assert(s.take(st.pos) =~= s);
    }
}

/// A line of ordinary characters is one word, the line itself.
pub proof fn lemma_ordinary_line_is_one_word(
    s: Seq<char>,
    named: Seq<bool>,
    code: int,
    vars: Bindings,
)
    requires
        s.len() > 0,
        ordinary(s),
    ensures
        lex_with(s, named, code, vars) == seq![Lexeme::Word(s)],
{
    assert(s.take(0) =~= Seq::<char>::empty());
    lemma_scan_collects_ordinary(s, named, code, vars, start());
}

/// Inside single quotes nothing is special: from a position inside them,
/// scanning leads to the position behind the closing quote at `close`, with
/// the text up to it added to the pending word as it stands.
pub proof fn lemma_single_quoted_text_is_literal(
    s: Seq<char>,
    named: Seq<bool>,
    code: int,
    vars: Bindings,
    st: Scan,
    close: int,
)
    requires
        st.single,
        !st.double,
        0 <= st.pos <= close < s.len(),
        s[close] == '\'',
        forall|i: int| st.pos <= i < close ==> s[i] != '\'',
    ensures
        scan(s, named, code, vars, st) == scan(
            s,
            named,
            code,
            vars,
            Scan {
                pos: close + 1,
                single: false,
                double: false,
                word: st.word + s.subrange(st.pos, close),
                tokens: st.tokens,
            },
        ),
    decreases close - st.pos,
{
    let next = step(s, named, code, vars, st);
    if st.pos < close {
        lemma_single_quoted_text_is_literal(s, named, code, vars, next, close);
        assert(next.word + s.subrange(next.pos, close) =~= st.word + s.subrange(st.pos, close));
    }
}

/// Text in single quotes is one word, exactly as it stands between the
/// quotes, blanks and all: for every text without a single quote that is
/// not empty.
pub proof fn lemma_single_quotes_keep_text(
    text: Seq<char>,
    named: Seq<bool>,
    code: int,
    vars: Bindings,
)
    requires
        text.len() > 0,
        forall|i: int| 0 <= i < text.len() ==> text[i] != '\'',
    ensures
        lex_with(seq!['\''] + text + seq!['\''], named, code, vars) == seq![Lexeme::Word(text)],
{
    let s = seq!['\''] + text + seq!['\''];
    let first = step(s, named, code, vars, start());
    let close = s.len() - 1;
    lemma_single_quoted_text_is_literal(s, named, code, vars, first, close);
    assert(first.word + s.subrange(1, close) =~= text);
}

/// `$?` is the last status in decimal, whatever the status.
pub proof fn lemma_status_is_written_in_decimal(named: Seq<bool>, code: int, vars: Bindings)
    ensures
        lex_with(seq!['$', '?'], named, code, vars) == seq![Lexeme::Word(decimal_text(code))],
{
    let s = seq!['$', '?'];
    let first = step(s, named, code, vars, start());
    assert(scan(s, named, code, vars, first) == first);
}

fn peek(s: &Vec<char>, i: usize, c: char) -> (r: bool)
    ensures
        r == at(s@, i as int, c),
{
    i < s.len() && s[i] == c
}

fn blank(c: char) -> (r: bool)
    ensures
        r == is_blank(c),
{
    c == ' ' || c == '\t'
}

fn skip_blanks(s: &Vec<char>, i: usize) -> (j: usize)
    requires
        i <= s.len(),
    ensures
        j == blanks_end(s@, i as int),
        i <= j <= s.len(),
{
    let mut j = i;
    while j < s.len() && blank(s[j])
        invariant
            i <= j <= s.len(),
            blanks_end(s@, j as int) == blanks_end(s@, i as int),
        decreases s.len() - j,
    {
        j += 1;
    }
    j
}

fn read_target(s: &Vec<char>, i: usize) -> (j: usize)
    requires
        i <= s.len(),
    ensures
        j == target_end(s@, i as int),
        i <= j <= s.len(),
{
    let mut j = i;
    while j < s.len()
        invariant
            i <= j <= s.len(),
            target_end(s@, j as int) == target_end(s@, i as int),
        decreases s.len() - j,
    {
        let c = s[j];
        if blank(c) || c == '|' || c == ';' || c == '<' || c == '>' || (c == '&' && peek(
            s,
            j + 1,
            '&',
        )) {
            return j;
        }
        j += 1;
    }
    j
}

fn read_name(named: &Vec<bool>, limit: usize, i: usize) -> (j: usize)
    requires
        i <= limit,
    ensures
        j == name_end(named@, limit as int, i as int),
        i <= j <= limit,
{
    let mut j = i;
    while j < limit && j < named.len() && named[j]
        invariant
            i <= j <= limit,
            name_end(named@, limit as int, j as int) == name_end(named@, limit as int, i as int),
        decreases limit - j,
    {
        j += 1;
    }
    j
}

fn read_braced(s: &Vec<char>, i: usize) -> (j: usize)
    requires
        i <= s.len(),
    ensures
        j == brace_end(s@, i as int),
        i <= j <= s.len(),
{
    let mut j = i;
    while j < s.len() && s[j] != '}'
        invariant
            i <= j <= s.len(),
            brace_end(s@, j as int) == brace_end(s@, i as int),
        decreases s.len() - j,
    {
        j += 1;
    }
    j
}

/// Appends the value of the variable `name`, if it is set.
fn push_value(current: &mut String, env: &Environment, name: &str)
    ensures
        final(current)@ == old(current)@ + value_of(env@, name@),
{
    match env.get(name) {
        Some(v) => {
            current.append(v.as_str());
        },
        None => {},
    }
}

/// Replaces a leading `~` or `~/` of a redirection target by the home
/// directory.
pub fn expand_tilde(s: &str, env: &Environment) -> (path: String)
    ensures
        path@ == expanded(s@, env@),
{
    let v = chars_of(s);
    if v.len() >= 1 && v[0] == '~' && (v.len() == 1 || v[1] == '/') {
        let mut path = String::new();
        push_value(&mut path, env, "HOME");
        let rest = string_of(&v, 1, v.len());
        path.append(rest.as_str());
        proof {
            if v.len() == 1 {
                assert(s@ =~= seq!['~']);
            }
        }
        path
    } else {
        s.to_owned()
    }
}

/// Ends the pending word, if there is one.
fn flush(current: &mut String, tokens: &mut Vec<Token>)
    ensures
        final(current)@ == Seq::<char>::empty(),
        final(tokens).deep_view() == flushed(old(tokens).deep_view(), old(current)@),
{
    if current.as_str().unicode_len() > 0 {
        let mut word = String::new();
        std::mem::swap(current, &mut word);
        tokens.push(Token::Word(word));
    }
}

/// Ends the pending word and adds the operator `op`.
fn operator(current: &mut String, tokens: &mut Vec<Token>, op: Token)
    ensures
        final(current)@ == Seq::<char>::empty(),
        final(tokens).deep_view() == flushed(old(tokens).deep_view(), old(current)@).push(op@),
{
    flush(current, tokens);
    tokens.push(op);
}

/// Reads the target of a redirection whose operator ends at `from`.
fn target(s: &Vec<char>, from: usize, env: &Environment) -> (r: (String, usize))
    requires
        from <= s.len(),
    ensures
        r.1 == target_end(s@, blanks_end(s@, from as int)),
        from <= r.1 <= s.len(),
        r.0@ == expanded(
            s@.subrange(blanks_end(s@, from as int), target_end(s@, blanks_end(s@, from as int))),
            env@,
        ),
{
    let a = skip_blanks(s, from);
    let b = read_target(s, a);
    let raw = string_of(s, a, b);
    (expand_tilde(raw.as_str(), env), b)
}

/// Expands the `$` at `i` into the pending word and returns the position
/// after the expansion.
fn expand_dollar(
    s: &Vec<char>,
    named: &Vec<bool>,
    i: usize,
    status: &String,
    env: &Environment,
    current: &mut String,
    Ghost(code): Ghost<int>,
    Ghost(st): Ghost<Scan>,
) -> (next: usize)
    requires
        i < s.len(),
        st.pos == i,
        st.word == old(current)@,
        status@ == decimal_text(code),
    ensures
        next == dollar(s@, named@, code, env@, st).pos,
        final(current)@ == dollar(s@, named@, code, env@, st).word,
        i < next <= s.len(),
{
    if peek(s, i + 1, '{') {
        let e = read_braced(s, i + 2);
        let name = string_of(s, i + 2, e);
        push_value(current, env, name.as_str());
        if e < s.len() {
            e + 1
        } else {
            e
        }
    } else if peek(s, i + 1, '?') {
        current.append(status.as_str());
        i + 2
    } else {
        let e = read_name(named, s.len(), i + 1);
        let name = string_of(s, i + 1, e);
        push_value(current, env, name.as_str());
        e
    }
}

/// Marks the characters that may stand in a `$name`.
pub fn classify(s: &Vec<char>) -> (named: Vec<bool>)
    ensures
        named@ == name_chars(s@),
{
    let mut named: Vec<bool> = Vec::new();
    let mut i: usize = 0;
    while i < s.len()
        invariant
            i <= s.len(),
            named.len() == i,
            forall|k: int| 0 <= k < i ==> named[k] == name_chars(s@)[k],
        decreases s.len() - i,
    {
        named.push(s[i].is_alphanumeric() || s[i] == '_');
        i += 1;
    }
    named
}

/// Splits a command line into tokens.
///
/// Quotes, escapes, `$name`, `${name}`, `$?` and a leading `~` are resolved
/// while scanning; `last_exit_code` is what `$?` stands for and `env` holds
/// the variables. The result is exactly [`lex`] of the line.
pub fn tokenize(input: &str, last_exit_code: i32, env: &Environment) -> (tokens: Vec<Token>)
    ensures
        tokens.deep_view() == lex(input@, last_exit_code as int, env@),
{
    let s = chars_of(input);
    let named = classify(&s);
    tokenize_classified(&s, &named, last_exit_code, env)
}

/// Splits into tokens a command line that is given by its characters, with
/// the characters that may stand in a `$name` marked in `named`. A character
/// without a mark counts as not marked. The result is exactly [`lex_with`].
pub fn tokenize_classified(
    s: &Vec<char>,
    named: &Vec<bool>,
    last_exit_code: i32,
    env: &Environment,
) -> (tokens: Vec<Token>)
    ensures
        tokens.deep_view() == lex_with(s@, named@, last_exit_code as int, env@),
{
    let status = decimal(last_exit_code);
    let mut tokens: Vec<Token> = Vec::new();
    let mut current = String::new();
    let mut in_single = false;
    let mut in_double = false;
    let mut i: usize = 0;
    let ghost code = last_exit_code as int;
    let ghost mut st = start();
    while i < s.len()
        invariant
            status@ == decimal_text(code),
            i <= s.len(),
            st.pos == i,
            st.single == in_single,
            st.double == in_double,
            st.word == current@,
            st.tokens == tokens.deep_view(),
            scan(s@, named@, code, env@, st) == scan(s@, named@, code, env@, start()),
        decreases s.len() - i,
    {
        let c = s[i];
        let ghost next = step(s@, named@, code, env@, st);
        if c == '\'' && !in_double {
            in_single = !in_single;
            i += 1;
        } else if c == '"' && !in_single {
            in_double = !in_double;
            i += 1;
        } else if c == '\\' && !in_single {
            if i + 1 < s.len() {
                current.push(s[i + 1]);
                i += 2;
            } else {
                i += 1;
            }
        } else if c == '$' && !in_single {
            i = expand_dollar(s, named, i, &status, env, &mut current, Ghost(code), Ghost(st));
        } else if c == '~' && !in_single && !in_double && current.as_str().unicode_len() == 0 {
            match env.get("HOME") {
                Some(home) => {
                    current.append(home.as_str());
                },
                None => {
                    current.push('~');
                },
            }
            i += 1;
        } else if in_single || in_double {
            current.push(c);
            i += 1;
        } else if c == '|' {
            if peek(s, i + 1, '|') {
                operator(&mut current, &mut tokens, Token::Or);
                i += 2;
            } else {
                operator(&mut current, &mut tokens, Token::Pipe);
                i += 1;
            }
        } else if c == ';' {
            operator(&mut current, &mut tokens, Token::Semicolon);
            i += 1;
        } else if c == '&' && peek(s, i + 1, '&') {
            operator(&mut current, &mut tokens, Token::And);
            i += 2;
        } else if c == '>' {
            if peek(s, i + 1, '>') {
                let (file, end) = target(s, i + 2, env);
                operator(&mut current, &mut tokens, Token::RedirectAppend(file));
                i = end;
            } else {
                let (file, end) = target(s, i + 1, env);
                operator(&mut current, &mut tokens, Token::RedirectOut(file));
                i = end;
            }
        } else if c == '<' {
            let (file, end) = target(s, i + 1, env);
            operator(&mut current, &mut tokens, Token::RedirectIn(file));
            i = end;
        } else if blank(c) {
            flush(&mut current, &mut tokens);
            i += 1;
        } else {
            current.push(c);
            i += 1;
        }
        proof {
            st = next;
        }
    }
    flush(&mut current, &mut tokens);
    tokens
}

} // verus!
