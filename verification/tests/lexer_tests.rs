use minishell::environment::Environment;
use minishell::lexer::{classify, expand_tilde, tokenize, tokenize_classified, Token};

fn word(s: &str) -> Token {
    Token::Word(s.to_string())
}

fn env_with(pairs: &[(&str, &str)]) -> Environment {
    let mut env = Environment::new();
    for (k, v) in pairs {
        assert!(env.set(k, v));
    }
    env
}

#[test]
fn status_substitution_gives_decimal_text() {
    let env = Environment::new();
    assert_eq!(tokenize("echo $?", 42, &env), vec![word("echo"), word("42")]);
}

#[test]
fn status_substitution_of_negative_status() {
    let env = Environment::new();
    assert_eq!(tokenize("$?", -7, &env), vec![word("-7")]);
    assert_eq!(tokenize("a$?b", 0, &env), vec![word("a0b")]);
    assert_eq!(
        tokenize("$?", i32::MIN, &env),
        vec![word("-2147483648")]
    );
}

#[test]
fn single_quotes_keep_inner_blanks() {
    let env = Environment::new();
    assert_eq!(
        tokenize("echo 'a b' c", 0, &env),
        vec![word("echo"), word("a b"), word("c")]
    );
}

#[test]
fn single_quotes_make_everything_literal() {
    let env = env_with(&[("X", "value"), ("HOME", "/home/u")]);
    assert_eq!(
        tokenize("'$X \\ ~ | ; > \"'", 3, &env),
        vec![word("$X \\ ~ | ; > \"")]
    );
}

#[test]
fn double_quotes_expand_variables_but_keep_operators() {
    let env = env_with(&[("X", "value")]);
    assert_eq!(
        tokenize("\"a | b ; $X > c\"", 0, &env),
        vec![word("a | b ; value > c")]
    );
    assert_eq!(tokenize("\"it's\"", 0, &env), vec![word("it's")]);
    assert_eq!(tokenize("\"a\\\"b\"", 0, &env), vec![word("a\"b")]);
}

#[test]
fn backslash_takes_next_character_literally() {
    let env = env_with(&[("X", "value")]);
    assert_eq!(tokenize("a\\ b", 0, &env), vec![word("a b")]);
    assert_eq!(tokenize("\\$X", 0, &env), vec![word("$X")]);
    assert_eq!(tokenize("\\|", 0, &env), vec![word("|")]);
    assert_eq!(tokenize("a\\", 0, &env), vec![word("a")]);
    assert_eq!(tokenize("\\", 0, &env), Vec::<Token>::new());
}

#[test]
fn variables_expand_inline() {
    let env = env_with(&[("NAME", "world"), ("A_1", "x")]);
    assert_eq!(tokenize("hello $NAME", 0, &env), vec![word("hello"), word("world")]);
    assert_eq!(tokenize("${NAME}s", 0, &env), vec![word("worlds")]);
    assert_eq!(tokenize("$NAME/bin", 0, &env), vec![word("world/bin")]);
    assert_eq!(tokenize("$A_1-$A_1", 0, &env), vec![word("x-x")]);
    assert_eq!(tokenize("pre$NAME", 0, &env), vec![word("preworld")]);
}

#[test]
fn unset_variable_is_empty_text() {
    let env = Environment::new();
    assert_eq!(tokenize("a $NOPE b", 0, &env), vec![word("a"), word("b")]);
    assert_eq!(tokenize("x${NOPE}y", 0, &env), vec![word("xy")]);
    assert_eq!(tokenize("$", 0, &env), Vec::<Token>::new());
    assert_eq!(tokenize("a$ b", 0, &env), vec![word("a"), word("b")]);
}

#[test]
fn unclosed_brace_runs_to_end_of_line() {
    let env = env_with(&[("AB", "v")]);
    assert_eq!(tokenize("x${AB", 0, &env), vec![word("xv")]);
    assert_eq!(tokenize("${A B}", 0, &env), Vec::<Token>::new());
}

#[test]
fn value_with_blanks_stays_in_one_word() {
    let env = env_with(&[("V", "a b")]);
    assert_eq!(tokenize("x$V", 0, &env), vec![word("xa b")]);
}

#[test]
fn tilde_at_word_start_is_home() {
    let env = env_with(&[("HOME", "/home/u")]);
    assert_eq!(tokenize("cd ~", 0, &env), vec![word("cd"), word("/home/u")]);
    assert_eq!(tokenize("ls ~/x", 0, &env), vec![word("ls"), word("/home/u/x")]);
    assert_eq!(tokenize("a~b", 0, &env), vec![word("a~b")]);
    assert_eq!(tokenize("'~'", 0, &env), vec![word("~")]);
    assert_eq!(tokenize("\"~\"", 0, &env), vec![word("~")]);
}

#[test]
fn tilde_without_home_stays() {
    let env = Environment::new();
    assert_eq!(tokenize("~", 0, &env), vec![word("~")]);
    assert_eq!(tokenize("~/x", 0, &env), vec![word("~/x")]);
}

#[test]
fn operators_end_words() {
    let env = Environment::new();
    assert_eq!(
        tokenize("a|b;c&&d||e", 0, &env),
        vec![
            word("a"),
            Token::Pipe,
            word("b"),
            Token::Semicolon,
            word("c"),
            Token::And,
            word("d"),
            Token::Or,
            word("e"),
        ]
    );
    assert_eq!(
        tokenize("a | b", 0, &env),
        vec![word("a"), Token::Pipe, word("b")]
    );
}

#[test]
fn lone_ampersand_is_literal() {
    let env = Environment::new();
    assert_eq!(tokenize("a & b", 0, &env), vec![word("a"), word("&"), word("b")]);
    assert_eq!(tokenize("a&b", 0, &env), vec![word("a&b")]);
    assert_eq!(
        tokenize("a&&&b", 0, &env),
        vec![word("a"), Token::And, word("&b")]
    );
}

#[test]
fn three_bars_are_or_then_pipe() {
    let env = Environment::new();
    assert_eq!(tokenize("|||", 0, &env), vec![Token::Or, Token::Pipe]);
}

#[test]
fn redirections_take_their_target() {
    let env = Environment::new();
    assert_eq!(
        tokenize("sort < in.txt > out.txt", 0, &env),
        vec![
            word("sort"),
            Token::RedirectIn("in.txt".to_string()),
            Token::RedirectOut("out.txt".to_string()),
        ]
    );
    assert_eq!(
        tokenize("a>>log", 0, &env),
        vec![word("a"), Token::RedirectAppend("log".to_string())]
    );
    assert_eq!(
        tokenize("a >  \t f b", 0, &env),
        vec![word("a"), Token::RedirectOut("f".to_string()), word("b")]
    );
}

#[test]
fn redirection_target_ends_at_operator() {
    let env = Environment::new();
    assert_eq!(
        tokenize("a >f|b", 0, &env),
        vec![
            word("a"),
            Token::RedirectOut("f".to_string()),
            Token::Pipe,
            word("b"),
        ]
    );
    assert_eq!(
        tokenize("a >f&&b", 0, &env),
        vec![
            word("a"),
            Token::RedirectOut("f".to_string()),
            Token::And,
            word("b"),
        ]
    );
    assert_eq!(
        tokenize("a >f&b", 0, &env),
        vec![word("a"), Token::RedirectOut("f&b".to_string())]
    );
    assert_eq!(
        tokenize("a <f>g", 0, &env),
        vec![
            word("a"),
            Token::RedirectIn("f".to_string()),
            Token::RedirectOut("g".to_string()),
        ]
    );
}

#[test]
fn redirection_target_is_not_expanded_further() {
    let env = env_with(&[("X", "value"), ("HOME", "/h")]);
    assert_eq!(
        tokenize("a > $X", 0, &env),
        vec![word("a"), Token::RedirectOut("$X".to_string())]
    );
    assert_eq!(
        tokenize("a > 'f'", 0, &env),
        vec![word("a"), Token::RedirectOut("'f'".to_string())]
    );
    assert_eq!(
        tokenize("a > ~/f", 0, &env),
        vec![word("a"), Token::RedirectOut("/h/f".to_string())]
    );
    assert_eq!(
        tokenize("a > ~", 0, &env),
        vec![word("a"), Token::RedirectOut("/h".to_string())]
    );
    assert_eq!(
        tokenize("a > ~f", 0, &env),
        vec![word("a"), Token::RedirectOut("~f".to_string())]
    );
}

#[test]
fn redirection_without_target_has_empty_path() {
    let env = Environment::new();
    assert_eq!(
        tokenize("a >", 0, &env),
        vec![word("a"), Token::RedirectOut(String::new())]
    );
    assert_eq!(
        tokenize("> ;", 0, &env),
        vec![Token::RedirectOut(String::new()), Token::Semicolon]
    );
}

#[test]
fn expand_tilde_replaces_leading_tilde_only() {
    let env = env_with(&[("HOME", "/h")]);
    assert_eq!(expand_tilde("~", &env), "/h");
    assert_eq!(expand_tilde("~/a", &env), "/h/a");
    assert_eq!(expand_tilde("~a", &env), "~a");
    assert_eq!(expand_tilde("a~", &env), "a~");
    assert_eq!(expand_tilde("", &env), "");
    let none = Environment::new();
    assert_eq!(expand_tilde("~/a", &none), "/a");
    assert_eq!(expand_tilde("~", &none), "");
}

#[test]
fn blanks_separate_words() {
    let env = Environment::new();
    assert_eq!(
        tokenize("  a\tb   c ", 0, &env),
        vec![word("a"), word("b"), word("c")]
    );
    assert_eq!(tokenize("", 0, &env), Vec::<Token>::new());
    assert_eq!(tokenize("   \t ", 0, &env), Vec::<Token>::new());
}

#[test]
fn open_quote_ends_with_the_line() {
    let env = Environment::new();
    assert_eq!(tokenize("echo 'a b", 0, &env), vec![word("echo"), word("a b")]);
    assert_eq!(tokenize("echo \"a | b", 0, &env), vec![word("echo"), word("a | b")]);
}

#[test]
fn empty_quotes_give_no_word() {
    let env = Environment::new();
    assert_eq!(tokenize("a '' b", 0, &env), vec![word("a"), word("b")]);
    assert_eq!(tokenize("a''b", 0, &env), vec![word("ab")]);
}

#[test]
fn non_ascii_text_passes_through() {
    let env = env_with(&[("gr\u{fc}n", "ja")]);
    assert_eq!(
        tokenize("echo h\u{e9}llo \u{4e16}\u{754c}", 0, &env),
        vec![word("echo"), word("h\u{e9}llo"), word("\u{4e16}\u{754c}")]
    );
    assert_eq!(tokenize("$gr\u{fc}n!", 0, &env), vec![word("ja!")]);
}

#[test]
fn tokens_compare_by_kind_and_text() {
    assert_eq!(word("a"), word("a"));
    assert_ne!(word("a"), word("b"));
    assert_ne!(word("a"), Token::RedirectIn("a".to_string()));
    assert_ne!(Token::RedirectOut("a".to_string()), Token::RedirectAppend("a".to_string()));
    assert_eq!(Token::And, Token::And);
    assert_ne!(Token::And, Token::Or);
    assert_ne!(Token::Pipe, Token::Semicolon);
}

#[test]
fn letters_digits_and_underscore_are_name_characters() {
    let chars: Vec<char> = "a_1-\u{e9} $Z\u{663}".chars().collect();
    assert_eq!(
        classify(&chars),
        vec![true, true, true, false, true, false, false, true, true]
    );
    assert_eq!(classify(&Vec::new()), Vec::<bool>::new());
}

#[test]
fn marks_decide_where_a_name_ends() {
    let env = env_with(&[("a", "1"), ("ab", "2"), ("ab-c", "3")]);
    let chars: Vec<char> = "$ab-c".chars().collect();
    let tokens = |marks: &[bool]| tokenize_classified(&chars, &marks.to_vec(), 0, &env);
    assert_eq!(tokens(&[false, true, true, false, true]), vec![word("2-c")]);
    assert_eq!(tokens(&[false, true, false, false, true]), vec![word("1b-c")]);
    assert_eq!(tokens(&[true, true, true, true, true]), vec![word("3")]);
    assert_eq!(tokens(&[true, false, true, true, true]), vec![word("ab-c")]);
    assert_eq!(tokens(&[false, true]), vec![word("1b-c")]);
    assert_eq!(tokens(&[]), vec![word("ab-c")]);
    assert_eq!(tokens(&[true, true, true, true, true, true, true]), vec![word("3")]);
}

#[test]
fn classified_line_is_tokenized_like_the_line() {
    let env = env_with(&[("HOME", "/h"), ("X", "v")]);
    for line in ["echo $X ~ 'a b' > out | cat && x || y ; z", "${X}$X$?\\$X", "a >> b < c"] {
        let chars: Vec<char> = line.chars().collect();
        let marks = classify(&chars);
        assert_eq!(
            tokenize_classified(&chars, &marks, 7, &env),
            tokenize(line, 7, &env),
            "{}",
            line
        );
    }
}
