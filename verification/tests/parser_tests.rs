use minishell::environment::Environment;
use minishell::lexer::{tokenize, Token};
use minishell::parser::{parse, RunIf, SimpleCmd};

fn cmds(line: &str) -> Vec<(Vec<SimpleCmd>, RunIf)> {
    parse(tokenize(line, 0, &Environment::new()))
}

fn argv(cmd: &SimpleCmd) -> Vec<&str> {
    cmd.argv.iter().map(|s| s.as_str()).collect()
}

#[test]
fn redirections_fill_the_command() {
    let list = cmds("sort < in.txt > out.txt");
    assert_eq!(list.len(), 1);
    assert_eq!(list[0].1, RunIf::Always);
    assert_eq!(list[0].0.len(), 1);
    let cmd = &list[0].0[0];
    assert_eq!(argv(cmd), vec!["sort"]);
    assert_eq!(cmd.stdin_file.as_deref(), Some("in.txt"));
    assert_eq!(cmd.stdout_file.as_deref(), Some("out.txt"));
    assert!(!cmd.append);
}

#[test]
fn append_redirection_sets_the_flag() {
    let list = cmds("a >> log x");
    let cmd = &list[0].0[0];
    assert_eq!(argv(cmd), vec!["a", "x"]);
    assert_eq!(cmd.stdout_file.as_deref(), Some("log"));
    assert!(cmd.append);
    assert_eq!(cmd.stdin_file, None);
}

#[test]
fn later_redirection_replaces_earlier() {
    let list = cmds("a >> one > two < x < y");
    let cmd = &list[0].0[0];
    assert_eq!(cmd.stdout_file.as_deref(), Some("two"));
    assert!(!cmd.append);
    assert_eq!(cmd.stdin_file.as_deref(), Some("y"));
}

#[test]
fn line_without_connector_is_one_pipeline() {
    for line in ["ls", "echo a b c", "a 'b | c' \"d ; e\"", "x \\| y", "> out", "a & b"] {
        let list = cmds(line);
        assert_eq!(list.len(), 1, "{}", line);
        assert_eq!(list[0].0.len(), 1, "{}", line);
        assert_eq!(list[0].1, RunIf::Always, "{}", line);
    }
}

#[test]
fn line_without_tokens_is_empty_list() {
    assert!(cmds("").is_empty());
    assert!(cmds("   ").is_empty());
    assert!(cmds("''").is_empty());
}

#[test]
fn pipes_join_commands() {
    let list = cmds("a x | b | c y z");
    assert_eq!(list.len(), 1);
    let p = &list[0].0;
    assert_eq!(p.len(), 3);
    assert_eq!(argv(&p[0]), vec!["a", "x"]);
    assert_eq!(argv(&p[1]), vec!["b"]);
    assert_eq!(argv(&p[2]), vec!["c", "y", "z"]);
}

#[test]
fn connectors_set_the_condition_of_the_next_pipeline() {
    let list = cmds("a ; b && c || d");
    assert_eq!(list.len(), 4);
    assert_eq!(list[0].1, RunIf::Always);
    assert_eq!(list[1].1, RunIf::Always);
    assert_eq!(list[2].1, RunIf::OnSuccess);
    assert_eq!(list[3].1, RunIf::OnFailure);
    assert_eq!(argv(&list[3].0[0]), vec!["d"]);
}

#[test]
fn stray_connectors_are_dropped() {
    assert!(cmds(";").is_empty());
    assert!(cmds("| ; && ||").is_empty());
    let list = cmds("; a ;; b ;");
    assert_eq!(list.len(), 2);
    assert_eq!(argv(&list[0].0[0]), vec!["a"]);
    assert_eq!(argv(&list[1].0[0]), vec!["b"]);
    let list = cmds("| a | | b");
    assert_eq!(list.len(), 1);
    assert_eq!(list[0].0.len(), 2);
}

#[test]
fn stray_connector_still_sets_the_condition() {
    let list = cmds("&& a");
    assert_eq!(list.len(), 1);
    assert_eq!(list[0].1, RunIf::OnSuccess);
    let list = cmds("a && ; b");
    assert_eq!(list.len(), 2);
    assert_eq!(list[1].1, RunIf::Always);
    let list = cmds("a ; || b");
    assert_eq!(list[1].1, RunIf::OnFailure);
}

#[test]
fn redirection_alone_is_a_command() {
    let list = cmds("< in | b");
    assert_eq!(list.len(), 1);
    assert_eq!(list[0].0.len(), 2);
    assert!(list[0].0[0].argv.is_empty());
    assert_eq!(list[0].0[0].stdin_file.as_deref(), Some("in"));
    let list = cmds("> out");
    assert_eq!(list[0].0[0].stdout_file.as_deref(), Some("out"));
}

#[test]
fn parsed_list_has_no_empty_pipeline_and_no_blank_command() {
    for line in ["a | | b ;; c && || d", "; | ;", "a > x | < y ; > z", "|||| a"] {
        for (pipeline, _) in cmds(line) {
            assert!(!pipeline.is_empty(), "{}", line);
            for cmd in pipeline {
                assert!(
                    !cmd.argv.is_empty() || cmd.stdin_file.is_some() || cmd.stdout_file.is_some(),
                    "{}",
                    line
                );
            }
        }
    }
}

#[test]
fn parse_takes_tokens_directly() {
    let list = parse(vec![
        Token::Word("a".to_string()),
        Token::And,
        Token::Word("b".to_string()),
        Token::RedirectIn("f".to_string()),
    ]);
    assert_eq!(list.len(), 2);
    assert_eq!(list[1].1, RunIf::OnSuccess);
    assert_eq!(list[1].0[0].stdin_file.as_deref(), Some("f"));
}

#[test]
fn default_command_is_blank() {
    let cmd = SimpleCmd::default();
    assert!(cmd.argv.is_empty());
    assert_eq!(cmd.stdin_file, None);
    assert_eq!(cmd.stdout_file, None);
    assert!(!cmd.append);
}
