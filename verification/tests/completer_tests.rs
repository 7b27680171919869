use minishell::completer::{collect_path_commands, find_command_word, offer, ShellHelper};

fn strings(words: &[&str]) -> Vec<String> {
    words.iter().map(|s| s.to_string()).collect()
}

fn displays(helper: &ShellHelper, typed: &str) -> Option<(usize, String, Vec<String>)> {
    helper.complete(typed).map(|c| {
        (
            c.start,
            c.word,
            c.candidates.iter().map(|p| p.display.clone()).collect(),
        )
    })
}

#[test]
fn new_helper_has_no_prompt() {
    let helper = ShellHelper::new(strings(&["ls"]));
    assert_eq!(helper.path_commands, vec!["ls"]);
    assert_eq!(helper.colored_prompt, "");
}

#[test]
fn command_word_is_completed_from_builtins_and_path() {
    let helper = ShellHelper::new(strings(&["cat", "echo2", "ls", "clang"]));
    assert_eq!(
        displays(&helper, "c"),
        Some((0, "c".to_string(), strings(&["cd", "clear", "cat", "clang"])))
    );
    assert_eq!(
        displays(&helper, "ec"),
        Some((0, "ec".to_string(), strings(&["echo", "echo2"])))
    );
    assert_eq!(displays(&helper, "zz"), None);
}

#[test]
fn replacement_adds_a_space() {
    let helper = ShellHelper::new(Vec::new());
    let c = helper.complete("pw").unwrap();
    assert_eq!(c.candidates.len(), 1);
    assert_eq!(c.candidates[0].display, "pwd");
    assert_eq!(c.candidates[0].replacement, "pwd ");
}

#[test]
fn matching_ignores_case() {
    let helper = ShellHelper::new(strings(&["Make", "more"]));
    assert_eq!(
        displays(&helper, "M"),
        Some((0, "M".to_string(), strings(&["Make", "more"])))
    );
    assert_eq!(
        displays(&helper, "EX"),
        Some((0, "EX".to_string(), strings(&["exit", "export"])))
    );
}

#[test]
fn command_is_expected_after_pipe_and_semicolon() {
    let helper = ShellHelper::new(strings(&["ls"]));
    assert_eq!(
        displays(&helper, "cat x | l"),
        Some((8, "l".to_string(), strings(&["ls"])))
    );
    assert_eq!(
        displays(&helper, "a;l"),
        Some((2, "l".to_string(), strings(&["ls"])))
    );
    assert_eq!(
        displays(&helper, "a ;  l"),
        Some((5, "l".to_string(), strings(&["ls"])))
    );
    assert_eq!(
        displays(&helper, "  l"),
        Some((2, "l".to_string(), strings(&["ls"])))
    );
}

#[test]
fn arguments_and_paths_are_left_to_file_names() {
    let helper = ShellHelper::new(strings(&["ls"]));
    assert_eq!(displays(&helper, "cat l"), None);
    assert_eq!(displays(&helper, "./l"), None);
    assert_eq!(displays(&helper, "a\\l"), None);
    assert_eq!(displays(&helper, "ls | cat l"), None);
}

#[test]
fn empty_word_offers_every_command() {
    let helper = ShellHelper::new(strings(&["ls"]));
    let (start, word, names) = displays(&helper, "").unwrap();
    assert_eq!(start, 0);
    assert_eq!(word, "");
    assert_eq!(names.len(), 11);
    let (start, _, names) = displays(&helper, "a | ").unwrap();
    assert_eq!(start, 4);
    assert_eq!(names.len(), 11);
}

#[test]
fn start_counts_characters() {
    let helper = ShellHelper::new(strings(&["ls"]));
    let c = helper.complete("\u{e9}\u{e9};l").unwrap();
    assert_eq!(c.start, 3);
    assert_eq!(c.word, "l");
}

#[test]
fn offer_needs_the_word_to_start_the_name() {
    let c = offer("Make", "make", "ma").unwrap();
    assert_eq!(c.display, "Make");
    assert_eq!(c.replacement, "Make ");
    assert!(offer("Make", "make", "").is_some());
    assert!(offer("Make", "make", "make").is_some());
    assert!(offer("Make", "make", "makes").is_none());
    assert!(offer("Make", "make", "Ma").is_none());
    assert!(offer("Make", "make", "ak").is_none());
}

#[test]
fn path_commands_are_sorted_and_unique() {
    assert_eq!(
        collect_path_commands(strings(&["ls", "cat", "ls", "awk", "cat", "zsh", "a"])),
        vec!["a", "awk", "cat", "ls", "zsh"]
    );
    assert_eq!(collect_path_commands(Vec::new()), Vec::<String>::new());
    assert_eq!(collect_path_commands(strings(&["x"])), vec!["x"]);
    assert_eq!(collect_path_commands(strings(&["", "b", ""])), vec!["", "b"]);
}

#[test]
fn path_commands_are_ordered_as_the_standard_library_orders_strings() {
    let found = strings(&[
        "b", "B", "a", "ab", "a-b", "a_b", "\u{e9}", "e", "z", "Z", "10", "9", "\u{4e16}", "ab",
        "aB", "", "~", "\u{10348}", "\u{ffff}",
    ]);
    let mut expected = found.clone();
    expected.sort_unstable();
    expected.dedup();
    assert_eq!(collect_path_commands(found), expected);
}

fn command_word(typed: &str, blank: char) -> Option<(usize, String)> {
    let chars: Vec<char> = typed.chars().collect();
    let marks: Vec<bool> = chars.iter().map(|c| *c == blank).collect();
    find_command_word(&chars, &marks)
}

#[test]
fn command_word_is_found_by_the_marks() {
    assert_eq!(command_word("l", ' '), Some((0, "l".to_string())));
    assert_eq!(command_word("", ' '), Some((0, String::new())));
    assert_eq!(command_word("a | l", ' '), Some((4, "l".to_string())));
    assert_eq!(command_word("a l", ' '), None);
    assert_eq!(command_word("a_|_l", '_'), Some((4, "l".to_string())));
    assert_eq!(command_word("a_l", '_'), None);
    assert_eq!(command_word("a l", '_'), Some((0, "a l".to_string())));
    assert_eq!(command_word("a;b/c", ' '), None);
    assert_eq!(command_word("a/b;c", ' '), Some((4, "c".to_string())));
    assert_eq!(command_word("a;b\\c", ' '), None);
    assert_eq!(command_word("  ;  ", ' '), Some((5, String::new())));
}
