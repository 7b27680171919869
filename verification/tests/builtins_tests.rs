use minishell::builtins::{
    find_in_path, home_dir, is_builtin, lookup_builtin, names, pick, report, resolve_path, run,
    Builtin, Effect, Line,
};
use minishell::environment::Environment;
use minishell::shell::{normalise, Shell};

fn args(words: &[&str]) -> Vec<String> {
    words.iter().map(|s| s.to_string()).collect()
}

fn env_with(pairs: &[(&str, &str)]) -> Environment {
    let mut env = Environment::new();
    for (k, v) in pairs {
        assert!(env.set(k, v));
    }
    env
}

fn texts(lines: &[Line]) -> Vec<(bool, String)> {
    lines
        .iter()
        .map(|l| match l {
            Line::Stdout(t) => (true, t.clone()),
            Line::Stderr(t) => (false, t.clone()),
        })
        .collect()
}

fn done(effect: Effect) -> (Vec<(bool, String)>, i32) {
    match effect {
        Effect::Done { lines, status } => (texts(&lines), status),
        other => panic!("not done: {:?}", other),
    }
}

#[test]
fn builtin_names_are_recognised() {
    for name in ["cd", "clear", "echo", "env", "exit", "export", "pwd", "type", "unset", "which"] {
        assert!(is_builtin(name), "{}", name);
    }
    for name in ["", "ls", "CD", "cd ", "exit1", "echoo", "typ"] {
        assert!(!is_builtin(name), "{}", name);
    }
    assert_eq!(lookup_builtin("exit"), Some(Builtin::Exit));
    assert_eq!(lookup_builtin("which"), Some(Builtin::Which));
    assert_eq!(lookup_builtin("ls"), None);
}

#[test]
fn names_lists_every_builtin_in_order() {
    let all = names();
    assert_eq!(
        all,
        vec!["cd", "clear", "echo", "env", "exit", "export", "pwd", "type", "unset", "which"]
    );
    for name in &all {
        assert!(is_builtin(name));
    }
}

#[test]
fn shell_starts_with_status_zero() {
    assert_eq!(Shell::new().last_exit_code, 0);
}

#[test]
fn exit_records_the_status_it_asks_for() {
    let mut env = Environment::new();
    let mut shell = Shell::new();
    shell.last_exit_code = 9;
    assert!(matches!(run(&args(&["exit", "3"]), &mut shell, &mut env), Effect::Exit));
    assert_eq!(shell.last_exit_code, 3);
    assert!(matches!(run(&args(&["exit"]), &mut shell, &mut env), Effect::Exit));
    assert_eq!(shell.last_exit_code, 0);
    shell.last_exit_code = 9;
    assert!(matches!(run(&args(&["exit", "abc"]), &mut shell, &mut env), Effect::Exit));
    assert_eq!(shell.last_exit_code, 0);
    assert!(matches!(run(&args(&["exit", "-2", "x"]), &mut shell, &mut env), Effect::Exit));
    assert_eq!(shell.last_exit_code, 254);
}

fn status_after_exit(argument: &str) -> i32 {
    let mut env = Environment::new();
    let mut shell = Shell::new();
    shell.last_exit_code = 9;
    assert!(matches!(run(&args(&["exit", argument]), &mut shell, &mut env), Effect::Exit));
    shell.last_exit_code
}

#[test]
fn exit_keeps_the_status_between_0_and_255() {
    assert_eq!(status_after_exit("0"), 0);
    assert_eq!(status_after_exit("1"), 1);
    assert_eq!(status_after_exit("255"), 255);
    assert_eq!(status_after_exit("256"), 0);
    assert_eq!(status_after_exit("257"), 1);
    assert_eq!(status_after_exit("300"), 44);
    assert_eq!(status_after_exit("-1"), 255);
    assert_eq!(status_after_exit("-255"), 1);
    assert_eq!(status_after_exit("-256"), 0);
    assert_eq!(status_after_exit("-257"), 255);
    assert_eq!(status_after_exit("+7"), 7);
    assert_eq!(status_after_exit("2147483647"), 255);
    assert_eq!(status_after_exit("-2147483648"), 0);
    assert_eq!(status_after_exit("2147483648"), 0);
    assert_eq!(status_after_exit("99999999999999999999"), 0);
    assert_eq!(status_after_exit("12x"), 0);
    assert_eq!(status_after_exit(""), 0);
}

#[test]
fn builtins_keep_a_status_that_is_in_range() {
    for line in [
        vec!["exit", "-7"],
        vec!["exit", "1000"],
        vec!["echo", "x"],
        vec!["export", "A=1"],
        vec!["cd"],
        vec!["nothing"],
    ] {
        for before in [0, 1, 127, 255] {
            let mut env = Environment::new();
            let mut shell = Shell::new();
            shell.last_exit_code = before;
            if let Effect::Done { status, .. } = run(&args(&line), &mut shell, &mut env) {
                assert!((0..=255).contains(&status), "{:?}", line);
            }
            assert!((0..=255).contains(&shell.last_exit_code), "{:?}", line);
        }
    }
}

#[test]
fn echo_joins_its_arguments() {
    let mut env = Environment::new();
    let mut shell = Shell::new();
    shell.last_exit_code = 5;
    let (lines, status) = done(run(&args(&["echo", "a", "b  c"]), &mut shell, &mut env));
    assert_eq!(lines, vec![(true, "a b  c".to_string())]);
    assert_eq!(status, 0);
    assert_eq!(shell.last_exit_code, 5);
    let (lines, _) = done(run(&args(&["echo"]), &mut shell, &mut env));
    assert_eq!(lines, vec![(true, String::new())]);
}

#[test]
fn export_binds_and_unset_removes() {
    let mut env = env_with(&[("KEEP", "k")]);
    let mut shell = Shell::new();
    let (lines, status) = done(run(
        &args(&["export", "A=1", "B=x=y", "novalue", "=bad", "C="]),
        &mut shell,
        &mut env,
    ));
    assert!(lines.is_empty());
    assert_eq!(status, 0);
    assert_eq!(env.get("A"), Some("1".to_string()));
    assert_eq!(env.get("B"), Some("x=y".to_string()));
    assert_eq!(env.get("C"), Some(String::new()));
    assert_eq!(env.get("novalue"), None);
    assert_eq!(env.len(), 4);
    let (lines, status) = done(run(&args(&["unset", "A", "nothing", "C"]), &mut shell, &mut env));
    assert!(lines.is_empty());
    assert_eq!(status, 0);
    assert_eq!(env.get("A"), None);
    assert_eq!(env.get("C"), None);
    assert_eq!(env.get("B"), Some("x=y".to_string()));
    assert_eq!(env.get("KEEP"), Some("k".to_string()));
}

#[test]
fn env_lists_the_variables() {
    let mut env = env_with(&[("A", "1"), ("B", "")]);
    let mut shell = Shell::new();
    let (lines, status) = done(run(&args(&["env"]), &mut shell, &mut env));
    assert_eq!(lines, vec![(true, "A=1".to_string()), (true, "B=".to_string())]);
    assert_eq!(status, 0);
}

#[test]
fn effects_that_need_the_system() {
    let mut env = env_with(&[("HOME", "/home/u")]);
    let mut shell = Shell::new();
    assert!(matches!(run(&args(&["pwd"]), &mut shell, &mut env), Effect::PrintDir));
    assert!(matches!(run(&args(&["clear"]), &mut shell, &mut env), Effect::Clear));
    match run(&args(&["which", "ls", "cd"]), &mut shell, &mut env) {
        Effect::Locate { names, describe } => {
            assert_eq!(names, vec!["ls", "cd"]);
            assert!(!describe);
        }
        other => panic!("{:?}", other),
    }
    match run(&args(&["type"]), &mut shell, &mut env) {
        Effect::Locate { names, describe } => {
            assert!(names.is_empty());
            assert!(describe);
        }
        other => panic!("{:?}", other),
    }
}

fn cd(words: &[&str], env: &mut Environment) -> (String, Option<String>) {
    match run(&args(words), &mut Shell::new(), env) {
        Effect::ChangeDir { base, rest } => (base, rest),
        other => panic!("{:?}", other),
    }
}

#[test]
fn cd_resolves_its_target() {
    let mut env = env_with(&[("HOME", "/home/u")]);
    assert_eq!(cd(&["cd", "/tmp"], &mut env), ("/tmp".to_string(), None));
    assert_eq!(cd(&["cd"], &mut env), ("/home/u".to_string(), None));
    assert_eq!(cd(&["cd", "~"], &mut env), ("/home/u".to_string(), None));
    assert_eq!(
        cd(&["cd", "~/src/x"], &mut env),
        ("/home/u".to_string(), Some("src/x".to_string()))
    );
    assert_eq!(cd(&["cd", "~/"], &mut env), ("/home/u".to_string(), Some(String::new())));
    assert_eq!(cd(&["cd", "~x"], &mut env), ("~x".to_string(), None));
    let mut none = Environment::new();
    assert_eq!(cd(&["cd"], &mut none), (String::new(), None));
    assert_eq!(cd(&["cd", "~"], &mut none), ("/".to_string(), None));
    assert_eq!(cd(&["cd", "~\\x"], &mut none), ("/".to_string(), Some("x".to_string())));
}

#[test]
fn home_is_home_or_userprofile() {
    assert_eq!(home_dir(&Environment::new()), None);
    assert_eq!(home_dir(&env_with(&[("USERPROFILE", "C:\\u")])), Some("C:\\u".to_string()));
    assert_eq!(
        home_dir(&env_with(&[("USERPROFILE", "C:\\u"), ("HOME", "/h")])),
        Some("/h".to_string())
    );
    assert_eq!(
        resolve_path("~/a", &env_with(&[("USERPROFILE", "C:\\u")])),
        ("C:\\u".to_string(), Some("a".to_string()))
    );
    assert_eq!(resolve_path("", &Environment::new()), (String::new(), None));
}

#[test]
fn what_is_no_builtin_has_status_127() {
    let mut env = Environment::new();
    let mut shell = Shell::new();
    shell.last_exit_code = 4;
    let (lines, status) = done(run(&args(&["ls", "-l"]), &mut shell, &mut env));
    assert!(lines.is_empty());
    assert_eq!(status, 127);
    let (_, status) = done(run(&[], &mut shell, &mut env));
    assert_eq!(status, 127);
    assert_eq!(shell.last_exit_code, 4);
    assert_eq!(env.len(), 0);
}

#[test]
fn which_reports_paths_and_misses() {
    let names = args(&["ls", "nope", "cd"]);
    let found = vec![Some("/bin/ls".to_string()), None, None];
    let (lines, status) = done(report(&names, &found, false));
    assert_eq!(
        lines,
        vec![
            (true, "/bin/ls".to_string()),
            (false, "nope: not found".to_string()),
            (false, "cd: not found".to_string()),
        ]
    );
    assert_eq!(status, 1);
    let (lines, status) = done(report(&names[..1], &found[..1], false));
    assert_eq!(lines, vec![(true, "/bin/ls".to_string())]);
    assert_eq!(status, 0);
    let (lines, status) = done(report(&[], &[], false));
    assert!(lines.is_empty());
    assert_eq!(status, 0);
}

#[test]
fn type_describes_builtins_and_programs() {
    let names = args(&["cd", "ls", "nope"]);
    let found = vec![Some("/bin/cd".to_string()), Some("/bin/ls".to_string()), None];
    let (lines, status) = done(report(&names, &found, true));
    assert_eq!(
        lines,
        vec![
            (true, "cd is a shell builtin".to_string()),
            (true, "ls is /bin/ls".to_string()),
            (false, "nope: not found".to_string()),
        ]
    );
    assert_eq!(status, 1);
    let (_, status) = done(report(&names[..2], &found[..2], true));
    assert_eq!(status, 0);
}

#[test]
fn report_takes_a_missing_answer_as_not_found() {
    let (lines, status) = done(report(&args(&["a", "b"]), &[Some("/x/a".to_string())], false));
    assert_eq!(
        lines,
        vec![(true, "/x/a".to_string()), (false, "b: not found".to_string())]
    );
    assert_eq!(status, 1);
}

#[test]
fn path_with_separator_is_its_only_candidate() {
    let env = env_with(&[("PATH", "/usr/bin:/bin")]);
    assert_eq!(find_in_path("./run", &env), vec!["./run"]);
    assert_eq!(find_in_path("/bin/ls", &env), vec!["/bin/ls"]);
    assert_eq!(find_in_path("a\\b", &env), vec!["a\\b"]);
    assert_eq!(find_in_path("dir/", &env), vec!["dir/"]);
    let other = env_with(&[("PATH", "/elsewhere")]);
    assert_eq!(find_in_path("./run", &other), find_in_path("./run", &env));
    assert_eq!(find_in_path("./run", &Environment::new()), vec!["./run"]);
}

#[test]
fn bare_name_is_tried_in_every_directory() {
    let env = env_with(&[("PATH", "/usr/bin:/bin/::rel")]);
    assert_eq!(
        find_in_path("ls", &env),
        vec!["/usr/bin/ls", "/bin/ls", "ls", "rel/ls"]
    );
    assert_eq!(find_in_path("ls", &Environment::new()), vec!["ls"]);
    assert_eq!(find_in_path("ls", &env_with(&[("PATH", "")])), vec!["ls"]);
    assert_eq!(find_in_path("", &env_with(&[("PATH", "/bin")])), vec!["/bin/"]);
}

#[test]
fn candidates_agree_with_path_join() {
    for dir in ["", "/", "/usr/bin", "/usr/bin/", "rel", "."] {
        let env = env_with(&[("PATH", dir)]);
        let expected = std::path::Path::new(dir).join("ls");
        assert_eq!(find_in_path("ls", &env), vec![expected.to_str().unwrap()], "{:?}", dir);
    }
}

#[test]
fn first_executable_candidate_is_the_command() {
    let paths = args(&["/a/ls", "/b/ls", "/c/ls"]);
    assert_eq!(pick(&paths, &[false, true, true]), Some("/b/ls".to_string()));
    assert_eq!(pick(&paths, &[true, false, false]), Some("/a/ls".to_string()));
    assert_eq!(pick(&paths, &[false, false, true]), Some("/c/ls".to_string()));
    assert_eq!(pick(&paths, &[false, false, false]), None);
    assert_eq!(pick(&paths, &[]), None);
    assert_eq!(pick(&paths, &[false]), None);
    assert_eq!(pick(&paths[..1], &[false, true]), None);
    assert_eq!(pick(&[], &[true]), None);
}

#[test]
fn numbers_are_reduced_to_statuses() {
    for code in 0..=255 {
        assert_eq!(normalise(code), code);
    }
    assert_eq!(normalise(256), 0);
    assert_eq!(normalise(511), 255);
    assert_eq!(normalise(512), 0);
    assert_eq!(normalise(-1), 255);
    assert_eq!(normalise(-2), 254);
    assert_eq!(normalise(-255), 1);
    assert_eq!(normalise(-256), 0);
    assert_eq!(normalise(-257), 255);
    assert_eq!(normalise(i32::MAX), 255);
    assert_eq!(normalise(i32::MIN), 0);
    for code in [-100000, -1234, -300, 300, 1234, 100000] {
        assert_eq!(normalise(code), code.rem_euclid(256));
    }
}
