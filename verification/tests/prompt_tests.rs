use minishell::prompt::{build, build_colored, cwd, git_branch};

#[test]
fn plain_prompt_with_and_without_branch() {
    assert_eq!(build("src", Some("main")), "~ src git:(main) $ ");
    assert_eq!(build("src", None), "~ src $ ");
    assert_eq!(build("/", None), "~ / $ ");
    assert_eq!(build("", Some("")), "~  git:() $ ");
}

#[test]
fn colored_prompt_with_and_without_branch() {
    assert_eq!(
        build_colored("src", Some("main")),
        "~ \x1b[34msrc\x1b[0m git:(\x1b[31mmain\x1b[0m) $ "
    );
    assert_eq!(build_colored("src", None), "~ \x1b[34msrc\x1b[0m $ ");
}

#[test]
fn shown_directory_falls_back_to_root() {
    assert_eq!(cwd(Some("project")), "project");
    assert_eq!(cwd(None), "/");
}

#[test]
fn branch_is_the_trimmed_output_of_a_successful_call() {
    assert_eq!(git_branch(true, "main\n"), Some("main".to_string()));
    assert_eq!(git_branch(true, "  feature/x \n"), Some("feature/x".to_string()));
    assert_eq!(git_branch(true, "HEAD\n"), Some("HEAD".to_string()));
    assert_eq!(git_branch(true, "\n"), None);
    assert_eq!(git_branch(true, ""), None);
    assert_eq!(git_branch(false, "main\n"), None);
    assert_eq!(git_branch(false, ""), None);
}
