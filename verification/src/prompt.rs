//! The text of the prompt.

use vstd::prelude::*;
use vstd::string::*;
use crate::text::{trim, trimmed};

verus! {

/// The name shown for the working directory: its last component, or `/`
/// where there is none.
pub open spec fn shown_dir(name: Option<Seq<char>>) -> Seq<char> {
    match name {
        Some(n) => n,
        None => "/"@,
    }
}

/// The name to show for the working directory whose last component is
/// `name`; `None` stands for the root directory and for a working directory
/// that cannot be found out.
pub fn cwd(name: Option<&str>) -> (shown: String)
    ensures
        shown@ == shown_dir(name.deep_view()),
{
    match name {
        Some(n) => n.to_owned(),
        None => "/".to_owned(),
    }
}

/// The branch that `git rev-parse --abbrev-ref HEAD` reported: its output
/// without the white space around it, if the command succeeded and that is
/// not empty.
pub open spec fn branch_of(success: bool, output: Seq<char>) -> Option<Seq<char>> {
    if success && trimmed(output).len() > 0 {
        Some(trimmed(output))
    } else {
        None
    }
}

/// The current branch, from the outcome of asking git for it.
pub fn git_branch(success: bool, output: &str) -> (branch: Option<String>)
    ensures
        branch.deep_view() == branch_of(success, output@),
{
    if !success {
        return None;
    }
    let name = trim(output);
    if name.as_str().unicode_len() == 0 {
        None
    } else {
        Some(name)
    }
}

/// The prompt without colours: `~ dir $ `, or `~ dir git:(branch) $ ` inside
/// a repository.
pub open spec fn plain_prompt(cwd: Seq<char>, branch: Option<Seq<char>>) -> Seq<char> {
    match branch {
        Some(b) => "~ "@ + cwd + " git:("@ + b + ") $ "@,
        None => "~ "@ + cwd + " $ "@,
    }
}

/// The prompt with the directory in blue and the branch in red.
pub open spec fn colored_prompt(cwd: Seq<char>, branch: Option<Seq<char>>) -> Seq<char> {
    match branch {
        Some(b) => "~ \x1b[34m"@ + cwd + "\x1b[0m git:(\x1b[31m"@ + b + "\x1b[0m) $ "@,
        None => "~ \x1b[34m"@ + cwd + "\x1b[0m $ "@,
    }
}

/// Plain-text prompt, whose width is what the line editor has to reckon
/// with.
pub fn build(cwd: &str, branch: Option<&str>) -> (prompt: String)
    ensures
        prompt@ == plain_prompt(cwd@, branch.deep_view()),
{
    let mut prompt = "~ ".to_owned();
    prompt.append(cwd);
    match branch {
        Some(b) => {
            prompt.append(" git:(");
            prompt.append(b);
            prompt.append(") $ ");
        },
        None => {
            prompt.append(" $ ");
        },
    }
    prompt
}

/// Colored prompt, for display only.
pub fn build_colored(cwd: &str, branch: Option<&str>) -> (prompt: String)
    ensures
        prompt@ == colored_prompt(cwd@, branch.deep_view()),
{
    let mut prompt = "~ \x1b[34m".to_owned();
    prompt.append(cwd);
    match branch {
        Some(b) => {
            prompt.append("\x1b[0m git:(\x1b[31m");
            prompt.append(b);
            prompt.append("\x1b[0m) $ ");
        },
        None => {
            prompt.append("\x1b[0m $ ");
        },
    }
    prompt
}

} // verus!
