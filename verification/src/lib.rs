//! A small interactive shell, as a library: a command line is split into
//! tokens, the tokens are built into a list of pipelines, and the list is
//! run by an executor that decides every step and leaves the system calls to
//! its caller.
//!
//! * [`lexer`] turns a line into tokens, resolving quotes, escapes and
//!   variables on the way.
//! * [`parser`] builds the command list: pipelines of commands, each
//!   pipeline with the condition under which it runs.
//! * [`machine`] says what the executor does at every event, and holds what
//!   is proved of it; [`executor`] is the code that does it, and [`process`]
//!   holds the actions and events that pass between the executor and its
//!   caller.
//! * [`builtins`] are the commands that the shell runs itself, and the
//!   search for the others.
//! * [`environment`] holds the variables, [`shell`] the last exit status,
//!   which is always a number between 0 and 255.
//! * [`prompt`] and [`completer`] serve the line editor.
//! * [`text`] holds what the others need of strings and numbers.

pub mod builtins;
pub mod completer;
pub mod environment;
pub mod executor;
pub mod lexer;
pub mod machine;
pub mod parser;
pub mod process;
pub mod prompt;
pub mod shell;
pub mod text;
