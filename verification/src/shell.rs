//! The state of a session, and what counts as an exit status.

use vstd::prelude::*;

verus! {

/// The exit status that the number `code` stands for. A status lies between
/// 0 and 255; a number in that range is its own status, any other is reduced
/// modulo 256, as the operating system reduces the status of a process: -1
/// stands for 255, 256 for 0, 300 for 44.
pub open spec fn status_of(code: int) -> int {
    code % 256
}

/// Whether `status` is an exit status: a number between 0 and 255.
pub open spec fn is_status(status: int) -> bool {
    0 <= status <= 255
}

/// The exit status that `code` stands for.
pub fn normalise(code: i32) -> (status: i32)
    ensures
        status == status_of(code as int),
        is_status(status as int),
        is_status(code as int) ==> status == code,
{
    if code >= 0 {
        code % 256
    } else {
        255 - (-(code + 1)) % 256
    }
}

/// The state a session carries from one command line to the next.
#[derive(Debug, Clone, Copy)]
pub struct Shell {
    /// Exit status of the most recently executed pipeline.
    pub last_exit_code: i32,
}

impl Shell {
    /// The last status on record is an exit status. A fresh session has it
    /// so, and running builtins and command lists keeps it so.
    pub open spec fn valid(&self) -> bool {
        is_status(self.last_exit_code as int)
    }

    /// A fresh session: nothing has run yet, so the last status is zero.
    pub fn new() -> (shell: Shell)
        ensures
            shell.last_exit_code == 0,
            shell.valid(),
    {
        Shell { last_exit_code: 0 }
    }
}

} // verus!
