//! The request to stop, raised by a signal, a client or a broken socket.

use vstd::prelude::*;

verus! {

/// Whether the daemon has been asked to stop.
pub struct ExitFlag {
    requested: bool,
}

impl View for ExitFlag {
    type V = bool;

    closed spec fn view(&self) -> bool {
        self.requested
    }
}

impl ExitFlag {
    /// A flag on which nobody has asked for anything yet.
    pub fn new() -> (flag: ExitFlag)
        ensures
            !flag@,
    {
        ExitFlag { requested: false }
    }
}

/// Asks the daemon to stop. There is no way to take the request back.
pub fn exit_daemon(flag: &mut ExitFlag)
    ensures
        final(flag)@,
{
    flag.requested = true;
}

/// Whether the daemon has been asked to stop.
pub fn should_daemon_exit(flag: &ExitFlag) -> (requested: bool)
    ensures
        requested == flag@,
{
    flag.requested
}

} // verus!
