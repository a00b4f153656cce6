//! The end of the servers: how long the program waits for each.

use vstd::prelude::*;

verus! {

/// How long the program waits for a server.
pub const JOIN_TIMEOUT_SECS: u64 = 5;

/// How often it looks.
pub const JOIN_POLL_MS: u64 = 25;

/// What to do about a server that was told to stop.
#[derive(Debug, Clone, Copy, PartialEq, Eq, Structural)]
pub enum JoinStep {
    /// It has ended; take its result.
    Reap,
    /// Look again later.
    Wait,
    /// Leave it alone.
    Detach,
}

/// Decides what to do about a server that was told to stop: one that has ended is reaped even when
/// the time is up.
pub fn join_step(finished: bool, waited_ms: u64, timeout_ms: u64) -> (r: JoinStep)
    ensures
        r == (if finished {
            JoinStep::Reap
        } else if waited_ms < timeout_ms {
            JoinStep::Wait
        } else {
            JoinStep::Detach
        }),
{
    if finished {
        JoinStep::Reap
    } else if waited_ms < timeout_ms {
        JoinStep::Wait
    } else {
        JoinStep::Detach
    }
}

} // verus!
