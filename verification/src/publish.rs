//! How a failed append to the queue is reported.

use vstd::prelude::*;

verus! {

/// A publish attempt that failed.
#[derive(Clone, Copy, Debug, PartialEq, Eq, Structural)]
pub enum PublishError {
    /// The connection failed: refused, timed out or reset.
    Transport,
    /// The queue answered and turned the append down.
    Rejected,
}

/// What the queue client tells of a failed call.
#[derive(Clone, Copy, Debug, PartialEq, Eq, Structural)]
pub struct Failure {
    /// The connection was refused.
    pub refused: bool,
    /// The call timed out.
    pub timed_out: bool,
    /// The connection was reset or dropped, or reading or writing failed.
    pub reset: bool,
}

impl Failure {
    /// The failure lies in the connection, not in the queue's answer.
    pub open spec fn connection_level(self) -> bool {
        self.refused || self.timed_out || self.reset
    }
}

impl PublishError {
    /// The error that a failure is reported as.
    pub open spec fn of(failure: Failure) -> PublishError {
        if failure.connection_level() {
            PublishError::Transport
        } else {
            PublishError::Rejected
        }
    }

    /// Reports a failed call: `Transport` where the connection failed,
    /// `Rejected` where the queue turned the append down.
    pub fn from_failure(failure: Failure) -> (error: PublishError)
        ensures
            error == PublishError::of(failure),
    {
        if failure.refused || failure.timed_out || failure.reset {
            PublishError::Transport
        } else {
            PublishError::Rejected
        }
    }
}

} // verus!
