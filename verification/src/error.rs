//! The kinds of failure that the bus master and the scheduler report.

use vstd::prelude::*;

verus! {

/// What went wrong.
#[derive(Clone, Copy, Debug, PartialEq, Eq, Structural)]
pub enum ErrorKind {
    /// No presence pulse was seen within the response window.
    BusTimeout,
    /// Both read slots of a search round stayed high: no device answered.
    BusConflict,
    /// The checksum of a discovered address does not match its trailing byte.
    ChecksumMismatch,
    /// The task was already pending when it was spawned or re-armed.
    SchedulingFailure,
}

impl ErrorKind {
    /// Failures of the discovery at boot halt the system; a failed re-arm of
    /// the periodic task is dropped.
    pub open spec fn spec_is_fatal(self) -> bool {
        self != ErrorKind::SchedulingFailure
    }

    /// Whether the system halts on this failure.
    pub fn is_fatal(self) -> (fatal: bool)
        ensures
            fatal == self.spec_is_fatal(),
    {
        match self {
            ErrorKind::SchedulingFailure => false,
            _ => true,
        }
    }
}

} // verus!
