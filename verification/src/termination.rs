//! Termination by raw OS process id.
//!
//! Killing by registry handle goes through
//! [`crate::registry::ProcessRegistry::kill`].  Killing by raw pid bypasses
//! the registry entirely: the host delivers the OS termination signal to the
//! given id and reports what the OS said; this module turns that report into
//! the engine's error model.  A successful return means the signal was
//! delivered, not that the process has exited.

use vstd::prelude::*;

use crate::error::ShellError;

verus! {

/// What the OS reported for a direct termination signal to a raw process id.
#[derive(Clone, Copy, Debug, PartialEq, Eq, Structural)]
pub enum SignalOutcome {
    /// The signal was delivered.
    Delivered,
    /// No process with the given id exists.
    NoSuchProcess,
    /// The caller may not signal that process.
    PermissionDenied,
}

/// The result a kill by raw pid reports, verbatim from the OS outcome.  It
/// depends on that outcome alone: the registry is never consulted, so it is
/// the same whatever this engine has spawned.
pub fn kill_pid_result(outcome: SignalOutcome) -> (r: Result<(), ShellError>)
    ensures
        outcome == SignalOutcome::Delivered <==> r == Ok::<(), ShellError>(()),
        outcome == SignalOutcome::NoSuchProcess <==> r == Err::<(), ShellError>(
            ShellError::NoSuchProcess,
        ),
        outcome == SignalOutcome::PermissionDenied <==> r == Err::<(), ShellError>(
            ShellError::PermissionDenied,
        ),
{
    match outcome {
        SignalOutcome::Delivered => Ok(()),
        SignalOutcome::NoSuchProcess => Err(ShellError::NoSuchProcess),
        SignalOutcome::PermissionDenied => Err(ShellError::PermissionDenied),
    }
}

} // verus!
