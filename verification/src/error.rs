//! The engine's error model.
//!
//! Every failing operation reports one of these typed errors; none is retried
//! internally.

use vstd::prelude::*;

verus! {

/// An error reported by the execution engine.
#[derive(Clone, Copy, Debug, PartialEq, Eq, Structural)]
pub enum ShellError {
    /// The executable to spawn could not be found.
    LaunchNotFound,
    /// The operating system refused to create the process
    /// (permissions, resource limits, or a malformed request).
    LaunchFailed,
    /// The caller used a handle that names no live registry entry.
    ProcessNotFound,
    /// A write was attempted after the child's stdin was closed.
    StdinClosed,
    /// A raw-pid signal was refused for lack of permission.
    PermissionDenied,
    /// A raw-pid signal named a process id that does not exist.
    NoSuchProcess,
    /// The platform's default-handler mechanism refused the request.
    OpenFailed,
}

impl ShellError {
    /// A short printable description, for hosts that surface errors as text.
    pub fn message(&self) -> &'static str {
        match self {
            ShellError::LaunchNotFound => "executable not found",
            ShellError::LaunchFailed => "process creation failed",
            ShellError::ProcessNotFound => "unknown process handle",
            ShellError::StdinClosed => "stdin already closed",
            ShellError::PermissionDenied => "permission denied",
            ShellError::NoSuchProcess => "no such process",
            ShellError::OpenFailed => "no default handler accepted the request",
        }
    }
}

} // verus!
