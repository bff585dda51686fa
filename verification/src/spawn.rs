//! Spawn preparation.
//!
//! A [`SpawnRequest`] is the caller's immutable description of what to run.
//! [`prepare_spawn`] turns it into the exact [`SpawnPlan`] the host must hand
//! to the OS process-creation primitive, resolving the program through the
//! corrected search path first when the request asks for it; when that
//! resolution found nothing, the launch is refused without touching the OS.

use vstd::prelude::*;

use crate::error::ShellError;

verus! {

/// A caller-supplied spawn request, immutable once submitted.
pub struct SpawnRequest {
    /// Program name or path to run.
    pub program: Vec<u8>,
    /// Arguments, in order.
    pub args: Vec<Vec<u8>>,
    /// Working directory for the child, when overridden.
    pub cwd: Option<Vec<u8>>,
    /// Environment overrides, name to value, overriding the inherited
    /// environment.
    pub env: Vec<(Vec<u8>, Vec<u8>)>,
    /// Whether to resolve the program through the corrected search path
    /// before launching.
    pub fix_path: bool,
}

/// Exactly what the host hands to the OS process-creation primitive, with
/// stdin as a writable pipe and stdout/stderr as readable pipes.
pub struct SpawnPlan {
    /// The program to execute: the located path when resolution was
    /// requested, the request's own program otherwise.
    pub program: Vec<u8>,
    /// Arguments, in order, exactly as requested.
    pub args: Vec<Vec<u8>>,
    /// Working directory, exactly as requested.
    pub cwd: Option<Vec<u8>>,
    /// Environment overrides, exactly as requested.
    pub env: Vec<(Vec<u8>, Vec<u8>)>,
}

/// Decide a launch.  `located` is what the command locator found for the
/// request's program under the corrected search path; it is consulted only
/// when the request asked for path correction.  When it was asked for and
/// found nothing, the launch fails with `LaunchNotFound` and the OS is never
/// touched.
pub fn prepare_spawn(request: SpawnRequest, located: Option<Vec<u8>>) -> (r: Result<
    SpawnPlan,
    ShellError,
>)
    ensures
        match r {
            Ok(plan) => {
                &&& !(request.fix_path && located is None)
                &&& (request.fix_path ==> (located matches Some(p) && plan.program == p))
                &&& (!request.fix_path ==> plan.program == request.program)
                &&& plan.args == request.args
                &&& plan.cwd == request.cwd
                &&& plan.env == request.env
            },
            Err(e) => {
                &&& e == ShellError::LaunchNotFound
                &&& request.fix_path
                &&& located is None
            },
        },
{
    if request.fix_path {
        match located {
            Some(path) => Ok(
                SpawnPlan {
                    program: path,
                    args: request.args,
                    cwd: request.cwd,
                    env: request.env,
                },
            ),
            None => Err(ShellError::LaunchNotFound),
        }
    } else {
        Ok(
            SpawnPlan {
                program: request.program,
                args: request.args,
                cwd: request.cwd,
                env: request.env,
            },
        )
    }
}

} // verus!
