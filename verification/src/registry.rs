//! The process registry: the single source of truth for every live process.
//!
//! A registry maps an opaque, caller-visible handle to the control block of
//! the process it names.  Handles are minted from a counter that only grows,
//! so a handle is never handed to two processes, and once an entry is reaped
//! its handle is stale forever.  The host serializes access to the registry
//! (one lock around the whole structure); the library itself is sequential.
//!
//! The operating-system side of each operation is the host's: after
//! [`ProcessRegistry::register`] the host has already created the child, after
//! [`ProcessRegistry::stdin_write`] it performs the pipe write, after
//! [`ProcessRegistry::kill`] it delivers the termination signal, and when the
//! child has been reaped it reports the exit through
//! [`ProcessRegistry::on_exit`].

use std::collections::HashMap;
use vstd::prelude::*;

use crate::error::ShellError;
use crate::events::{is_terminated, EventLog, OutputEvent};

verus! {

/// The mutable per-process state owned by the registry under one handle.
pub struct ProcessControlBlock {
    /// The OS-level process id of the child.
    pub pid: u32,
    /// Whether the child's stdin pipe is still open for writing.
    pub stdin_open: bool,
    /// Whether termination of the child has been requested.
    pub kill_requested: bool,
    /// The output recorded for the child so far; live until the exit event.
    pub log: EventLog,
}

/// The registry of all processes this engine has spawned and not yet reaped.
pub struct ProcessRegistry {
    /// Live control blocks, keyed by handle.
    pub table: HashMap<u64, ProcessControlBlock>,
    /// The next handle to mint; strictly above every handle ever handed out.
    pub next_handle: u64,
}

impl ProcessRegistry {
    /// Whether `h` names a live entry.
    pub open spec fn contains(self, h: u64) -> bool {
        self.table@.contains_key(h)
    }

    /// The control block that `h` names.
    pub open spec fn block_of(self, h: u64) -> ProcessControlBlock {
        self.table@[h]
    }

    /// Well-formed: every live handle lies below the mint counter, and every
    /// live entry's stream is still open and owes its terminal event.
    pub open spec fn wf(self) -> bool {
        &&& forall|h: u64| #[trigger] self.table@.contains_key(h) ==> h < self.next_handle
        &&& forall|h: u64| #[trigger]
            self.table@.contains_key(h) ==> self.table@[h].log.wf() && !self.table@[h].log.done
    }

    /// What a stdin write against `h` reports: the pid to write to when the
    /// entry is live and its stdin is open, and the exact error otherwise.
    pub open spec fn stdin_decision(self, h: u64) -> Result<u32, ShellError> {
        if !self.contains(h) {
            Err(ShellError::ProcessNotFound)
        } else if !self.block_of(h).stdin_open {
            Err(ShellError::StdinClosed)
        } else {
            Ok(self.block_of(h).pid)
        }
    }

    /// What a kill against `h` reports: the pid to signal when the entry is
    /// live, and the exact error otherwise.
    pub open spec fn kill_decision(self, h: u64) -> Result<u32, ShellError> {
        if !self.contains(h) {
            Err(ShellError::ProcessNotFound)
        } else {
            Ok(self.block_of(h).pid)
        }
    }

    /// An empty registry with no process ever registered.
    pub fn new() -> (r: ProcessRegistry)
        ensures
            r.wf(),
            r.table@ =~= Map::<u64, ProcessControlBlock>::empty(),
            r.next_handle == 0,
    {
        ProcessRegistry { table: HashMap::new(), next_handle: 0 }
    }

    /// Whether `h` names a live entry.
    pub fn is_live(&self, h: u64) -> (r: bool)
        ensures
            r == self.contains(h),
    {
        self.table.contains_key(&h)
    }

    /// How many live entries the registry holds.
    pub fn live_count(&self) -> (n: usize)
        ensures
            n == self.table@.dom().len(),
    {
        self.table.len()
    }

    /// Register a child the host has just created under a fresh handle.
    ///
    /// The new entry starts with stdin open, no kill requested, and an empty
    /// output stream.  Fails with `LaunchFailed` only when the handle space is
    /// exhausted, a resource-limit failure surfaced like any other launch
    /// refusal; nothing changes then.
    pub fn register(&mut self, pid: u32) -> (r: Result<u64, ShellError>)
        requires
            old(self).wf(),
        ensures
            final(self).wf(),
            match r {
                Ok(h) => {
                    &&& old(self).next_handle < u64::MAX
                    &&& h == old(self).next_handle
                    &&& !old(self).contains(h)
                    &&& final(self).next_handle == h + 1
                    &&& final(self).table@.dom() =~= old(self).table@.dom().insert(h)
                    &&& forall|k: u64| #[trigger]
                        old(self).table@.contains_key(k) && k != h ==> final(self).table@[k]
                            == old(self).table@[k]
                    &&& final(self).block_of(h).pid == pid
                    &&& final(self).block_of(h).stdin_open
                    &&& !final(self).block_of(h).kill_requested
                    &&& final(self).block_of(h).log@ =~= Seq::<OutputEvent>::empty()
                    &&& !final(self).block_of(h).log.done
                },
                Err(e) => {
                    &&& e == ShellError::LaunchFailed
                    &&& old(self).next_handle == u64::MAX
                    &&& *final(self) == *old(self)
                },
            },
    {
        if self.next_handle == u64::MAX {
            return Err(ShellError::LaunchFailed);
        }
        let h = self.next_handle;
        self.next_handle = h + 1;
        let block = ProcessControlBlock {
            pid,
            stdin_open: true,
            kill_requested: false,
            log: EventLog::new(),
        };
        self.table.insert(h, block);
        Ok(h)
    }

    /// Record one chunk of output read from the child named by `h`,
    /// preserving arrival order within its stream.
    pub fn push_output(&mut self, h: u64, stderr: bool, bytes: Vec<u8>) -> (r: Result<
        (),
        ShellError,
    >)
        requires
            old(self).wf(),
        ensures
            final(self).wf(),
            final(self).next_handle == old(self).next_handle,
            match r {
                Ok(()) => {
                    &&& old(self).contains(h)
                    &&& final(self).table@.dom() =~= old(self).table@.dom()
                    &&& forall|k: u64| #[trigger]
                        old(self).table@.contains_key(k) && k != h ==> final(self).table@[k]
                            == old(self).table@[k]
                    &&& final(self).block_of(h).pid == old(self).block_of(h).pid
                    &&& final(self).block_of(h).stdin_open == old(self).block_of(h).stdin_open
                    &&& final(self).block_of(h).kill_requested == old(self).block_of(
                        h,
                    ).kill_requested
                    &&& final(self).block_of(h).log@ == old(self).block_of(h).log@.push(
                        if stderr { OutputEvent::Stderr(bytes) } else { OutputEvent::Stdout(bytes) },
                    )
                    &&& !final(self).block_of(h).log.done
                },
                Err(e) => {
                    &&& e == ShellError::ProcessNotFound
                    &&& !old(self).contains(h)
                    &&& final(self).table@ == old(self).table@
                },
            },
    {
        match self.table.remove(&h) {
            None => {
                proof {
                    assert(self.table@ =~= old(self).table@);
                }
                Err(ShellError::ProcessNotFound)
            },
            Some(mut block) => {
                block.log.push_chunk(stderr, bytes);
                self.table.insert(h, block);
                proof {
                    assert(self.table@.dom() =~= old(self).table@.dom());
                }
                Ok(())
            },
        }
    }

    /// Decide a stdin write against `h`: on success the host writes the bytes
    /// to the stdin pipe of the returned pid.  Fails with `ProcessNotFound`
    /// on a stale or unknown handle and with `StdinClosed` when the child's
    /// stdin has already been closed; a write is never silently discarded.
    pub fn stdin_write(&self, h: u64) -> (r: Result<u32, ShellError>)
        ensures
            r == self.stdin_decision(h),
    {
        match self.table.get(&h) {
            None => Err(ShellError::ProcessNotFound),
            Some(block) => {
                if block.stdin_open {
                    Ok(block.pid)
                } else {
                    Err(ShellError::StdinClosed)
                }
            },
        }
    }

    /// Kill the process named by `h`: close its stdin, mark termination as
    /// requested, and report the pid the host must signal.  Fails with
    /// `ProcessNotFound` on a stale or unknown handle.  The entry stays live:
    /// the actual exit is still observed through its terminal event.
    pub fn kill(&mut self, h: u64) -> (r: Result<u32, ShellError>)
        requires
            old(self).wf(),
        ensures
            final(self).wf(),
            final(self).next_handle == old(self).next_handle,
            r == old(self).kill_decision(h),
            match r {
                Ok(_) => {
                    &&& final(self).table@.dom() =~= old(self).table@.dom()
                    &&& forall|k: u64| #[trigger]
                        old(self).table@.contains_key(k) && k != h ==> final(self).table@[k]
                            == old(self).table@[k]
                    &&& final(self).block_of(h).pid == old(self).block_of(h).pid
                    &&& !final(self).block_of(h).stdin_open
                    &&& final(self).block_of(h).kill_requested
                    &&& final(self).block_of(h).log == old(self).block_of(h).log
                },
                Err(_) => final(self).table@ == old(self).table@,
            },
    {
        match self.table.remove(&h) {
            None => {
                proof {
                    assert(self.table@ =~= old(self).table@);
                }
                Err(ShellError::ProcessNotFound)
            },
            Some(block) => {
                let pid = block.pid;
                let updated = ProcessControlBlock {
                    pid: block.pid,
                    stdin_open: false,
                    kill_requested: true,
                    log: block.log,
                };
                self.table.insert(h, updated);
                proof {
                    assert(self.table@.dom() =~= old(self).table@.dom());
                }
                Ok(pid)
            },
        }
    }

    /// Reap the process named by `h`: seal its stream with the single
    /// terminal event and remove the entry, making the handle stale forever.
    /// Returns the sealed stream.  Fails with `ProcessNotFound` when the
    /// handle is unknown or already reaped, so a second exit report for the
    /// same handle can never produce a second terminal event.
    pub fn on_exit(&mut self, h: u64, exit_code: Option<i32>, signal: Option<i32>) -> (r: Result<
        EventLog,
        ShellError,
    >)
        requires
            old(self).wf(),
        ensures
            final(self).wf(),
            final(self).next_handle == old(self).next_handle,
            match r {
                Ok(log) => {
                    &&& old(self).contains(h)
                    &&& final(self).table@ == old(self).table@.remove(h)
                    &&& !final(self).contains(h)
                    &&& log.wf()
                    &&& log.done
                    &&& log@ == old(self).block_of(h).log@.push(
                        (OutputEvent::Terminated { exit_code, signal }),
                    )
                },
                Err(e) => {
                    &&& e == ShellError::ProcessNotFound
                    &&& !old(self).contains(h)
                    &&& final(self).table@ == old(self).table@
                },
            },
    {
        match self.table.remove(&h) {
            None => {
                proof {
                    assert(self.table@ =~= old(self).table@);
                }
                Err(ShellError::ProcessNotFound)
            },
            Some(mut block) => {
                block.log.finish(exit_code, signal);
                Ok(block.log)
            },
        }
    }
}

/// Law: a handle that names no live entry is rejected by every per-handle
/// operation: a stdin write and a kill both report `ProcessNotFound`, and
/// never succeed silently.
pub proof fn lemma_stale_handle_rejected(reg: ProcessRegistry, h: u64)
    requires
        !reg.contains(h),
    ensures
        reg.stdin_decision(h) == Err::<u32, ShellError>(ShellError::ProcessNotFound),
        reg.kill_decision(h) == Err::<u32, ShellError>(ShellError::ProcessNotFound),
{
}

/// Law: reaping an entry makes its handle stale, so once a process's terminal
/// event has been delivered, a write to its stdin fails with
/// `ProcessNotFound` and a second exit report is refused.
pub proof fn lemma_exit_makes_handle_stale(pre: ProcessRegistry, post: ProcessRegistry, h: u64)
    requires
        post.table@ == pre.table@.remove(h),
    ensures
        !post.contains(h),
        post.stdin_decision(h) == Err::<u32, ShellError>(ShellError::ProcessNotFound),
        post.kill_decision(h) == Err::<u32, ShellError>(ShellError::ProcessNotFound),
{
}

/// Law: a kill against a live handle always succeeds, and every live entry
/// of a well-formed registry still owes its terminal event: its recorded
/// stream is open and holds no termination event yet.  A successful kill
/// leaves the entry live, so the exit that the signal provokes is still
/// reported through exactly one terminal event.
pub proof fn lemma_live_entry_owes_terminal_event(reg: ProcessRegistry, h: u64)
    requires
        reg.wf(),
        reg.contains(h),
    ensures
        reg.kill_decision(h) == Ok::<u32, ShellError>(reg.block_of(h).pid),
        !reg.block_of(h).log.done,
        forall|i: int|
            0 <= i < reg.block_of(h).log@.len() ==> !is_terminated(
                #[trigger] reg.block_of(h).log@[i],
            ),
{
}

/// Law: handles are never reused: every live handle lies below the mint
/// counter, so no handle at or above it ever named an entry, and the handle
/// minted next is distinct from every live one.
pub proof fn lemma_handles_not_reused(reg: ProcessRegistry, h: u64)
    requires
        reg.wf(),
        h >= reg.next_handle,
    ensures
        !reg.contains(h),
{
}

} // verus!
