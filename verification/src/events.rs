//! The per-process output stream.
//!
//! Each spawned process produces an ordered, finite stream of [`OutputEvent`]s:
//! any number of stdout/stderr chunks followed by exactly one terminal
//! [`OutputEvent::Terminated`] event.  [`EventLog`] models that stream while it
//! is being produced; its well-formedness says that a termination event can
//! only stand last, so a sealed log carries exactly one.

use vstd::prelude::*;

verus! {

/// One event in a spawned process's output stream.
#[derive(Clone, Debug, PartialEq, Eq)]
pub enum OutputEvent {
    /// A chunk of bytes read from the child's stdout.
    Stdout(Vec<u8>),
    /// A chunk of bytes read from the child's stderr.
    Stderr(Vec<u8>),
    /// The terminal event: the process exited with `exit_code`, or was ended
    /// by `signal` when no exit code is available.
    Terminated { exit_code: Option<i32>, signal: Option<i32> },
}

/// Whether an event is the terminal one.
pub open spec fn is_terminated(e: OutputEvent) -> bool {
    e matches OutputEvent::Terminated { .. }
}

/// The bytes an event contributes to the chosen stream
/// (`stderr == false` selects stdout, `stderr == true` selects stderr).
pub open spec fn chunk_bytes(e: OutputEvent, stderr: bool) -> Seq<u8> {
    match e {
        OutputEvent::Stdout(b) => if stderr { Seq::empty() } else { b@ },
        OutputEvent::Stderr(b) => if stderr { b@ } else { Seq::empty() },
        OutputEvent::Terminated { .. } => Seq::empty(),
    }
}

/// All bytes the events contribute to the chosen stream, in arrival order.
pub open spec fn stream_bytes(events: Seq<OutputEvent>, stderr: bool) -> Seq<u8>
    decreases events.len(),
{
    if events.len() == 0 {
        Seq::empty()
    } else {
        stream_bytes(events.drop_last(), stderr) + chunk_bytes(events.last(), stderr)
    }
}

/// The exit code carried by a terminal event.
pub open spec fn exit_code_of(e: OutputEvent) -> Option<i32> {
    match e {
        OutputEvent::Terminated { exit_code, .. } => exit_code,
        _ => None,
    }
}

/// The signal carried by a terminal event.
pub open spec fn signal_of(e: OutputEvent) -> Option<i32> {
    match e {
        OutputEvent::Terminated { signal, .. } => signal,
        _ => None,
    }
}

/// The recorded output stream of one spawned process.
///
/// While the process runs, chunks are appended in arrival order; when the
/// process has been reaped, the stream is sealed with its single terminal
/// event and `done` is set.  Nothing can be appended to a sealed log.
#[derive(Debug, PartialEq, Eq)]
pub struct EventLog {
    /// The events recorded so far, in arrival order.
    pub events: Vec<OutputEvent>,
    /// Whether the terminal event has been recorded.
    pub done: bool,
}

impl View for EventLog {
    type V = Seq<OutputEvent>;

    open spec fn view(&self) -> Seq<OutputEvent> {
        self.events@
    }
}

impl EventLog {
    /// Well-formed: a termination event can only stand last, and stands there
    /// exactly when the log is sealed.
    pub open spec fn wf(self) -> bool {
        &&& forall|i: int|
            0 <= i < self@.len() && is_terminated(#[trigger] self@[i]) ==> self.done && i == self@.len() - 1
        &&& self.done ==> self@.len() > 0 && is_terminated(self@.last())
    }

    /// An empty, live log, ready to record a new process's output.
    pub fn new() -> (log: EventLog)
        ensures
            log.wf(),
            !log.done,
            log@ =~= Seq::<OutputEvent>::empty(),
    {
        EventLog { events: Vec::new(), done: false }
    }

    /// Record one chunk of stdout (`stderr == false`) or stderr
    /// (`stderr == true`) output, preserving arrival order.
    pub fn push_chunk(&mut self, stderr: bool, bytes: Vec<u8>)
        requires
            old(self).wf(),
            !old(self).done,
        ensures
            final(self).wf(),
            !final(self).done,
            final(self)@ == old(self)@.push(
                if stderr { OutputEvent::Stderr(bytes) } else { OutputEvent::Stdout(bytes) },
            ),
    {
        let ev = if stderr { OutputEvent::Stderr(bytes) } else { OutputEvent::Stdout(bytes) };
        self.events.push(ev);
        proof {
            assert forall|i: int|
                0 <= i < self@.len() && is_terminated(#[trigger] self@[i]) implies self.done && i
                == self@.len() - 1 by {
                if i < self@.len() - 1 {
                    assert(self@[i] == old(self)@[i]);
                }
            }
        }
    }

    /// Seal the log with its single terminal event.
    pub fn finish(&mut self, exit_code: Option<i32>, signal: Option<i32>)
        requires
            old(self).wf(),
            !old(self).done,
        ensures
            final(self).wf(),
            final(self).done,
            final(self)@ == old(self)@.push(
                (OutputEvent::Terminated { exit_code, signal }),
            ),
    {
        self.events.push(OutputEvent::Terminated { exit_code, signal });
        self.done = true;
        proof {
            assert forall|i: int|
                0 <= i < self@.len() && is_terminated(#[trigger] self@[i]) implies self.done && i
                == self@.len() - 1 by {
                if i < self@.len() - 1 {
                    assert(self@[i] == old(self)@[i]);
                    assert(!is_terminated(old(self)@[i]));
                }
            }
        }
    }

    /// How many events the log holds.
    pub fn len(&self) -> (n: usize)
        ensures
            n == self@.len(),
    {
        self.events.len()
    }

    /// The event at position `i`, in arrival order.
    pub fn event_at(&self, i: usize) -> (e: &OutputEvent)
        requires
            i < self@.len(),
        ensures
            *e == self@[i as int],
    {
        &self.events[i]
    }

    /// Whether the terminal event has been recorded.
    pub fn is_done(&self) -> (r: bool)
        ensures
            r == self.done,
    {
        self.done
    }
}

/// Law: a sealed, well-formed stream holds exactly one termination event,
/// and it is the last event of the stream.
pub proof fn lemma_terminated_once_last(log: EventLog)
    requires
        log.wf(),
        log.done,
    ensures
        log@.len() > 0,
        is_terminated(log@.last()),
        forall|i: int| 0 <= i < log@.len() && is_terminated(#[trigger] log@[i]) ==> i == log@.len() - 1,
{
}

/// Law: a live, well-formed stream holds no termination event at all: the
/// terminal event is still owed.
pub proof fn lemma_live_stream_unterminated(log: EventLog)
    requires
        log.wf(),
        !log.done,
    ensures
        forall|i: int| 0 <= i < log@.len() ==> !is_terminated(#[trigger] log@[i]),
{
}

/// The buffered, one-shot result of running a process to completion:
/// everything its stream produced, folded into plain values.
pub struct ExecOutcome {
    /// The exit code of the terminal event, when the child exited normally.
    pub exit_code: Option<i32>,
    /// The signal of the terminal event, when the child was ended by one.
    pub signal: Option<i32>,
    /// Every stdout byte, in arrival order.
    pub stdout: Vec<u8>,
    /// Every stderr byte, in arrival order.
    pub stderr: Vec<u8>,
}

/// Fold a sealed stream into the buffered result that the one-shot
/// `execute` operation reports.
pub fn collect_outcome(log: &EventLog) -> (r: ExecOutcome)
    requires
        log.wf(),
        log.done,
    ensures
        r.stdout@ == stream_bytes(log@, false),
        r.stderr@ == stream_bytes(log@, true),
        r.exit_code == exit_code_of(log@.last()),
        r.signal == signal_of(log@.last()),
{
    let mut stdout: Vec<u8> = Vec::new();
    let mut stderr: Vec<u8> = Vec::new();
    let mut exit_code: Option<i32> = None;
    let mut signal: Option<i32> = None;
    let n = log.events.len();
    let mut i: usize = 0;
    while i < n
        invariant
            n == log@.len(),
            0 <= i <= n,
            log.wf(),
            log.done,
            stdout@ == stream_bytes(log@.subrange(0, i as int), false),
            stderr@ == stream_bytes(log@.subrange(0, i as int), true),
            i < n ==> exit_code == None::<i32> && signal == None::<i32>,
            i == n ==> exit_code == exit_code_of(log@.last()) && signal == signal_of(log@.last()),
        decreases n - i,
    {
        proof {
            assert(log@.subrange(0, i + 1 as int).drop_last() =~= log@.subrange(0, i as int));
            assert(log@.subrange(0, i + 1 as int).last() == log@[i as int]);
        }
        match &log.events[i] {
            OutputEvent::Stdout(b) => {
                stdout.extend_from_slice(b.as_slice());
                proof {
                    assert(stdout@ =~= stream_bytes(log@.subrange(0, i + 1 as int), false));
                    assert(stderr@ =~= stream_bytes(log@.subrange(0, i + 1 as int), true));
                }
            },
            OutputEvent::Stderr(b) => {
                stderr.extend_from_slice(b.as_slice());
                proof {
                    assert(stdout@ =~= stream_bytes(log@.subrange(0, i + 1 as int), false));
                    assert(stderr@ =~= stream_bytes(log@.subrange(0, i + 1 as int), true));
                }
            },
            OutputEvent::Terminated { exit_code: ec, signal: sg } => {
                exit_code = *ec;
                signal = *sg;
                proof {
                    assert(i == n - 1);
                    assert(stdout@ =~= stream_bytes(log@.subrange(0, i + 1 as int), false));
                    assert(stderr@ =~= stream_bytes(log@.subrange(0, i + 1 as int), true));
                }
            },
        }
        i = i + 1;
    }
    proof {
        assert(log@.subrange(0, n as int) =~= log@);
    }
    ExecOutcome { exit_code, signal, stdout, stderr }
}

} // verus!
