use std::collections::HashMap;

use shellx::error::ShellError;
use shellx::events::{collect_outcome, EventLog, OutputEvent};
use shellx::registry::ProcessRegistry;
use shellx::termination::{kill_pid_result, SignalOutcome};

fn count_terminated(log: &EventLog) -> usize {
    log.events
        .iter()
        .filter(|e| matches!(e, OutputEvent::Terminated { .. }))
        .count()
}

#[test]
fn hello_stream_ends_with_exit_zero() {
    // Spawn a command that writes "hello\n" to stdout and exits with code 0:
    // the stream yields the stdout event and then Terminated{exit_code: 0}.
    let mut reg = ProcessRegistry::new();
    let h = reg.register(4242).unwrap();
    reg.push_output(h, false, b"hello\n".to_vec()).unwrap();
    let log = reg.on_exit(h, Some(0), None).unwrap();

    assert_eq!(log.events.len(), 2);
    assert_eq!(log.events[0], OutputEvent::Stdout(b"hello\n".to_vec()));
    assert_eq!(
        log.events[1],
        OutputEvent::Terminated { exit_code: Some(0), signal: None }
    );

    let outcome = collect_outcome(&log);
    assert_eq!(outcome.exit_code, Some(0));
    assert_eq!(outcome.signal, None);
    assert_eq!(outcome.stdout, b"hello\n".to_vec());
    assert!(outcome.stderr.is_empty());
}

#[test]
fn exactly_one_terminated_event_and_last() {
    let mut reg = ProcessRegistry::new();
    let h = reg.register(7).unwrap();
    reg.push_output(h, false, b"a".to_vec()).unwrap();
    reg.push_output(h, true, b"b".to_vec()).unwrap();
    reg.push_output(h, false, b"c".to_vec()).unwrap();
    let log = reg.on_exit(h, Some(1), None).unwrap();

    assert_eq!(count_terminated(&log), 1);
    assert!(matches!(
        log.events.last().unwrap(),
        OutputEvent::Terminated { .. }
    ));
    // A second exit report for the same handle is refused: no second
    // Terminated event can ever be produced.
    assert_eq!(
        reg.on_exit(h, Some(1), None),
        Err(ShellError::ProcessNotFound)
    );
}

#[test]
fn stdin_write_after_exit_fails() {
    let mut reg = ProcessRegistry::new();
    let h = reg.register(11).unwrap();
    assert_eq!(reg.stdin_write(h), Ok(11));
    reg.on_exit(h, Some(0), None).unwrap();
    assert_eq!(reg.stdin_write(h), Err(ShellError::ProcessNotFound));
}

#[test]
fn stdin_write_after_kill_fails_with_stdin_closed() {
    let mut reg = ProcessRegistry::new();
    let h = reg.register(12).unwrap();
    assert_eq!(reg.kill(h), Ok(12));
    // The kill closed stdin but the entry is still live until the exit event.
    assert_eq!(reg.stdin_write(h), Err(ShellError::StdinClosed));
}

#[test]
fn stdin_write_unknown_handle_fails() {
    let reg = ProcessRegistry::new();
    assert_eq!(reg.stdin_write(999), Err(ShellError::ProcessNotFound));
}

#[test]
fn kill_unknown_handle_fails() {
    let mut reg = ProcessRegistry::new();
    assert_eq!(reg.kill(999), Err(ShellError::ProcessNotFound));
}

#[test]
fn killed_process_still_delivers_terminated() {
    // Spawn a long-running command, kill it, and observe the terminal event
    // with a signal-indicated status.
    let mut reg = ProcessRegistry::new();
    let h = reg.register(31337).unwrap();
    let pid = reg.kill(h).expect("kill of a live handle succeeds");
    assert_eq!(pid, 31337);
    // The host delivers the signal to `pid`; the child dies of signal 9 and
    // the exit is reported.
    let log = reg.on_exit(h, None, Some(9)).unwrap();
    assert_eq!(
        log.events.last().unwrap(),
        &OutputEvent::Terminated { exit_code: None, signal: Some(9) }
    );
    assert_eq!(count_terminated(&log), 1);
}

#[test]
fn echoed_stdin_bytes_reach_stdout() {
    // stdin_write to a process that echoes stdin to stdout: the bytes written
    // come back in a later stdout event.
    let mut reg = ProcessRegistry::new();
    let h = reg.register(5).unwrap();
    let payload = b"ping\n".to_vec();
    let pid = reg.stdin_write(h).expect("stdin of a live process is open");
    assert_eq!(pid, 5);
    // The host writes `payload` to pid 5's stdin; the child echoes it back.
    reg.push_output(h, false, payload.clone()).unwrap();
    let log = reg.on_exit(h, Some(0), None).unwrap();
    let outcome = collect_outcome(&log);
    assert_eq!(outcome.stdout, payload);
}

#[test]
fn kill_pid_is_independent_of_registry() {
    // A raw-pid kill consults only the OS outcome, never the registry: an id
    // that names no OS process reports NoSuchProcess whatever the registry
    // holds.
    let mut reg = ProcessRegistry::new();
    reg.register(100).unwrap();
    reg.register(200).unwrap();
    assert_eq!(
        kill_pid_result(SignalOutcome::NoSuchProcess),
        Err(ShellError::NoSuchProcess)
    );
    assert_eq!(
        kill_pid_result(SignalOutcome::PermissionDenied),
        Err(ShellError::PermissionDenied)
    );
    assert_eq!(kill_pid_result(SignalOutcome::Delivered), Ok(()));
}

#[test]
fn handles_are_unique_and_never_reused() {
    let mut reg = ProcessRegistry::new();
    let h1 = reg.register(1).unwrap();
    let h2 = reg.register(2).unwrap();
    assert_ne!(h1, h2);
    assert!(reg.is_live(h1) && reg.is_live(h2));
    assert_eq!(reg.live_count(), 2);
    reg.on_exit(h1, Some(0), None).unwrap();
    assert!(!reg.is_live(h1));
    let h3 = reg.register(3).unwrap();
    assert_ne!(h3, h1);
    assert_ne!(h3, h2);
}

#[test]
fn exhausted_handle_space_is_a_launch_failure() {
    let mut reg = ProcessRegistry { table: HashMap::new(), next_handle: u64::MAX };
    assert_eq!(reg.register(1), Err(ShellError::LaunchFailed));
    assert_eq!(reg.live_count(), 0);
}

#[test]
fn output_arrives_only_for_live_handles() {
    let mut reg = ProcessRegistry::new();
    assert_eq!(
        reg.push_output(77, false, b"late".to_vec()),
        Err(ShellError::ProcessNotFound)
    );
    let h = reg.register(8).unwrap();
    reg.on_exit(h, Some(0), None).unwrap();
    assert_eq!(
        reg.push_output(h, false, b"late".to_vec()),
        Err(ShellError::ProcessNotFound)
    );
}

#[test]
fn streams_keep_byte_order_per_stream() {
    let mut log = EventLog::new();
    log.push_chunk(false, b"out-1 ".to_vec());
    log.push_chunk(true, b"err-1 ".to_vec());
    log.push_chunk(false, b"out-2".to_vec());
    log.push_chunk(true, b"err-2".to_vec());
    log.finish(Some(0), None);
    let outcome = collect_outcome(&log);
    assert_eq!(outcome.stdout, b"out-1 out-2".to_vec());
    assert_eq!(outcome.stderr, b"err-1 err-2".to_vec());
}

#[test]
fn event_log_accessors_report_the_stream() {
    let mut log = EventLog::new();
    assert!(!log.is_done());
    assert_eq!(log.len(), 0);
    log.push_chunk(false, b"x".to_vec());
    log.finish(None, Some(15));
    assert!(log.is_done());
    assert_eq!(log.len(), 2);
    assert_eq!(log.event_at(0), &OutputEvent::Stdout(b"x".to_vec()));
    assert_eq!(
        log.event_at(1),
        &OutputEvent::Terminated { exit_code: None, signal: Some(15) }
    );
}
