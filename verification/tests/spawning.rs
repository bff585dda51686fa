use shellx::error::ShellError;
use shellx::spawn::{prepare_spawn, SpawnRequest};

fn request(fix_path: bool) -> SpawnRequest {
    SpawnRequest {
        program: b"tool".to_vec(),
        args: vec![b"--flag".to_vec(), b"value".to_vec()],
        cwd: Some(b"/work".to_vec()),
        env: vec![(b"KEY".to_vec(), b"VALUE".to_vec())],
        fix_path,
    }
}

#[test]
fn unresolved_program_refuses_launch_before_the_os() {
    let r = prepare_spawn(request(true), None);
    assert_eq!(r.err(), Some(ShellError::LaunchNotFound));
}

#[test]
fn resolved_program_replaces_the_requested_name() {
    let plan = prepare_spawn(request(true), Some(b"/usr/bin/tool".to_vec())).unwrap();
    assert_eq!(plan.program, b"/usr/bin/tool".to_vec());
    assert_eq!(plan.args, vec![b"--flag".to_vec(), b"value".to_vec()]);
    assert_eq!(plan.cwd, Some(b"/work".to_vec()));
    assert_eq!(plan.env, vec![(b"KEY".to_vec(), b"VALUE".to_vec())]);
}

#[test]
fn without_path_correction_the_request_runs_as_given() {
    let plan = prepare_spawn(request(false), None).unwrap();
    assert_eq!(plan.program, b"tool".to_vec());
    assert_eq!(plan.args, vec![b"--flag".to_vec(), b"value".to_vec()]);
}

#[test]
fn error_messages_are_distinct_and_printable() {
    let all = [
        ShellError::LaunchNotFound,
        ShellError::LaunchFailed,
        ShellError::ProcessNotFound,
        ShellError::StdinClosed,
        ShellError::PermissionDenied,
        ShellError::NoSuchProcess,
        ShellError::OpenFailed,
    ];
    for (i, a) in all.iter().enumerate() {
        assert!(!a.message().is_empty());
        for b in &all[i + 1..] {
            assert_ne!(a.message(), b.message());
        }
    }
}
