use autograder_rust::cmd::{
    exec_error_message, poll_decision, escalate_after_grace, shell_result_message, ExecError,
    ExecOptions, IoFailure, IoKind, PgidRegistry, PollVerdict,
};

#[test]
fn poll_prefers_natural_exit() {
    // Even past both limits, a child that exited finishes normally.
    assert_eq!(poll_decision(true, 99_999, 999_999, 100, 10), PollVerdict::Finished);
}

#[test]
fn poll_detects_timeout() {
    // One past the timeout is enough; the limits are strict.
    assert_eq!(poll_decision(false, 101, 0, 100, 220_000), PollVerdict::TimedOut);
    assert_eq!(poll_decision(false, 100, 0, 100, 220_000), PollVerdict::KeepWaiting);
}

#[test]
fn poll_detects_output_limit() {
    assert_eq!(poll_decision(false, 50, 10_001, 100, 10_000), PollVerdict::OutputExceeded);
    // Exactly at the limit is still within it.
    assert_eq!(poll_decision(false, 50, 10_000, 100, 10_000), PollVerdict::KeepWaiting);
}

#[test]
fn escalation_kills_only_survivors() {
    assert!(escalate_after_grace(true));
    assert!(!escalate_after_grace(false));
}

#[test]
fn exec_options_default_values() {
    let o = ExecOptions::default();
    assert!(o.cwd.is_none());
    assert_eq!(o.timeout_ms, 60_000);
    assert!(o.capture_stderr);
    assert_eq!(o.output_limit, 220_000);
}

#[test]
fn registry_tracks_and_untracks() {
    let mut reg = PgidRegistry::new();
    reg.track(100);
    reg.track(200);
    reg.track(100);
    assert!(reg.contains(100));
    assert!(reg.contains(200));
    assert!(!reg.contains(300));
    let snap = reg.snapshot();
    assert_eq!(snap.len(), 2);
    reg.untrack(100);
    assert!(!reg.contains(100));
    assert!(reg.contains(200));
    reg.untrack(300);
    assert!(reg.contains(200));
    reg.untrack(200);
    assert_eq!(reg.snapshot().len(), 0);
}

#[test]
fn error_messages_are_fixed_diagnostics() {
    assert_eq!(
        exec_error_message(&ExecError::Timeout(60_000), "./prog"),
        "Program timed out (infinite loop?)"
    );
    assert_eq!(
        exec_error_message(&ExecError::OutputLimit(220_001), "./prog"),
        "Program produced too much output (infinite loop?)"
    );
    let not_found = ExecError::Io(IoFailure { kind: IoKind::NotFound, message: "x".into() });
    assert_eq!(exec_error_message(&not_found, "./prog"), "Program not found (build failed?)");
    let fmt = ExecError::Io(IoFailure { kind: IoKind::ExecFormat, message: "x".into() });
    assert_eq!(
        exec_error_message(&fmt, "./tests/bin"),
        "OSError: [Errno 8] Exec format error: './tests/bin'"
    );
    let other = ExecError::Io(IoFailure { kind: IoKind::Other, message: "broken pipe".into() });
    assert_eq!(exec_error_message(&other, "./prog"), "IO error: broken pipe");
}

#[test]
fn shell_result_messages_are_fixed() {
    assert_eq!(shell_result_message(Ok("hi".to_string())), "hi");
    assert_eq!(shell_result_message(Err(ExecError::Timeout(100))), "Command timed out");
    assert_eq!(shell_result_message(Err(ExecError::OutputLimit(9))), "Output limit exceeded");
    let io = ExecError::Io(IoFailure { kind: IoKind::Other, message: "gone".into() });
    assert_eq!(shell_result_message(Err(io)), "IO error: gone");
}
