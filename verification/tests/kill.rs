use ziro::process::{
    kill_decision, ForcedKill, KillAction, KillError, SignalOutcome,
};

#[test]
fn test_kill_absent_pid_is_success() {
    let r = kill_decision(4242, SignalOutcome::Absent);
    assert!(r.is_ok());
}

#[test]
fn test_kill_accepted_signal_is_success() {
    let r = kill_decision(4242, SignalOutcome::Accepted);
    assert!(r.is_ok());
}

#[test]
fn test_kill_refused_signal_is_permission_error() {
    let r = kill_decision(4242, SignalOutcome::Refused);
    assert_eq!(r, Err(KillError::PermissionDenied { pid: 4242 }));
}

#[test]
fn test_forced_kill_missing_pid_succeeds_immediately() {
    let mut m = ForcedKill::new();
    assert_eq!(m.next_action(), KillAction::ProbeExistence);
    m.on_exists(false);
    assert_eq!(m.outcome(9999), Some(Ok(())));
    assert_eq!(m.signals_sent, 0);
    assert_eq!(m.slept_ms, 0);
}

#[test]
fn test_forced_kill_worst_case_budget() {
    let mut m = ForcedKill::new();
    m.on_exists(true);
    for attempt in 1..=3u16 {
        let expected_wait = if attempt == 1 { 0 } else { 1000 };
        assert_eq!(
            m.next_action(),
            KillAction::SendSignalAfterWait { wait_ms: expected_wait }
        );
        m.on_signal(SignalOutcome::Accepted);
        assert_eq!(m.next_action(), KillAction::VerifyAfterWait { wait_ms: 500 });
        m.on_verify(false);
    }
    assert_eq!(m.outcome(7), Some(Err(KillError::StillRunning { pid: 7 })));
    assert_eq!(m.signals_sent, 3);
    assert_eq!(m.slept_ms, 3500);
}

#[test]
fn test_forced_kill_signal_refused_every_time() {
    let mut m = ForcedKill::new();
    m.on_exists(true);
    m.on_signal(SignalOutcome::Refused);
    m.on_signal(SignalOutcome::Refused);
    m.on_signal(SignalOutcome::Refused);
    assert_eq!(m.outcome(7), Some(Err(KillError::PermissionDenied { pid: 7 })));
    assert_eq!(m.signals_sent, 3);
    assert!(m.slept_ms <= 3500);
}

#[test]
fn test_forced_kill_process_exits_after_first_signal() {
    let mut m = ForcedKill::new();
    m.on_exists(true);
    m.on_signal(SignalOutcome::Accepted);
    m.on_verify(true);
    assert_eq!(m.outcome(7), Some(Ok(())));
    assert_eq!(m.signals_sent, 1);
    assert_eq!(m.slept_ms, 500);
}

#[test]
fn test_forced_kill_pid_vanishes_during_signaling() {
    let mut m = ForcedKill::new();
    m.on_exists(true);
    m.on_signal(SignalOutcome::Absent);
    assert_eq!(m.outcome(7), Some(Ok(())));
    assert_eq!(m.signals_sent, 0);
}
