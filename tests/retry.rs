use sw_assistant::retry::{RetryAction, RetryState, MAX_RETRIES};

#[test]
fn backoff_doubles_then_gives_up() {
    let mut s = RetryState::new();
    assert_eq!(s.on_failure(7), RetryAction::Wait { delay_ms: 207 });
    assert_eq!(s.on_failure(0), RetryAction::Wait { delay_ms: 400 });
    assert_eq!(s.on_failure(99), RetryAction::Wait { delay_ms: 899 });
    assert_eq!(s.on_failure(5), RetryAction::GiveUp);
    assert_eq!(s.failures, 4);
}

#[test]
fn always_failing_operation_runs_four_times() {
    let mut s = RetryState::new();
    let mut attempts = 0u32;
    loop {
        attempts += 1;
        match s.on_failure_jittered() {
            RetryAction::Wait { delay_ms } => assert!(delay_ms >= 200 && delay_ms < 900),
            RetryAction::GiveUp => break,
        }
    }
    assert_eq!(attempts, 1 + MAX_RETRIES);
}

#[test]
fn success_on_second_attempt_stops() {
    let outcomes = [false, true, true];
    let mut s = RetryState::new();
    let mut calls = 0;
    for ok in outcomes {
        calls += 1;
        if ok {
            break;
        }
        match s.on_failure(0) {
            RetryAction::Wait { .. } => {}
            RetryAction::GiveUp => break,
        }
    }
    assert_eq!(calls, 2);
}
