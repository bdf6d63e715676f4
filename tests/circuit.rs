use zed42::circuit::{CircuitBreaker, Phase, DEFAULT_FAILURE_THRESHOLD};

#[test]
fn canary_recovery() {
    let mut cb = CircuitBreaker::new().with_thresholds(1, 200, 30_000);
    cb.report_failure("t1", 0);
    assert!(cb.is_open("t1", 100));
    // after the reset timeout one canary goes through
    assert!(!cb.is_open("t1", 250));
    // a concurrent call is refused while the canary is in flight
    assert!(cb.is_open("t1", 260));
    cb.report_success("t1");
    assert!(!cb.is_open("t1", 270));
    let status = cb.get_status();
    assert_eq!(status.len(), 1);
    assert_eq!(status[0].state, "Closed");
    assert!(!status[0].is_open);
    assert_eq!(status[0].failures, 0);
}

#[test]
fn opens_after_threshold_within_window() {
    let mut cb = CircuitBreaker::new();
    assert_eq!(DEFAULT_FAILURE_THRESHOLD, 3);
    cb.report_failure("m", 0);
    cb.report_failure("m", 1_000);
    assert!(!cb.is_open("m", 1_500));
    cb.report_failure("m", 2_000);
    assert!(cb.is_open("m", 2_001));
    assert_eq!(cb.count_open(), 1);
    assert_eq!(cb.total_models(), 1);
}

#[test]
fn failures_outside_window_start_over() {
    let mut cb = CircuitBreaker::new();
    cb.report_failure("m", 0);
    cb.report_failure("m", 1_000);
    cb.report_failure("m", 40_000);
    assert!(!cb.is_open("m", 40_001));
    assert_eq!(cb.get_status()[0].failures, 1);
}

#[test]
fn failed_canary_reopens() {
    let mut cb = CircuitBreaker::new().with_thresholds(2, 1_000, 30_000);
    cb.report_failure("m", 0);
    cb.report_failure("m", 10);
    assert!(cb.is_open("m", 500));
    assert!(!cb.is_open("m", 1_010));
    cb.report_failure("m", 1_020);
    assert!(cb.is_open("m", 1_500));
    let st = &cb.get_status()[0];
    assert_eq!(st.state, "Open");
    assert_eq!(st.failures, 2);
    assert!(!cb.is_open("m", 2_020));
}

#[test]
fn stuck_canary_is_replaced_once() {
    let mut cb = CircuitBreaker::new().with_thresholds(1, 100, 30_000);
    cb.report_failure("m", 0);
    assert!(!cb.is_open("m", 100));
    assert!(cb.is_open("m", 59_000));
    // sixty seconds after the canary, one replacement
    assert!(!cb.is_open("m", 60_100));
    assert!(cb.is_open("m", 60_200));
    assert_eq!(cb.get_status()[0].state, "HalfOpen");
}

#[test]
fn unknown_models_are_never_open() {
    let mut cb = CircuitBreaker::new();
    assert!(!cb.is_open("never-seen", 0));
    cb.report_success("never-seen");
    assert_eq!(cb.total_models(), 0);
    let _ = Phase::Closed;
}
