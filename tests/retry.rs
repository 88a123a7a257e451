use dlm::{DownloadError, RetryAction, RetryState, MAX_ATTEMPTS, RETRY_DELAY_MS};

#[test]
fn two_failures_give_up_after_exactly_two_attempts() {
    let mut r = RetryState::new();
    assert!(r.may_attempt());
    let first = r.record(Err(DownloadError::Network("reset".to_string())));
    assert_eq!(first, RetryAction::RetryAfter(40));
    assert_eq!(RETRY_DELAY_MS, 40);
    assert!(r.may_attempt());
    let second = r.record(Err(DownloadError::Storage("disk full".to_string())));
    assert_eq!(
        second,
        RetryAction::GiveUp(DownloadError::Storage("disk full".to_string()))
    );
    assert_eq!(r.attempts(), 2);
    assert_eq!(MAX_ATTEMPTS, 2);
    assert!(!r.may_attempt());
}

#[test]
fn success_ends_the_transfer() {
    let mut r = RetryState::new();
    assert_eq!(r.record(Ok(())), RetryAction::Done);
    assert_eq!(r.attempts(), 1);
}

#[test]
fn success_after_one_failure() {
    let mut r = RetryState::new();
    assert_eq!(
        r.record(Err(DownloadError::Network("timeout".to_string()))),
        RetryAction::RetryAfter(RETRY_DELAY_MS)
    );
    assert_eq!(r.record(Ok(())), RetryAction::Done);
    assert_eq!(r.attempts(), 2);
}
