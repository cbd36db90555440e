use soziopolis_lingq_tool::fetch::{after_attempt, is_retryable_status, AttemptOutcome, FetchStep};

#[test]
fn a_success_ends_the_fetch() {
    assert_eq!(after_attempt(1, AttemptOutcome::Succeeded), FetchStep::Done);
}

#[test]
fn retries_wait_longer_each_time_and_stop_after_three() {
    assert_eq!(after_attempt(1, AttemptOutcome::Failed), FetchStep::RetryAfter(450));
    assert_eq!(after_attempt(2, AttemptOutcome::Failed), FetchStep::RetryAfter(900));
    assert_eq!(after_attempt(3, AttemptOutcome::Failed), FetchStep::GiveUp);
    assert_eq!(after_attempt(2, AttemptOutcome::Refused { retryable: true }), FetchStep::RetryAfter(900));
    assert_eq!(after_attempt(3, AttemptOutcome::Refused { retryable: true }), FetchStep::GiveUp);
}

#[test]
fn statuses_not_worth_retrying_give_up_at_once() {
    assert_eq!(after_attempt(1, AttemptOutcome::Refused { retryable: false }), FetchStep::GiveUp);
}

#[test]
fn server_errors_and_rate_limits_are_retried() {
    assert!(is_retryable_status(429));
    assert!(is_retryable_status(500));
    assert!(is_retryable_status(503));
    assert!(!is_retryable_status(404));
    assert!(!is_retryable_status(301));
    assert!(!is_retryable_status(600));
}
