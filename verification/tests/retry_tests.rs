use kubex::retry::{
    next_backoff, retry_with_outcomes, AttemptOutcome, RetryDecision, RetryLimit, RetryState,
};
use kubex::{default_retryable_error, RemoteError, RetryPolicy};

fn api_failure(code: u16) -> AttemptOutcome {
    AttemptOutcome::Failure {
        retryable: default_retryable_error(&RemoteError::Api { code }),
    }
}

fn zero_wait_policy() -> RetryPolicy {
    RetryPolicy::default()
        .with_initial_backoff(0)
        .with_max_backoff(0)
}

#[test]
fn default_retryable_classifies_api_codes() {
    assert!(default_retryable_error(&RemoteError::Api { code: 408 }));
    assert!(default_retryable_error(&RemoteError::Api { code: 429 }));
    assert!(default_retryable_error(&RemoteError::Api { code: 500 }));
    assert!(!default_retryable_error(&RemoteError::Api { code: 404 }));
}

#[test]
fn statusless_errors_are_retryable_by_default() {
    assert!(default_retryable_error(&RemoteError::Statusless));
    assert!(default_retryable_error(&RemoteError::Api { code: 599 }));
    assert!(!default_retryable_error(&RemoteError::Api { code: 600 }));
    assert!(!default_retryable_error(&RemoteError::Api { code: 407 }));
    assert!(!default_retryable_error(&RemoteError::Api { code: 200 }));
}

#[test]
fn retries_until_success() {
    let policy = zero_wait_policy().with_max_attempts(5);
    let outcomes = vec![api_failure(500), api_failure(500), AttemptOutcome::Success];
    let result = retry_with_outcomes(&policy, &outcomes)
        .expect("retry should eventually succeed");
    assert_eq!(result, (3, AttemptOutcome::Success));
}

#[test]
fn retries_indefinitely_with_unlimited_limit() {
    let policy = zero_wait_policy()
        .with_max_attempts(2)
        .with_unlimited_attempts();
    let mut outcomes = vec![api_failure(503); 6];
    outcomes.push(AttemptOutcome::Success);
    let result = retry_with_outcomes(&policy, &outcomes)
        .expect("unlimited retry should eventually succeed");
    assert_eq!(result, (7, AttemptOutcome::Success));
}

#[test]
fn stops_on_non_retryable_api_error() {
    let policy = zero_wait_policy().with_max_attempts(5);
    let outcomes = vec![api_failure(404); 5];
    let result = retry_with_outcomes(&policy, &outcomes).expect("404 should not be retried");
    assert_eq!(result, (1, api_failure(404)));
    assert_eq!(result.1, AttemptOutcome::Failure { retryable: false });
}

#[test]
fn exhausts_attempts_on_retryable_error() {
    let policy = zero_wait_policy().with_max_attempts(3);
    let outcomes = vec![api_failure(503); 5];
    let result = retry_with_outcomes(&policy, &outcomes)
        .expect("retryable error should eventually exhaust attempts");
    assert_eq!(result, (3, api_failure(503)));
    assert_eq!(result.1, AttemptOutcome::Failure { retryable: true });
}

#[test]
fn backoff_sequence_doubles_and_caps() {
    // initial=200ms, multiplier=2.0, max=5s.
    let policy = RetryPolicy::default();
    let mut wait = policy.begin().backoff_ms;
    let mut seen = Vec::new();
    for _ in 0..8 {
        seen.push(wait);
        wait = next_backoff(wait, &policy);
    }
    assert_eq!(seen, vec![200, 400, 800, 1600, 3200, 5000, 5000, 5000]);
    for pair in seen.windows(2) {
        assert!(pair[0] <= pair[1]);
        assert!(pair[1] <= policy.max_backoff_ms);
    }
}

#[test]
fn note_outcome_drives_the_loop() {
    let policy = RetryPolicy::default().with_max_attempts(2);
    let mut state: RetryState = policy.begin();
    assert_eq!(state.attempts, 0);
    assert_eq!(state.backoff_ms, 200);

    let d = kubex::retry::note_outcome(&policy, &mut state, api_failure(500));
    assert_eq!(d, RetryDecision::RetryAfter(200));
    assert_eq!(state.attempts, 1);
    assert_eq!(state.backoff_ms, 400);

    // The finite limit of two attempts is now used up.
    let d = kubex::retry::note_outcome(&policy, &mut state, api_failure(500));
    assert_eq!(d, RetryDecision::Stop);
    assert_eq!(state.attempts, 2);
}

#[test]
fn policy_builders_set_and_clamp() {
    let policy = RetryPolicy::default();
    assert_eq!(policy.max_attempts, RetryLimit::Finite(5));
    assert_eq!(policy.initial_backoff_ms, 200);
    assert_eq!(policy.max_backoff_ms, 5000);
    assert_eq!(policy.backoff_multiplier_hundredths, 200);

    let policy = policy
        .with_max_attempts(7)
        .with_initial_backoff(50)
        .with_max_backoff(900)
        .with_backoff_multiplier(150);
    assert_eq!(policy.max_attempts, RetryLimit::Finite(7));
    assert_eq!(policy.initial_backoff_ms, 50);
    assert_eq!(policy.max_backoff_ms, 900);
    assert_eq!(policy.backoff_multiplier_hundredths, 150);

    // A multiplier below 1.0 is clamped so waits never shrink.
    let policy = policy.with_backoff_multiplier(50);
    assert_eq!(policy.backoff_multiplier_hundredths, 100);

    let policy = policy.with_unlimited_attempts();
    assert_eq!(policy.max_attempts, RetryLimit::Unlimited);
}

#[test]
fn script_shorter_than_the_loop_reports_nothing() {
    let policy = zero_wait_policy().with_max_attempts(5);
    let outcomes = vec![api_failure(500), api_failure(500)];
    assert_eq!(retry_with_outcomes(&policy, &outcomes), None);
}
