use agent_core::agent::{
    backoff, retry_delay, transient_retry_delay, ResolvedAttemptPolicy, RunConfig,
    MAX_RETRY_AFTER_MS,
};
use agent_core::provider::{ErrorClass, ProviderError};

fn http(retry_after_ms: Option<u64>) -> ProviderError {
    ProviderError::Http {
        status: 429,
        message: String::new(),
        retry_after_ms,
    }
}

#[test]
fn retry_delay_without_header_uses_backoff() {
    let base: u128 = 50;
    assert_eq!(retry_delay(base, &http(None)), base);
    assert_eq!(retry_delay(base, &ProviderError::Transport("x".into())), base);
}

#[test]
fn retry_delay_honors_longer_retry_after() {
    let base: u128 = 50;
    assert_eq!(retry_delay(base, &http(Some(2_000))), 2_000);
}

#[test]
fn retry_delay_keeps_longer_backoff() {
    let base: u128 = 5_000;
    assert_eq!(retry_delay(base, &http(Some(1_000))), base);
}

#[test]
fn retry_delay_caps_absurd_retry_after() {
    let base: u128 = 50;
    assert_eq!(
        retry_delay(base, &http(Some(3_600_000))),
        MAX_RETRY_AFTER_MS as u128
    );
}

#[test]
fn overloaded_retry_uses_longer_base_delay() {
    let cfg = RunConfig {
        backoff_base_ms: 10,
        ..RunConfig::default()
    };
    let policy = ResolvedAttemptPolicy::resolve(&cfg, &None);
    let err = ProviderError::Http {
        status: 529,
        message: String::new(),
        retry_after_ms: None,
    };
    let overloaded = transient_retry_delay(policy, 0, ErrorClass::Overloaded(529), &err, 0);
    let retryable = transient_retry_delay(policy, 0, ErrorClass::Retryable, &err, 0);
    assert!(overloaded > 30);
    assert!(overloaded <= 36);
    assert!(retryable > 10);
    assert!(retryable <= 12);
}

#[test]
fn retry_after_cap_is_not_extended_by_jitter() {
    let cfg = RunConfig {
        backoff_base_ms: 10,
        ..RunConfig::default()
    };
    let policy = ResolvedAttemptPolicy::resolve(&cfg, &None);
    let err = http(Some(3_600_000));
    assert_eq!(
        transient_retry_delay(policy, 0, ErrorClass::RateLimited, &err, 0),
        MAX_RETRY_AFTER_MS as u128
    );
}

#[test]
fn backoff_is_exponential_capped() {
    let cfg = RunConfig {
        backoff_base_ms: 10,
        ..RunConfig::default()
    };
    let policy = ResolvedAttemptPolicy::resolve(&cfg, &None);
    assert_eq!(backoff(policy, 0), 10);
    assert_eq!(backoff(policy, 1), 20);
    assert_eq!(backoff(policy, 2), 40);
    assert_eq!(backoff(policy, 5), 320);
    assert_eq!(backoff(policy, 50), 320);
}

#[test]
fn a_backoff_beyond_a_word_does_not_wrap() {
    let cfg = RunConfig {
        backoff_base_ms: u64::MAX,
        ..RunConfig::default()
    };
    let policy = ResolvedAttemptPolicy::resolve(&cfg, &None);
    assert!(backoff(policy, 50) >= u64::MAX as u128);
}

#[test]
fn an_attempt_policy_counts_the_first_opening() {
    let cfg = RunConfig {
        max_retries: 3,
        ..RunConfig::default()
    };
    let policy = ResolvedAttemptPolicy::resolve(&cfg, &None);
    assert!(policy.permits_after(1));
    assert!(policy.permits_after(3));
    assert!(!policy.permits_after(4));
}
