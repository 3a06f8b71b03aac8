use translation_fiesta_rust::error::TranslationError;
use translation_fiesta_rust::retry::{
    backoff_delay_ms, RetryDecision, RetryPolicy, MAX_DELAY_MS, MAX_JITTER_MS, MIN_JITTER_MS,
};

#[test]
fn backoff_doubles_the_base_and_adds_the_jitter() {
    assert_eq!(backoff_delay_ms(300, 1, 50), 350);
    assert_eq!(backoff_delay_ms(300, 2, 100), 700);
    assert_eq!(backoff_delay_ms(300, 3, 220), 1_420);
    assert_eq!(backoff_delay_ms(300, 4, 0), 2_400);
    assert_eq!(backoff_delay_ms(50, 1, 50), 100);
}

#[test]
fn backoff_is_capped() {
    assert_eq!(backoff_delay_ms(300, 7, 50), 19_250);
    assert_eq!(backoff_delay_ms(300, 8, 50), 30_000);
    assert_eq!(backoff_delay_ms(300, 64, 50), 30_000);
    assert_eq!(backoff_delay_ms(300, usize::MAX, 50), 30_000);
    assert_eq!(backoff_delay_ms(u64::MAX, 1, u64::MAX), 30_000);
    assert_eq!(backoff_delay_ms(29_950, 1, 50), 30_000);
    assert_eq!(backoff_delay_ms(29_949, 1, 50), 29_999);
}

#[test]
fn backoff_counts_attempt_zero_as_the_first() {
    assert_eq!(backoff_delay_ms(300, 0, 50), 350);
    assert_eq!(backoff_delay_ms(0, 9, 7), 7);
}

#[test]
fn base_terms_never_shrink_and_delays_stay_under_the_cap() {
    let mut previous_base = 0;
    for attempt in 1..=20 {
        let base = backoff_delay_ms(300, attempt, 0);
        let delay = backoff_delay_ms(300, attempt, MAX_JITTER_MS);
        assert!(base >= previous_base);
        assert!(delay >= previous_base);
        assert!(delay <= MAX_DELAY_MS);
        previous_base = base;
    }
}

#[test]
fn a_policy_raises_limits_that_are_too_low() {
    let policy = RetryPolicy::new(0, 10);
    assert_eq!(policy.max_retries(), 1);
    assert_eq!(policy.base_delay_ms(), 50);
    let policy = RetryPolicy::new(7, 1_000);
    assert_eq!(policy.max_retries(), 7);
    assert_eq!(policy.base_delay_ms(), 1_000);
    let policy = RetryPolicy::default();
    assert_eq!(policy.max_retries(), 4);
    assert_eq!(policy.base_delay_ms(), 300);
}

#[test]
fn drawn_delays_lie_between_the_least_and_the_greatest_jitter() {
    let policy = RetryPolicy::default();
    for _ in 0..200 {
        let delay = policy.retry_delay(1);
        assert!(delay >= 300 + MIN_JITTER_MS);
        assert!(delay <= 300 + MAX_JITTER_MS);
    }
    for _ in 0..20 {
        assert_eq!(policy.retry_delay(30), MAX_DELAY_MS);
    }
}

#[test]
fn transient_failures_are_retried_while_attempts_remain() {
    let policy = RetryPolicy::new(3, 100);
    assert_eq!(
        policy.decide_with_jitter(1, Err(TranslationError::RateLimited), 60),
        RetryDecision::RetryAfter { delay_ms: 160 }
    );
    assert_eq!(
        policy.decide_with_jitter(2, Err(TranslationError::Network("down".to_string())), 60),
        RetryDecision::RetryAfter { delay_ms: 260 }
    );
    assert_eq!(
        policy.decide_with_jitter(3, Err(TranslationError::RateLimited), 60),
        RetryDecision::GiveUp(TranslationError::RateLimited)
    );
    assert_eq!(
        policy.decide_with_jitter(3, Err(TranslationError::Network("down".to_string())), 60),
        RetryDecision::GiveUp(TranslationError::Network("down".to_string()))
    );
}

#[test]
fn permanent_failures_are_never_retried() {
    let policy = RetryPolicy::new(5, 100);
    for attempt in 1..=5 {
        assert_eq!(
            policy.decide_with_jitter(attempt, Err(TranslationError::Blocked), 60),
            RetryDecision::GiveUp(TranslationError::Blocked)
        );
        assert_eq!(
            policy.decide_with_jitter(
                attempt,
                Err(TranslationError::InvalidResponse("HTTP 500".to_string())),
                60
            ),
            RetryDecision::GiveUp(TranslationError::InvalidResponse("HTTP 500".to_string()))
        );
        assert_eq!(
            policy.decide_with_jitter(attempt, Err(TranslationError::Cancelled), 60),
            RetryDecision::GiveUp(TranslationError::Cancelled)
        );
        assert_eq!(
            policy.decide_with_jitter(
                attempt,
                Err(TranslationError::InvalidInput("x".to_string())),
                60
            ),
            RetryDecision::GiveUp(TranslationError::InvalidInput("x".to_string()))
        );
    }
}

#[test]
fn a_success_is_delivered() {
    let policy = RetryPolicy::default();
    assert_eq!(
        policy.decide_with_jitter(1, Ok("hallo".to_string()), 60),
        RetryDecision::Deliver("hallo".to_string())
    );
    assert_eq!(
        policy.decide(4, Ok("hallo".to_string())),
        RetryDecision::Deliver("hallo".to_string())
    );
}

#[test]
fn decide_draws_a_jitter_in_range() {
    let policy = RetryPolicy::new(2, 1_000);
    for _ in 0..50 {
        match policy.decide(1, Err(TranslationError::RateLimited)) {
            RetryDecision::RetryAfter { delay_ms } => {
                assert!(delay_ms >= 1_000 + MIN_JITTER_MS);
                assert!(delay_ms <= 1_000 + MAX_JITTER_MS);
            }
            other => panic!("unexpected decision {:?}", other),
        }
    }
}

#[test]
fn failures_say_what_to_show() {
    assert_eq!(TranslationError::Cancelled.message(), "cancelled");
    assert_eq!(TranslationError::RateLimited.message(), "provider rate limited");
    assert_eq!(
        TranslationError::Blocked.message(),
        "provider blocked or captcha detected"
    );
    assert_eq!(TranslationError::InvalidResponse("a".to_string()).message(), "a");
    assert_eq!(TranslationError::Network("b".to_string()).message(), "b");
    assert_eq!(TranslationError::InvalidInput("c".to_string()).message(), "c");
    assert!(TranslationError::RateLimited.is_transient());
    assert!(TranslationError::Network(String::new()).is_transient());
    assert!(!TranslationError::Blocked.is_transient());
    assert!(!TranslationError::InvalidResponse(String::new()).is_transient());
    assert!(!TranslationError::InvalidInput(String::new()).is_transient());
    assert!(!TranslationError::Cancelled.is_transient());
}
