use marketcaps::limiter::PermitPool;
use marketcaps::retry::{
    body_signals_rate_limit, fresh_state, on_body_received, rate_limit_marker, BodyDecision,
    FetchError, RetryPolicy,
};

#[test]
fn marker_detection_inspects_body_text() {
    let marker = rate_limit_marker();
    assert_eq!(marker, "Limit Reach");
    assert!(body_signals_rate_limit(
        "{\"Error Message\": \"Limit Reach. Please upgrade your plan.\"}",
        marker
    ));
    assert!(!body_signals_rate_limit("[{\"symbol\": \"AAPL\"}]", marker));
    assert!(!body_signals_rate_limit("Limit Reac", marker));
    assert!(body_signals_rate_limit("Limit Reach", marker));
    assert!(body_signals_rate_limit("anything", ""));
    assert!(!body_signals_rate_limit("", "x"));
}

#[test]
fn retry_bound_exactly_max_attempts_with_doubling_backoff() {
    let policy = RetryPolicy::provider_default();
    assert_eq!(policy.max_attempts, 3);
    assert_eq!(policy.initial_delay_ms, 5000);
    let marker = rate_limit_marker();
    let throttled = "Limit Reach";
    let mut state = fresh_state(&policy);

    // Attempt 1: retried after the initial backoff.
    let d1 = on_body_received(&policy, &mut state, throttled, marker);
    assert!(matches!(d1, BodyDecision::RetryAfter { delay_ms: 5000 }));
    assert_eq!(state.attempts_made, 1);
    assert_eq!(state.delay_ms, 10_000);

    // Attempt 2: backoff strictly doubled.
    let d2 = on_body_received(&policy, &mut state, throttled, marker);
    assert!(matches!(d2, BodyDecision::RetryAfter { delay_ms: 10_000 }));
    assert_eq!(state.attempts_made, 2);
    assert_eq!(state.delay_ms, 20_000);

    // Attempt 3 is the last one: the request fails.
    let d3 = on_body_received(&policy, &mut state, throttled, marker);
    assert!(matches!(
        d3,
        BodyDecision::Fail { error: FetchError::RateLimitExhausted { attempts: 3 } }
    ));
}

#[test]
fn clean_body_goes_to_the_parser_untouched() {
    let policy = RetryPolicy::new(5, 1000);
    let mut state = fresh_state(&policy);
    let d = on_body_received(&policy, &mut state, "[{\"ok\":true}]", rate_limit_marker());
    assert!(matches!(d, BodyDecision::Deserialize));
    assert_eq!(state.attempts_made, 0);
    assert_eq!(state.delay_ms, 1000);
}

#[test]
fn permit_pool_never_exceeds_capacity() {
    let mut pool = PermitPool::new(2);
    assert_eq!(pool.capacity(), 2);
    assert_eq!(pool.permits_out(), 0);
    assert!(pool.try_acquire());
    assert!(pool.try_acquire());
    assert!(!pool.try_acquire());
    assert_eq!(pool.permits_out(), 2);
    assert!(pool.release());
    assert_eq!(pool.permits_out(), 1);
    assert!(pool.try_acquire());
    assert!(!pool.try_acquire());
    assert!(pool.release());
    assert!(pool.release());
    assert!(!pool.release());
    assert_eq!(pool.permits_out(), 0);
}
