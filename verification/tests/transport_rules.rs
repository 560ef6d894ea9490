use rpc_protocol::errors::HttpRequestError;
use rpc_protocol::transport::{validate_query, HttpMethod, RateLimiter};

#[test]
fn posts_need_a_body_and_gets_must_not_have_one() {
    assert!(validate_query(HttpMethod::Post, true).is_ok());
    assert!(validate_query(HttpMethod::Get, false).is_ok());
    assert_eq!(
        validate_query(HttpMethod::Post, false),
        Err(HttpRequestError::UnknownError(b"missing data".to_vec()))
    );
    assert_eq!(
        validate_query(HttpMethod::Get, true),
        Err(HttpRequestError::UnknownError(b"unexpected data".to_vec()))
    );
    assert_eq!(
        validate_query(HttpMethod::Other, false),
        Err(HttpRequestError::UnknownError(b"unsupported method".to_vec()))
    );
}

#[test]
fn the_rate_limit_admits_at_most_the_bound_per_second() {
    let mut limiter = RateLimiter::new(2);
    assert!(limiter.check(0));
    assert!(limiter.check(0));
    assert!(!limiter.check(0), "the third request within the second is rejected at once");
    assert!(!limiter.check(400));
    assert!(limiter.check(900), "by 900 ms the bucket refilled 1.8 tokens");
    assert!(!limiter.check(900));
}

#[test]
fn a_quiet_second_refills_the_whole_bucket() {
    let mut limiter = RateLimiter::new(2);
    assert!(limiter.check(0));
    assert!(limiter.check(0));
    assert!(!limiter.check(0));
    assert!(limiter.check(1500));
    assert!(limiter.check(1500));
    assert!(!limiter.check(1500));
}

#[test]
fn a_zero_bound_means_unlimited() {
    let mut limiter = RateLimiter::new(0);
    for _ in 0..100 {
        assert!(limiter.check(5));
    }
}
