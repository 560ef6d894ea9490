use rpc_protocol::errors::{HttpRequestError, JsonRpcError, JsonRpcProviderClientError, RetryAction};
use rpc_protocol::retry::SimpleJsonRpcRetryPolicy;

fn rpc_err(code: i64, message: &str) -> JsonRpcProviderClientError {
    JsonRpcProviderClientError::JsonRpcError(JsonRpcError {
        code,
        message: message.as_bytes().to_vec(),
        data: None,
    })
}

#[test]
fn default_policy_is_valid() {
    let p = SimpleJsonRpcRetryPolicy::default();
    assert!(p.is_valid());
    assert_eq!(p.min_retries, Some(0));
    assert_eq!(p.max_retries, Some(12));
    assert_eq!(p.initial_backoff_ms, 1000);
    assert_eq!(p.backoff_coefficient_permille, 300);
    assert_eq!(p.max_backoff_ms, 30000);
    assert!(!p.backoff_on_transport_errors);
    assert_eq!(p.retryable_json_rpc_errors, vec![-32005, -32016, 429]);
    assert_eq!(p.retryable_http_errors, vec![429, 504, 503]);
    assert_eq!(p.max_retry_queue_size, 100);
}

#[test]
fn queue_bound_under_five_is_invalid() {
    let p = SimpleJsonRpcRetryPolicy { max_retry_queue_size: 4, ..Default::default() };
    assert!(!p.is_valid());
}

#[test]
fn backoff_grows_by_the_coefficient() {
    let p = SimpleJsonRpcRetryPolicy {
        initial_backoff_ms: 100,
        backoff_coefficient_permille: 300,
        max_backoff_ms: 30000,
        ..Default::default()
    };
    assert_eq!(p.next_backoff_ms(1), 100);
    assert_eq!(p.next_backoff_ms(2), 130);
    assert_eq!(p.next_backoff_ms(3), 169);
    assert_eq!(p.next_backoff_ms(4), 219);
}

#[test]
fn backoff_is_capped_by_max_backoff() {
    let p = SimpleJsonRpcRetryPolicy {
        initial_backoff_ms: 100,
        backoff_coefficient_permille: 300,
        max_backoff_ms: 150,
        ..Default::default()
    };
    assert_eq!(p.next_backoff_ms(1), 100);
    assert_eq!(p.next_backoff_ms(2), 130);
    assert_eq!(p.next_backoff_ms(3), 150);
    assert_eq!(p.next_backoff_ms(50), 150);
}

#[test]
fn zero_coefficient_keeps_delays_flat() {
    let p = SimpleJsonRpcRetryPolicy {
        initial_backoff_ms: 250,
        backoff_coefficient_permille: 0,
        max_backoff_ms: 30000,
        ..Default::default()
    };
    for k in 1..20 {
        assert_eq!(p.next_backoff_ms(k), 250);
    }
}

#[test]
fn first_failure_is_terminal_with_zero_max_retries() {
    let p = SimpleJsonRpcRetryPolicy { max_retries: Some(0), ..Default::default() };
    let err = rpc_err(-32005, "x");
    assert_eq!(p.is_retryable_error(&err, 1, 0), RetryAction::NoRetry);
}

#[test]
fn full_retry_queue_stops_new_retries() {
    let p = SimpleJsonRpcRetryPolicy { max_retry_queue_size: 5, ..Default::default() };
    let err = rpc_err(-32005, "x");
    assert!(matches!(p.is_retryable_error(&err, 1, 5), RetryAction::RetryAfter(_)));
    assert_eq!(p.is_retryable_error(&err, 1, 6), RetryAction::NoRetry);
}

#[test]
fn listed_json_rpc_codes_are_retried() {
    let p = SimpleJsonRpcRetryPolicy::default();
    assert!(matches!(
        p.is_retryable_error(&rpc_err(-32005, "x"), 1, 0),
        RetryAction::RetryAfter(1000)
    ));
    assert_eq!(p.is_retryable_error(&rpc_err(-32000, "x"), 1, 0), RetryAction::NoRetry);
}

#[test]
fn rate_limit_messages_are_retried() {
    let p = SimpleJsonRpcRetryPolicy::default();
    let e = rpc_err(-32000, "you hit the rate limit of the provider");
    assert!(matches!(p.is_retryable_error(&e, 1, 0), RetryAction::RetryAfter(_)));
    let e2 = rpc_err(-32000, "Rate Limit");
    assert_eq!(p.is_retryable_error(&e2, 1, 0), RetryAction::NoRetry);
}

#[test]
fn listed_http_statuses_are_retried() {
    let p = SimpleJsonRpcRetryPolicy::default();
    let retryable =
        JsonRpcProviderClientError::BackendError(HttpRequestError::HttpError(429));
    let terminal = JsonRpcProviderClientError::BackendError(HttpRequestError::HttpError(404));
    assert!(matches!(p.is_retryable_error(&retryable, 1, 0), RetryAction::RetryAfter(_)));
    assert_eq!(p.is_retryable_error(&terminal, 1, 0), RetryAction::NoRetry);
}

#[test]
fn transport_errors_wait_the_initial_backoff() {
    let p = SimpleJsonRpcRetryPolicy {
        initial_backoff_ms: 100,
        backoff_coefficient_permille: 300,
        ..Default::default()
    };
    let e = JsonRpcProviderClientError::BackendError(HttpRequestError::Timeout);
    assert_eq!(p.is_retryable_error(&e, 3, 0), RetryAction::RetryAfter(100));
    let growing = SimpleJsonRpcRetryPolicy { backoff_on_transport_errors: true, ..p };
    assert_eq!(growing.is_retryable_error(&e, 3, 0), RetryAction::RetryAfter(169));
}

#[test]
fn min_retries_overrides_the_error_class() {
    let p = SimpleJsonRpcRetryPolicy {
        min_retries: Some(1),
        retryable_json_rpc_errors: vec![],
        ..Default::default()
    };
    let e = rpc_err(-32000, "x");
    assert!(matches!(p.is_retryable_error(&e, 1, 0), RetryAction::RetryAfter(_)));
    assert_eq!(p.is_retryable_error(&e, 2, 0), RetryAction::NoRetry);
}

#[test]
fn malformed_error_bodies_are_reparsed() {
    let p = SimpleJsonRpcRetryPolicy {
        retryable_json_rpc_errors: vec![-32600],
        ..Default::default()
    };
    let body = br#"{"jsonrpc":"2.0","error":{"message":"some message","code":-32600}}"#;
    let e = JsonRpcProviderClientError::SerdeJson { text: body.to_vec() };
    assert!(matches!(p.is_retryable_error(&e, 1, 0), RetryAction::RetryAfter(_)));

    let other = JsonRpcProviderClientError::SerdeJson {
        text: br#"{"error":{"message":"x","code":-32000}}"#.to_vec(),
    };
    assert_eq!(p.is_retryable_error(&other, 1, 0), RetryAction::NoRetry);

    let garbage = JsonRpcProviderClientError::SerdeJson { text: b"}malformed{".to_vec() };
    assert_eq!(p.is_retryable_error(&garbage, 1, 0), RetryAction::NoRetry);
}
