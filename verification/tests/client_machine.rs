use rpc_protocol::client::{AttemptOutcome, JsonRpcProviderClient, RequestStep};
use rpc_protocol::errors::{HttpRequestError, JsonRpcProviderClientError};
use rpc_protocol::retry::SimpleJsonRpcRetryPolicy;

fn success_body() -> Vec<u8> {
    br#"{"jsonrpc":"2.0","id":1,"result":"0x10"}"#.to_vec()
}

fn rpc_error_body(code: i64) -> Vec<u8> {
    format!(r#"{{"jsonrpc":"2.0","id":1,"error":{{"message":"some message","code":{}}}}}"#, code)
        .into_bytes()
}

fn test_policy(max_retries: u32) -> SimpleJsonRpcRetryPolicy {
    SimpleJsonRpcRetryPolicy {
        max_retries: Some(max_retries),
        initial_backoff_ms: 100,
        ..Default::default()
    }
}

#[test]
fn happy_path_block_number() {
    let mut client =
        JsonRpcProviderClient::new("http://localhost:8545", SimpleJsonRpcRetryPolicy::default());
    let (mut pending, body) = client.begin_request(&b"eth_blockNumber".to_vec(), None);
    assert_eq!(
        String::from_utf8(body).unwrap(),
        r#"{"jsonrpc":"2.0","id":1,"method":"eth_blockNumber"}"#
    );
    assert_eq!(client.requests_enqueued(), 1);
    match client.process_attempt(&mut pending, AttemptOutcome::Response(success_body())) {
        RequestStep::Done(Ok(result)) => assert_eq!(result, b"\"0x10\"".to_vec()),
        other => panic!("expected a successful result, got {:?}", other),
    }
    assert_eq!(client.requests_enqueued(), 0, "retry queue should be zero on successful requests");
}

#[test]
fn retries_on_http_429_three_attempts() {
    let policy = SimpleJsonRpcRetryPolicy { retryable_http_errors: vec![429], ..test_policy(2) };
    let mut client = JsonRpcProviderClient::new("http://localhost:8545", policy);
    let (mut pending, _body) = client.begin_request(&b"eth_blockNumber".to_vec(), None);

    let mut attempts = 1;
    let mut delays = Vec::new();
    loop {
        let outcome = AttemptOutcome::Transport(HttpRequestError::HttpError(429));
        match client.process_attempt(&mut pending, outcome) {
            RequestStep::Retry { delay_ms, next_body } => {
                attempts += 1;
                delays.push(delay_ms);
                assert!(String::from_utf8(next_body).unwrap().contains("eth_blockNumber"));
            }
            RequestStep::Done(Err(e)) => {
                assert!(matches!(
                    e,
                    JsonRpcProviderClientError::BackendError(HttpRequestError::HttpError(429))
                ));
                break;
            }
            RequestStep::Done(Ok(_)) => panic!("expected error"),
        }
    }
    assert_eq!(attempts, 3, "the endpoint is hit exactly 3 times");
    assert_eq!(delays, vec![100, 130]);
    assert!(delays.iter().sum::<u64>() >= 230);
    assert_eq!(
        client.requests_enqueued(),
        0,
        "retry queue should be zero when policy says no more retries"
    );
}

#[test]
fn retries_on_json_rpc_error_three_attempts() {
    let policy =
        SimpleJsonRpcRetryPolicy { retryable_json_rpc_errors: vec![-32603], ..test_policy(2) };
    let mut client = JsonRpcProviderClient::new("http://localhost:8545", policy);
    let (mut pending, _body) = client.begin_request(&b"eth_blockNumber".to_vec(), None);

    let mut attempts = 1;
    loop {
        match client.process_attempt(&mut pending, AttemptOutcome::Response(rpc_error_body(-32603)))
        {
            RequestStep::Retry { .. } => attempts += 1,
            RequestStep::Done(Err(e)) => {
                match e {
                    JsonRpcProviderClientError::JsonRpcError(j) => assert_eq!(j.code, -32603),
                    other => panic!("expected a JSON-RPC error, got {:?}", other),
                }
                break;
            }
            RequestStep::Done(Ok(_)) => panic!("expected error"),
        }
    }
    assert_eq!(attempts, 3);
    assert_eq!(client.requests_enqueued(), 0);
}

#[test]
fn does_not_retry_nonretryable_json_rpc_error() {
    let policy = SimpleJsonRpcRetryPolicy { retryable_json_rpc_errors: vec![], ..test_policy(2) };
    let mut client = JsonRpcProviderClient::new("http://localhost:8545", policy);
    let (mut pending, _body) = client.begin_request(&b"eth_blockNumber".to_vec(), None);
    match client.process_attempt(&mut pending, AttemptOutcome::Response(rpc_error_body(-32000))) {
        RequestStep::Done(Err(JsonRpcProviderClientError::JsonRpcError(_))) => {}
        other => panic!("expected a terminal JSON-RPC error, got {:?}", other),
    }
    assert_eq!(client.requests_enqueued(), 0);
}

#[test]
fn min_retries_forces_a_second_attempt() {
    let policy = SimpleJsonRpcRetryPolicy {
        min_retries: Some(1),
        retryable_json_rpc_errors: vec![],
        ..test_policy(2)
    };
    let mut client = JsonRpcProviderClient::new("http://localhost:8545", policy);
    let (mut pending, _body) = client.begin_request(&b"eth_blockNumber".to_vec(), None);

    let mut attempts = 1;
    loop {
        match client.process_attempt(&mut pending, AttemptOutcome::Response(rpc_error_body(-32000)))
        {
            RequestStep::Retry { .. } => attempts += 1,
            RequestStep::Done(Err(_)) => break,
            RequestStep::Done(Ok(_)) => panic!("expected error"),
        }
    }
    assert_eq!(attempts, 2, "the call is attempted exactly 2 times");
    assert_eq!(client.requests_enqueued(), 0);
}

#[test]
fn malformed_error_bodies_retry_through_the_reparse_path() {
    let policy =
        SimpleJsonRpcRetryPolicy { retryable_json_rpc_errors: vec![-32600], ..test_policy(2) };
    let mut client = JsonRpcProviderClient::new("http://localhost:8545", policy);
    let (mut pending, _body) = client.begin_request(&b"eth_blockNumber".to_vec(), None);

    let body = br#"{"jsonrpc":"2.0","error":{"message":"some message","code":-32600}}"#.to_vec();
    let mut attempts = 1;
    loop {
        match client.process_attempt(&mut pending, AttemptOutcome::Response(body.clone())) {
            RequestStep::Retry { .. } => attempts += 1,
            RequestStep::Done(Err(e)) => {
                assert!(matches!(e, JsonRpcProviderClientError::SerdeJson { .. }));
                break;
            }
            RequestStep::Done(Ok(_)) => panic!("expected error"),
        }
    }
    assert_eq!(attempts, 3, "retries 3 times total under max_retries=2");
    assert_eq!(client.requests_enqueued(), 0);
}

#[test]
fn zero_retry_policy_fails_at_once() {
    let mut client = JsonRpcProviderClient::new("http://localhost:8545", test_policy(0));
    let (mut pending, _body) = client.begin_request(&b"eth_blockNumber".to_vec(), None);
    match client.process_attempt(
        &mut pending,
        AttemptOutcome::Transport(HttpRequestError::HttpError(404)),
    ) {
        RequestStep::Done(Err(JsonRpcProviderClientError::BackendError(_))) => {}
        other => panic!("expected a terminal backend error, got {:?}", other),
    }
    assert_eq!(
        client.requests_enqueued(),
        0,
        "retry queue should be zero when policy says no more retries"
    );
}

#[test]
fn malformed_responses_fail_with_the_body_kept() {
    let mut client = JsonRpcProviderClient::new("http://localhost:8545", test_policy(0));
    let (mut pending, _body) = client.begin_request(&b"eth_blockNumber".to_vec(), None);
    match client.process_attempt(
        &mut pending,
        AttemptOutcome::Response(b"}malformed{".to_vec()),
    ) {
        RequestStep::Done(Err(JsonRpcProviderClientError::SerdeJson { text })) => {
            assert_eq!(text, b"}malformed{".to_vec());
        }
        other => panic!("expected a deserialization error, got {:?}", other),
    }
}

#[test]
fn ids_increase_and_are_never_reused() {
    let mut client =
        JsonRpcProviderClient::new("http://localhost:8545", SimpleJsonRpcRetryPolicy::default());
    let (_p1, body1) = client.begin_request(&b"m".to_vec(), None);
    let (_p2, body2) = client.begin_request(&b"m".to_vec(), None);
    assert_eq!(String::from_utf8(body1).unwrap(), r#"{"jsonrpc":"2.0","id":1,"method":"m"}"#);
    assert_eq!(String::from_utf8(body2).unwrap(), r#"{"jsonrpc":"2.0","id":2,"method":"m"}"#);
}

#[test]
fn a_clone_is_a_fresh_client_with_the_same_behavior() {
    let mut client =
        JsonRpcProviderClient::new("http://localhost:8545", SimpleJsonRpcRetryPolicy::default());
    let (_p, _b) = client.begin_request(&b"eth_blockNumber".to_vec(), None);
    let mut copy = client.clone();
    assert_eq!(copy.requests_enqueued(), 0);

    let (mut pending, body) = copy.begin_request(&b"eth_blockNumber".to_vec(), None);
    assert_eq!(
        String::from_utf8(body).unwrap(),
        r#"{"jsonrpc":"2.0","id":1,"method":"eth_blockNumber"}"#,
        "the clone starts numbering afresh"
    );
    match copy.process_attempt(&mut pending, AttemptOutcome::Response(success_body())) {
        RequestStep::Done(Ok(result)) => assert_eq!(result, b"\"0x10\"".to_vec()),
        other => panic!("expected the same decoded value, got {:?}", other),
    }
}
