use rpc_protocol::errors::JsonRpcError;
use rpc_protocol::json::JsonValue;
use rpc_protocol::rpc::{build_request, classify_response, extract_embedded_error, parse_request,
    ResponseKind};

#[test]
fn zero_sized_requests_omit_params() {
    let body = build_request(1, &b"eth_blockNumber".to_vec(), None);
    assert_eq!(
        String::from_utf8(body).unwrap(),
        r#"{"jsonrpc":"2.0","id":1,"method":"eth_blockNumber"}"#
    );
}

#[test]
fn requests_with_params_carry_them() {
    let params = JsonValue::Arr(vec![JsonValue::Str(b"latest".to_vec()), JsonValue::Bool(false)]);
    let body = build_request(7, &b"eth_getBlockByNumber".to_vec(), Some(&params));
    assert_eq!(
        String::from_utf8(body).unwrap(),
        r#"{"jsonrpc":"2.0","id":7,"method":"eth_getBlockByNumber","params":["latest",false]}"#
    );
}

#[test]
fn request_roundtrips_through_the_codec() {
    let params = JsonValue::Obj(vec![(b"k".to_vec(), JsonValue::Num(b"3".to_vec()))]);
    let body = build_request(123456789, &b"my_method".to_vec(), Some(&params));
    let (id, method, back) = parse_request(&body).expect("request must parse back");
    assert_eq!(id, 123456789);
    assert_eq!(method, b"my_method".to_vec());
    assert_eq!(back, Some(params));

    let body2 = build_request(2, &b"m".to_vec(), None);
    assert_eq!(parse_request(&body2), Some((2, b"m".to_vec(), None)));
}

#[test]
fn success_responses_classify() {
    let body = br#"{"jsonrpc":"2.0","id":1,"result":"0x10"}"#.to_vec();
    match classify_response(&body) {
        ResponseKind::Success { id, result } => {
            assert_eq!(id, 1);
            assert_eq!(result, b"\"0x10\"".to_vec());
        }
        other => panic!("expected success, got {:?}", other),
    }
}

#[test]
fn result_members_are_found_in_any_order() {
    let body = br#"{"result":[1,2],"id":9,"jsonrpc":"2.0"}"#.to_vec();
    match classify_response(&body) {
        ResponseKind::Success { id, result } => {
            assert_eq!(id, 9);
            assert_eq!(result, b"[1,2]".to_vec());
        }
        other => panic!("expected success, got {:?}", other),
    }
}

#[test]
fn error_responses_classify() {
    let body = br#"{"jsonrpc":"2.0","id":1,"error":{"message":"some message","code":-32603}}"#
        .to_vec();
    match classify_response(&body) {
        ResponseKind::Failure { error } => {
            assert_eq!(error.code, -32603);
            assert_eq!(error.message, b"some message".to_vec());
            assert_eq!(error.data, None);
        }
        other => panic!("expected failure, got {:?}", other),
    }
}

#[test]
fn error_data_is_kept_verbatim() {
    let body =
        br#"{"id":1,"error":{"code":3,"message":"revert","data":{"why":[true]}}}"#.to_vec();
    match classify_response(&body) {
        ResponseKind::Failure { error } => {
            assert_eq!(error.data, Some(b"{\"why\":[true]}".to_vec()));
        }
        other => panic!("expected failure, got {:?}", other),
    }
}

#[test]
fn bodies_without_id_are_invalid_but_reparse() {
    let body = br#"{"jsonrpc":"2.0","error":{"message":"x","code":-32600}}"#.to_vec();
    assert_eq!(classify_response(&body), ResponseKind::Invalid);
    assert_eq!(
        extract_embedded_error(&body),
        Some(JsonRpcError { code: -32600, message: b"x".to_vec(), data: None })
    );
}

#[test]
fn malformed_bodies_are_invalid() {
    assert_eq!(classify_response(&b"}malformed{".to_vec()), ResponseKind::Invalid);
    assert_eq!(extract_embedded_error(&b"}malformed{".to_vec()), None);
    let notification = br#"{"jsonrpc":"2.0","method":"note","params":[]}"#.to_vec();
    assert_eq!(classify_response(&notification), ResponseKind::Invalid);
}

#[test]
fn fractional_error_codes_are_rejected() {
    let body = br#"{"id":1,"error":{"code":1.5,"message":"x"}}"#.to_vec();
    assert_eq!(classify_response(&body), ResponseKind::Invalid);
}
