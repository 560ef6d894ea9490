use rpc_protocol::json::{parse_json, to_bytes, JsonValue};

fn roundtrip(v: &JsonValue) -> JsonValue {
    let bytes = to_bytes(v);
    parse_json(&bytes).expect("serialized value must parse back")
}

#[test]
fn literals_parse() {
    assert_eq!(parse_json(&b"null".to_vec()), Some(JsonValue::Null));
    assert_eq!(parse_json(&b"true".to_vec()), Some(JsonValue::Bool(true)));
    assert_eq!(parse_json(&b"false".to_vec()), Some(JsonValue::Bool(false)));
    assert_eq!(parse_json(&b" \t\r\n null ".to_vec()), Some(JsonValue::Null));
}

#[test]
fn numbers_keep_their_raw_token() {
    assert_eq!(parse_json(&b"42".to_vec()), Some(JsonValue::Num(b"42".to_vec())));
    assert_eq!(parse_json(&b"-7".to_vec()), Some(JsonValue::Num(b"-7".to_vec())));
    assert_eq!(parse_json(&b"1.5e3".to_vec()), Some(JsonValue::Num(b"1.5e3".to_vec())));
}

#[test]
fn strings_unescape() {
    assert_eq!(parse_json(&b"\"abc\"".to_vec()), Some(JsonValue::Str(b"abc".to_vec())));
    assert_eq!(
        parse_json(&br#""a\"b\\c\n""#.to_vec()),
        Some(JsonValue::Str(b"a\"b\\c\n".to_vec()))
    );
    assert_eq!(parse_json(&br#""A""#.to_vec()), Some(JsonValue::Str(b"A".to_vec())));
    assert_eq!(
        parse_json(&vec![0x22, 0xc3, 0xa9, 0x22]),
        Some(JsonValue::Str(vec![0xc3, 0xa9])),
        "raw multi-byte text passes through untouched"
    );
    let escaped_high = vec![0x22, 0x5c, 0x75, 0x30, 0x30, 0x65, 0x39, 0x22];
    assert_eq!(parse_json(&escaped_high), None, "escapes above 0x7f are rejected");
}

#[test]
fn arrays_and_objects_parse() {
    let v = parse_json(&b"[1, 2, []]".to_vec()).expect("array must parse");
    match v {
        JsonValue::Arr(items) => {
            assert_eq!(items.len(), 3);
            assert_eq!(items[0], JsonValue::Num(b"1".to_vec()));
            assert_eq!(items[2], JsonValue::Arr(vec![]));
        }
        other => panic!("expected an array, got {:?}", other),
    }
    let o = parse_json(&br#"{ "a" : 1 , "b" : { } }"#.to_vec()).expect("object must parse");
    match o {
        JsonValue::Obj(members) => {
            assert_eq!(members.len(), 2);
            assert_eq!(members[0].0, b"a".to_vec());
            assert_eq!(members[1].1, JsonValue::Obj(vec![]));
        }
        other => panic!("expected an object, got {:?}", other),
    }
}

#[test]
fn malformed_documents_are_rejected() {
    assert_eq!(parse_json(&b"}malformed{".to_vec()), None);
    assert_eq!(parse_json(&b"".to_vec()), None);
    assert_eq!(parse_json(&b"[1,".to_vec()), None);
    assert_eq!(parse_json(&b"{\"a\"}".to_vec()), None);
    assert_eq!(parse_json(&b"null null".to_vec()), None);
    assert_eq!(parse_json(&b"[1,]".to_vec()), None);
}

#[test]
fn serializer_inverts_parser_on_samples() {
    let v = JsonValue::Obj(vec![
        (b"id".to_vec(), JsonValue::Num(b"1".to_vec())),
        (b"quote\"".to_vec(), JsonValue::Str(b"line\nbreak \\ done".to_vec())),
        (
            b"list".to_vec(),
            JsonValue::Arr(vec![
                JsonValue::Null,
                JsonValue::Bool(false),
                JsonValue::Str(vec![]),
                JsonValue::Obj(vec![]),
            ]),
        ),
    ]);
    assert_eq!(roundtrip(&v), v);
}

#[test]
fn serializer_output_is_json_for_serde() {
    let v = JsonValue::Obj(vec![
        (b"a".to_vec(), JsonValue::Num(b"-12".to_vec())),
        (b"b".to_vec(), JsonValue::Str(b"x\ty".to_vec())),
        (b"c".to_vec(), JsonValue::Arr(vec![JsonValue::Bool(true)])),
    ]);
    let bytes = to_bytes(&v);
    let parsed: serde_json::Value =
        serde_json::from_slice(&bytes).expect("serde_json must accept the rendering");
    assert_eq!(parsed.get("a").and_then(|x| x.as_i64()), Some(-12));
    assert_eq!(parsed.get("b").and_then(|x| x.as_str()), Some("x\ty"));
}

#[test]
fn parser_accepts_serde_renderings() {
    let text = serde_json::to_string(&serde_json::Value::Array(vec![
        serde_json::Value::String("hello world".to_string()),
        serde_json::Value::Bool(true),
    ]))
    .expect("serde_json must serialize");
    let v = parse_json(&text.into_bytes()).expect("our parser must accept serde's rendering");
    assert_eq!(
        v,
        JsonValue::Arr(vec![
            JsonValue::Str(b"hello world".to_vec()),
            JsonValue::Bool(true)
        ])
    );
}
