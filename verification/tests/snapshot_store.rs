use rpc_protocol::errors::HttpRequestError;
use rpc_protocol::snapshot::{SnapshotLookup, SnapshotRequestor};

fn recorded_store() -> SnapshotRequestor {
    let mut s = SnapshotRequestor::new("snapshot.yaml");
    for (req, resp) in
        [(&b"req-a"[..], &b"resp-a"[..]), (b"req-b", b"resp-b"), (b"req-c", b"resp-c")]
    {
        match s.lookup(&req.to_vec()) {
            SnapshotLookup::MissFetch => {
                let (out, inserted) = s
                    .record_response(&req.to_vec(), resp.to_vec())
                    .expect("a UTF-8 response is recorded");
                assert!(inserted);
                assert_eq!(out, resp.to_vec());
            }
            other => panic!("expected a fetch decision, got {:?}", other),
        }
    }
    s
}

#[test]
fn the_file_format_is_a_yaml_sequence() {
    let mut s = SnapshotRequestor::new("snapshot.yaml");
    let _ = s.record_response(&b"a".to_vec(), b"b".to_vec()).expect("recorded");
    let bytes = s.save().expect("saving is on");
    assert_eq!(
        String::from_utf8(bytes).unwrap(),
        "- id: 1\n  request: \"a\"\n  response: \"b\"\n"
    );
}

#[test]
fn saved_files_parse_as_yaml_for_serde() {
    let s = recorded_store();
    let bytes = s.save().expect("saving is on");
    let value: serde_yaml::Value =
        serde_yaml::from_slice(&bytes).expect("serde_yaml must accept the rendering");
    let seq = value.as_sequence().expect("a top-level sequence");
    assert_eq!(seq.len(), 3);
    assert_eq!(seq[0].get("id").and_then(|v| v.as_u64()), Some(1));
    assert_eq!(seq[0].get("request").and_then(|v| v.as_str()), Some("req-a"));
    assert_eq!(seq[2].get("response").and_then(|v| v.as_str()), Some("resp-c"));
}

#[test]
fn save_then_load_replays_every_entry() {
    let s = recorded_store();
    let bytes = s.save().expect("saving is on");

    let mut replay = SnapshotRequestor::new("snapshot.yaml");
    replay.try_load(&bytes, true).expect("the saved file must load");
    assert_eq!(replay.entries, s.entries, "the cache is equal in keys and values");
    assert_eq!(replay.next_id, s.next_id);
    assert!(replay.fail_on_miss);

    for (req, resp) in
        [(&b"req-a"[..], &b"resp-a"[..]), (b"req-b", b"resp-b"), (b"req-c", b"resp-c")]
    {
        match replay.lookup(&req.to_vec()) {
            SnapshotLookup::Hit { response } => assert_eq!(response, resp.to_vec()),
            other => panic!("expected a replay hit, got {:?}", other),
        }
    }
    assert_eq!(
        replay.lookup(&b"req-unknown".to_vec()),
        SnapshotLookup::MissFail,
        "the inner transport is never asked once misses fail"
    );
}

#[test]
fn load_save_load_is_a_fixed_point() {
    let file = b"- id: 3\n  request: \"zeta\"\n  response: \"r3\"\n- id: 1\n  request: \"alpha\"\n  response: \"r1\"\n- id: 2\n  request: \"beta\"\n  response: \"r2\"\n".to_vec();
    let mut first = SnapshotRequestor::new("snapshot.yaml");
    first.try_load(&file, false).expect("the file must load");
    assert_eq!(first.entries.len(), 3);
    assert_eq!(first.entries[0].id, 1);
    assert_eq!(first.entries[2].id, 3);
    assert_eq!(first.next_id, 4);

    let saved = first.save().expect("saving is on");
    let mut second = SnapshotRequestor::new("snapshot.yaml");
    second.try_load(&saved, false).expect("the saved file must load");
    assert_eq!(second.entries, first.entries);
    assert_eq!(second.save().expect("saving is on"), saved);
}

#[test]
fn later_entries_win_duplicate_keys() {
    let file = b"- id: 1\n  request: \"k\"\n  response: \"old\"\n- id: 2\n  request: \"k\"\n  response: \"new\"\n".to_vec();
    let mut s = SnapshotRequestor::new("snapshot.yaml");
    s.try_load(&file, false).expect("the file must load");
    assert_eq!(s.entries.len(), 1);
    match s.lookup(&b"k".to_vec()) {
        SnapshotLookup::Hit { response } => assert_eq!(response, b"new".to_vec()),
        other => panic!("expected a hit, got {:?}", other),
    }
}

#[test]
fn empty_loads_do_not_adopt_fail_on_miss() {
    let mut s = SnapshotRequestor::new("snapshot.yaml");
    s.try_load(&Vec::new(), true).expect("an empty file loads zero entries");
    assert!(!s.fail_on_miss, "fail_on_miss is adopted only when entries were loaded");
    assert_eq!(s.lookup(&b"x".to_vec()), SnapshotLookup::MissFetch);
}

#[test]
fn malformed_files_leave_the_store_untouched() {
    let mut s = recorded_store();
    let before = s.entries.clone();
    assert!(s.try_load(&b"- id: x\n".to_vec(), true).is_err());
    assert_eq!(s.entries, before);
    assert!(!s.fail_on_miss);
}

#[test]
fn ignore_snapshot_disables_loads_and_saves() {
    let s = recorded_store().with_ignore_snapshot(true);
    assert!(s.save().is_none());
    let mut s = s;
    s.try_load(&b"garbage".to_vec(), true).expect("a no-op load succeeds");
    assert_eq!(s.entries.len(), 3, "entries stay as they were");
}

#[test]
fn clear_drops_entries_and_resets_the_counter() {
    let mut s = recorded_store();
    s.clear();
    assert!(s.entries.is_empty());
    assert_eq!(s.next_id, 1);
    assert_eq!(s.snapshot_path(), "snapshot.yaml");
}

#[test]
fn hits_do_not_call_record_again() {
    let mut s = SnapshotRequestor::new("snapshot.yaml");
    let _ = s.record_response(&b"k".to_vec(), b"first".to_vec()).expect("recorded");
    let (out, inserted) =
        s.record_response(&b"k".to_vec(), b"second".to_vec()).expect("hit wins");
    assert!(!inserted, "a recorded key is never fetched twice");
    assert_eq!(out, b"first".to_vec());
    assert_eq!(s.entries.len(), 1);
}

#[test]
fn non_utf8_responses_are_rejected_and_not_cached() {
    let mut s = SnapshotRequestor::new("snapshot.yaml");
    match s.record_response(&b"k".to_vec(), vec![0xff]) {
        Err(HttpRequestError::UnknownError(msg)) => {
            assert_eq!(msg, b"unparseable data".to_vec());
        }
        other => panic!("expected an unknown-error rejection, got {:?}", other),
    }
    assert!(s.entries.is_empty(), "nothing is cached");
    assert_eq!(s.next_id, 1);
    // A lone continuation byte and a truncated sequence fail too; a real
    // multi-byte sequence is fine.
    assert!(s.record_response(&b"k2".to_vec(), vec![0x80]).is_err());
    assert!(s.record_response(&b"k3".to_vec(), vec![0xc3]).is_err());
    assert!(s.record_response(&b"k4".to_vec(), vec![0xc3, 0xa9]).is_ok());
}

#[test]
fn awkward_text_survives_the_file_roundtrip() {
    let mut s = SnapshotRequestor::new("snapshot.yaml");
    let request = b"quote \" backslash \\ newline \n tab \t end".to_vec();
    let mut response = vec![0u8, 1, 2, 31, 32, 127];
    response.extend_from_slice("éé".as_bytes());
    let _ = s.record_response(&request, response.clone()).expect("UTF-8 is recorded");
    let bytes = s.save().expect("saving is on");
    let mut back = SnapshotRequestor::new("snapshot.yaml");
    back.try_load(&bytes, true).expect("the saved file must load");
    match back.lookup(&request) {
        SnapshotLookup::Hit { response: r } => assert_eq!(r, response),
        other => panic!("expected a hit, got {:?}", other),
    }
}

#[test]
fn single_quoted_and_plain_scalars_load() {
    let file = b"- id: 1\n  request: '{\"jsonrpc\": \"2.0\", ''q'': 1}'\n  response: 0x10\n".to_vec();
    let mut s = SnapshotRequestor::new("snapshot.yaml");
    s.try_load(&file, true).expect("the file must load");
    assert_eq!(s.entries.len(), 1);
    assert_eq!(s.entries[0].request, b"{\"jsonrpc\": \"2.0\", 'q': 1}".to_vec());
    assert_eq!(s.entries[0].response, b"0x10".to_vec());
}

#[test]
fn files_written_by_a_yaml_emitter_load() {
    let mut entry = serde_yaml::Mapping::new();
    entry.insert(
        serde_yaml::Value::String("id".to_string()),
        serde_yaml::Value::Number(1.into()),
    );
    entry.insert(
        serde_yaml::Value::String("request".to_string()),
        serde_yaml::Value::String(r#"{"jsonrpc":"2.0","id":1,"method":"eth_blockNumber"}"#.to_string()),
    );
    entry.insert(
        serde_yaml::Value::String("response".to_string()),
        serde_yaml::Value::String(r#"{"jsonrpc":"2.0","id":1,"result":"0x10"}"#.to_string()),
    );
    let doc = serde_yaml::Value::Sequence(vec![serde_yaml::Value::Mapping(entry)]);
    let text = serde_yaml::to_string(&doc).expect("the emitter must serialize");
    let mut s = SnapshotRequestor::new("snapshot.yaml");
    s.try_load(&text.into_bytes(), true).expect("an emitter-written file must load");
    assert_eq!(s.entries.len(), 1);
    assert_eq!(
        s.entries[0].request,
        br#"{"jsonrpc":"2.0","id":1,"method":"eth_blockNumber"}"#.to_vec()
    );
    assert_eq!(
        s.entries[0].response,
        br#"{"jsonrpc":"2.0","id":1,"result":"0x10"}"#.to_vec()
    );
}

#[test]
fn duplicate_id_files_still_reach_a_fixed_point() {
    let file = b"- id: 1\n  request: \"b\"\n  response: \"rb\"\n- id: 1\n  request: \"a\"\n  response: \"ra\"\n".to_vec();
    let mut first = SnapshotRequestor::new("snapshot.yaml");
    first.try_load(&file, false).expect("the file must load");
    assert_eq!(first.entries.len(), 2);
    let saved = first.save().expect("saving is on");
    let mut second = SnapshotRequestor::new("snapshot.yaml");
    second.try_load(&saved, false).expect("the saved file must load");
    assert_eq!(second.entries, first.entries);
    assert_eq!(second.save().expect("saving is on"), saved);
}

#[test]
fn aggressive_save_is_a_flag_for_the_caller() {
    let s = SnapshotRequestor::new("snapshot.yaml").with_aggresive_save();
    assert!(s.aggressive_save);
}
