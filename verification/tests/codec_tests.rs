use chat_core::codec::{decode, decode_entry, encode, MsgTypes, WebSocketMessage};

fn users_env(names: &[&str]) -> WebSocketMessage {
    WebSocketMessage {
        message_type: MsgTypes::Users,
        data_array: Some(names.iter().map(|n| n.to_string()).collect()),
        data: None,
    }
}

fn scalar_env(kind: MsgTypes, data: &str) -> WebSocketMessage {
    WebSocketMessage { message_type: kind, data_array: None, data: Some(data.to_string()) }
}

fn assert_same(a: &WebSocketMessage, b: &WebSocketMessage) {
    assert_eq!(a.message_type, b.message_type);
    assert_eq!(a.data_array, b.data_array);
    assert_eq!(a.data, b.data);
}

#[test]
fn encode_register_exact() {
    let frame = encode(&scalar_env(MsgTypes::Register, "alice"));
    assert_eq!(frame, "{\"messageType\":\"register\",\"dataArray\":null,\"data\":\"alice\"}");
}

#[test]
fn encode_message_exact() {
    let frame = encode(&scalar_env(MsgTypes::Message, "yo"));
    assert_eq!(frame, "{\"messageType\":\"message\",\"dataArray\":null,\"data\":\"yo\"}");
}

#[test]
fn encode_users_exact() {
    let frame = encode(&users_env(&["alice", "bob"]));
    assert_eq!(frame, "{\"messageType\":\"users\",\"dataArray\":[\"alice\",\"bob\"],\"data\":null}");
}

#[test]
fn encode_empty_array() {
    let frame = encode(&users_env(&[]));
    assert_eq!(frame, "{\"messageType\":\"users\",\"dataArray\":[],\"data\":null}");
}

#[test]
fn encode_escapes_quotes_and_backslashes() {
    let frame = encode(&scalar_env(MsgTypes::Message, "say \"hi\" \\ there"));
    assert_eq!(
        frame,
        "{\"messageType\":\"message\",\"dataArray\":null,\"data\":\"say \\\"hi\\\" \\\\ there\"}"
    );
}

#[test]
fn decode_users_frame() {
    let env = decode("{\"messageType\":\"users\",\"dataArray\":[\"alice\",\"bob\"],\"data\":null}")
        .unwrap_or_else(|_| panic!("expected a well-formed frame"));
    assert_eq!(env.message_type, MsgTypes::Users);
    assert_eq!(env.data_array, Some(vec!["alice".to_string(), "bob".to_string()]));
    assert_eq!(env.data, None);
}

#[test]
fn decode_message_frame_with_inner_entry() {
    let env = decode(
        "{\"messageType\":\"message\",\"dataArray\":null,\"data\":\"{\\\"from\\\":\\\"alice\\\",\\\"message\\\":\\\"hi\\\"}\"}",
    )
    .unwrap_or_else(|_| panic!("expected a well-formed frame"));
    assert_eq!(env.message_type, MsgTypes::Message);
    assert_eq!(env.data_array, None);
    let inner = env.data.unwrap();
    assert_eq!(inner, "{\"from\":\"alice\",\"message\":\"hi\"}");
    let entry = decode_entry(&inner).unwrap_or_else(|_| panic!("expected a well-formed entry"));
    assert_eq!(entry.from, "alice");
    assert_eq!(entry.message, "hi");
}

#[test]
fn decode_rejects_unknown_kind() {
    let r = decode("{\"messageType\":\"presence\",\"dataArray\":null,\"data\":null}");
    assert!(r.is_err());
}

#[test]
fn decode_rejects_malformed() {
    assert!(decode("").is_err());
    assert!(decode("not json at all").is_err());
    assert!(decode("{\"messageType\":\"users\",\"dataArray\":[\"alice\"").is_err());
    assert!(decode("{\"messageType\":\"users\",\"dataArray\":[],\"data\":null}x").is_err());
    assert!(decode("{\"messageType\": \"users\",\"dataArray\":[],\"data\":null}").is_err());
}

#[test]
fn decode_rejects_bad_escape() {
    assert!(decode("{\"messageType\":\"message\",\"dataArray\":null,\"data\":\"a\\qb\"}").is_err());
}

#[test]
fn round_trip_envelopes() {
    let cases = vec![
        users_env(&["alice", "bob"]),
        users_env(&[]),
        users_env(&[""]),
        scalar_env(MsgTypes::Register, "alice"),
        scalar_env(MsgTypes::Message, "yo"),
        scalar_env(MsgTypes::Message, ""),
        scalar_env(MsgTypes::Message, "{\"from\":\"a\",\"message\":\"b\"}"),
        WebSocketMessage { message_type: MsgTypes::Users, data_array: None, data: None },
    ];
    for e in cases.iter() {
        let d = decode(&encode(e)).unwrap_or_else(|_| panic!("round trip must decode"));
        assert_same(&d, e);
    }
}

#[test]
fn round_trip_escaped_payloads() {
    let e = scalar_env(MsgTypes::Message, "a\"b\\c\"\"d\\\\e");
    let d = decode(&encode(&e)).unwrap_or_else(|_| panic!("round trip must decode"));
    assert_same(&d, &e);
    let e2 = users_env(&["quo\"te", "back\\slash", "plain"]);
    let d2 = decode(&encode(&e2)).unwrap_or_else(|_| panic!("round trip must decode"));
    assert_same(&d2, &e2);
}

#[test]
fn decode_entry_exact() {
    let entry = decode_entry("{\"from\":\"bob\",\"message\":\"see you \\\"soon\\\"\"}")
        .unwrap_or_else(|_| panic!("expected a well-formed entry"));
    assert_eq!(entry.from, "bob");
    assert_eq!(entry.message, "see you \"soon\"");
}

#[test]
fn decode_entry_rejects_malformed() {
    assert!(decode_entry("").is_err());
    assert!(decode_entry("{\"from\":\"bob\"}").is_err());
    assert!(decode_entry("{\"from\":\"bob\",\"message\":\"hi\"}x").is_err());
    assert!(decode_entry("{\"from\": \"bob\",\"message\":\"hi\"}").is_err());
}
