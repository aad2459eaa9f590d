use chat_core::DecodeError;
use chat_core::Envelope;
use chat_core::MsgTypes;
use chat_core::decode;
use chat_core::decode_message_payload;
use chat_core::encode;
use chat_core::encode_message_payload;

fn users_envelope(names: &[&str]) -> Envelope {
    Envelope {
        kind: MsgTypes::Users,
        payload_list: Some(names.iter().map(|s| s.to_string()).collect()),
        payload_text: None,
    }
}

fn text_envelope(kind: MsgTypes, text: &str) -> Envelope {
    Envelope { kind, payload_list: None, payload_text: Some(text.to_string()) }
}

#[test]
fn encode_register_exact_text() {
    let e = text_envelope(MsgTypes::Register, "alice");
    assert_eq!(
        encode(&e),
        r#"{"messageType":"register","dataArray":null,"data":"alice"}"#
    );
}

#[test]
fn encode_users_exact_text() {
    let e = users_envelope(&["alice", "bob"]);
    assert_eq!(
        encode(&e),
        r#"{"messageType":"users","dataArray":["alice","bob"],"data":null}"#
    );
}

#[test]
fn encode_message_payload_exact_text() {
    assert_eq!(
        encode_message_payload("bob", "hi"),
        r#"{"from":"bob","message":"hi"}"#
    );
}

#[test]
fn encode_escapes_quotes_backslashes_and_controls() {
    let e = text_envelope(MsgTypes::Register, "a\"b\\c\nd");
    assert_eq!(
        encode(&e),
        "{\"messageType\":\"register\",\"dataArray\":null,\"data\":\"a\\\"b\\\\c\\u000ad\"}"
    );
}

#[test]
fn round_trip_register() {
    let e = text_envelope(MsgTypes::Register, "alice");
    assert_eq!(decode(&encode(&e)), Ok(e));
}

#[test]
fn round_trip_users() {
    let e = users_envelope(&["alice", "bob", "carol"]);
    assert_eq!(decode(&encode(&e)), Ok(e));
}

#[test]
fn round_trip_users_empty_list() {
    let e = users_envelope(&[]);
    assert_eq!(decode(&encode(&e)), Ok(e));
}

#[test]
fn round_trip_message_with_nested_payload() {
    let payload = encode_message_payload("bob", "hello there");
    let e = text_envelope(MsgTypes::Message, &payload);
    assert_eq!(decode(&encode(&e)), Ok(e));
}

#[test]
fn round_trip_awkward_characters() {
    let e = text_envelope(MsgTypes::Register, "q\"uo\\te\t\r\n\u{1}\u{1f}Ünïcødé");
    assert_eq!(decode(&encode(&e)), Ok(e));
}

#[test]
fn round_trip_null_payloads() {
    let e = Envelope { kind: MsgTypes::Users, payload_list: None, payload_text: None };
    assert_eq!(decode(&encode(&e)), Ok(e));
}

#[test]
fn decode_accepts_any_field_order() {
    let got = decode(r#"{"data":"alice","messageType":"register","dataArray":null}"#).unwrap();
    assert_eq!(got, text_envelope(MsgTypes::Register, "alice"));
}

#[test]
fn decode_ignores_unknown_fields() {
    let got = decode(
        r#"{"messageType":"users","timestamp":123,"extra":{"a":[1,2,"x"]},"dataArray":["amy"],"data":null,"flag":true}"#,
    )
    .unwrap();
    assert_eq!(got, users_envelope(&["amy"]));
}

#[test]
fn decode_missing_fields_count_as_absent() {
    let got = decode(r#"{"messageType":"users"}"#).unwrap();
    assert_eq!(got.kind, MsgTypes::Users);
    assert_eq!(got.payload_list, None);
    assert_eq!(got.payload_text, None);
}

#[test]
fn decode_unescapes_short_and_unicode_escapes() {
    let got = decode(r#"{"messageType":"register","data":"a\nb\tA\/"}"#).unwrap();
    assert_eq!(got.payload_text.as_deref(), Some("a\nb\tA/"));
}

#[test]
fn decode_rejects_unknown_tag() {
    assert_eq!(
        decode(r#"{"messageType":"presence","dataArray":null,"data":null}"#),
        Err(DecodeError::Malformed)
    );
}

#[test]
fn decode_rejects_missing_tag() {
    assert_eq!(
        decode(r#"{"dataArray":null,"data":"x"}"#),
        Err(DecodeError::Malformed)
    );
}

#[test]
fn decode_rejects_non_object_and_garbage() {
    assert_eq!(decode(""), Err(DecodeError::Malformed));
    assert_eq!(decode("null"), Err(DecodeError::Malformed));
    assert_eq!(decode("[1,2]"), Err(DecodeError::Malformed));
    assert_eq!(decode("{"), Err(DecodeError::Malformed));
    assert_eq!(decode(r#"{"messageType":"users""#), Err(DecodeError::Malformed));
    assert_eq!(
        decode(r#"{"messageType":"users","dataArray":null,"data":null}trailing"#),
        Err(DecodeError::Malformed)
    );
    assert_eq!(
        decode(r#"{"messageType":"users","dataArray":[1],"data":null}"#),
        Err(DecodeError::Malformed)
    );
}

#[test]
fn decode_rejects_bad_string_escape() {
    assert_eq!(
        decode(r#"{"messageType":"register","data":"a\x"}"#),
        Err(DecodeError::Malformed)
    );
    assert_eq!(
        decode(r#"{"messageType":"register","data":"a\ud800b"}"#),
        Err(DecodeError::Malformed)
    );
}

#[test]
fn payload_round_trip() {
    let t = encode_message_payload("amy", "yo");
    let m = decode_message_payload(&t).unwrap();
    assert_eq!(m.sender, "amy");
    assert_eq!(m.body, "yo");
}

#[test]
fn payload_accepts_reordered_and_extra_fields() {
    let m = decode_message_payload(r#"{"message":"yo","seq":7,"from":"amy"}"#).unwrap();
    assert_eq!(m.sender, "amy");
    assert_eq!(m.body, "yo");
}

#[test]
fn payload_rejects_missing_or_empty_sender() {
    assert_eq!(
        decode_message_payload(r#"{"message":"yo"}"#),
        Err(DecodeError::MalformedPayload)
    );
    assert_eq!(
        decode_message_payload(r#"{"from":"","message":"yo"}"#),
        Err(DecodeError::MalformedPayload)
    );
    assert_eq!(
        decode_message_payload("not json"),
        Err(DecodeError::MalformedPayload)
    );
    assert_eq!(
        decode_message_payload(r#"{"from":null,"message":"yo"}"#),
        Err(DecodeError::MalformedPayload)
    );
}

#[test]
fn encode_output_is_valid_json_for_serde() {
    let payload = encode_message_payload("bo\"b", "a\\b\ngif");
    let e = text_envelope(MsgTypes::Message, &payload);
    let v: serde_json::Value = serde_json::from_str(&encode(&e)).unwrap();
    assert_eq!(v["messageType"], serde_json::Value::String("message".to_string()));
    assert!(v["dataArray"].is_null());
    let inner: serde_json::Value = serde_json::from_str(v["data"].as_str().unwrap()).unwrap();
    assert_eq!(inner["from"].as_str(), Some("bo\"b"));
    assert_eq!(inner["message"].as_str(), Some("a\\b\ngif"));
}

#[test]
fn decode_reads_serde_produced_text() {
    let mut obj = serde_json::Map::new();
    obj.insert(
        "messageType".to_string(),
        serde_json::Value::String("users".to_string()),
    );
    obj.insert(
        "dataArray".to_string(),
        serde_json::Value::Array(vec![
            serde_json::Value::String("ann with späces".to_string()),
            serde_json::Value::String("bob".to_string()),
        ]),
    );
    obj.insert("data".to_string(), serde_json::Value::Null);
    let text = serde_json::to_string(&serde_json::Value::Object(obj)).unwrap();
    let got = decode(&text).unwrap();
    assert_eq!(got, users_envelope(&["ann with späces", "bob"]));
}
