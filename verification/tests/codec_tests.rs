use dtchat::encoding::DeserializedMessage;
use dtchat::encoding::MessageSerializerEngine;
use dtchat::encoding::deserialize_message;
use dtchat::encoding::serialize_message;
use dtchat::endpoint::NetworkError;
use dtchat::message::ChatMessage;
use dtchat::message::MessageStatus;
use dtchat::peer::Peer;

fn peer(uuid: &str, name: &str) -> Peer {
    Peer { uuid: uuid.to_string(), name: name.to_string(), endpoints: Vec::new(), color: 0 }
}

fn message(uuid: &str, sender: &Peer, text: &str, tx: i64) -> ChatMessage {
    ChatMessage {
        uuid: uuid.to_string(),
        response: None,
        sender: sender.clone(),
        text: text.to_string(),
        shipment_status: MessageStatus::Sent(tx, None),
    }
}

#[test]
fn test_encode_decode_roundtrip() {
    let a = peer("A", "alice");
    let roster = vec![peer("L", "local"), a.clone()];
    let m = message("m1", &a, "hello", 1000);
    let bytes = serialize_message(&m).unwrap();
    match deserialize_message(&bytes, &roster, 1042) {
        Some(DeserializedMessage::ChatMessage(d)) => {
            assert_eq!(d.uuid, "m1");
            assert_eq!(d.text, "hello");
            assert_eq!(d.response, None);
            assert_eq!(d.sender.uuid, "A");
            assert_eq!(d.sender.name, "alice");
            match d.shipment_status {
                MessageStatus::Received(tx, rx) => {
                    assert_eq!(tx, 1000);
                    assert_eq!(rx, 1042);
                }
                _ => panic!("a decoded message is received"),
            }
        }
        _ => panic!("expected a chat message"),
    }
}

#[test]
fn test_roundtrip_keeps_unicode_and_reply() {
    let a = peer("A", "alice");
    let roster = vec![a.clone()];
    let mut m = message("m2", &a, "na\u{ef}ve \u{2713} text", 7);
    m.response = Some("m1".to_string());
    let bytes = serialize_message(&m).unwrap();
    match deserialize_message(&bytes, &roster, 9) {
        Some(DeserializedMessage::ChatMessage(d)) => {
            assert_eq!(d.text, "na\u{ef}ve \u{2713} text");
            assert_eq!(d.response, Some("m1".to_string()));
        }
        _ => panic!("expected a chat message"),
    }
}

#[test]
fn test_empty_reply_field_accepted() {
    let a = peer("A", "alice");
    let roster = vec![a.clone()];
    let mut m = message("m3", &a, "hi", 7);
    m.response = Some(String::new());
    let bytes = serialize_message(&m).unwrap();
    match deserialize_message(&bytes, &roster, 9) {
        Some(DeserializedMessage::ChatMessage(d)) => {
            assert_eq!(d.response, Some(String::new()));
        }
        _ => panic!("expected a chat message"),
    }
}

#[test]
fn test_empty_text_rejected_at_encode() {
    let a = peer("A", "alice");
    let m = message("m1", &a, "", 1000);
    match serialize_message(&m) {
        Err(NetworkError::InvalidFormat(_)) => {}
        _ => panic!("empty text must be rejected"),
    }
    let anon = peer("", "nobody");
    let m2 = message("m1", &anon, "hi", 1000);
    match serialize_message(&m2) {
        Err(NetworkError::InvalidFormat(_)) => {}
        _ => panic!("an empty sender identifier must be rejected"),
    }
}

#[test]
fn test_unknown_sender_gets_placeholder() {
    let roster = vec![peer("L", "local")];
    let stranger = peer("nobody", "ghost");
    let m = message("m9", &stranger, "hello", 5);
    let bytes = serialize_message(&m).unwrap();
    match deserialize_message(&bytes, &roster, 6) {
        Some(DeserializedMessage::ChatMessage(d)) => {
            assert_eq!(d.sender.name, "Unknown");
            assert_eq!(d.sender.uuid, "unknown");
            assert_eq!(d.text, "hello");
        }
        _ => panic!("an unknown sender is still accepted"),
    }
}

#[test]
fn test_malformed_bytes_dropped() {
    let roster = vec![peer("A", "alice")];
    assert!(deserialize_message(&vec![9, 9, 9], &roster, 0).is_none());
    assert!(deserialize_message(&Vec::new(), &roster, 0).is_none());
    // a truncated record is dropped, not an error
    let a = peer("A", "alice");
    let m = message("m1", &a, "hello", 1000);
    let mut bytes = serialize_message(&m).unwrap();
    bytes.pop();
    assert!(deserialize_message(&bytes, &roster, 0).is_none());
    // trailing garbage is dropped too
    let mut bytes2 = serialize_message(&m).unwrap();
    bytes2.push(0);
    assert!(deserialize_message(&bytes2, &roster, 0).is_none());
}

#[test]
fn test_engine_empty_input_is_no_record() {
    let engine = MessageSerializerEngine::new();
    let roster = vec![peer("A", "alice")];
    match engine.decode(&Vec::new(), &roster, 0) {
        Ok(None) => {}
        _ => panic!("empty input decodes to nothing"),
    }
}

#[test]
fn test_negative_timestamp_roundtrip() {
    let a = peer("A", "alice");
    let roster = vec![a.clone()];
    let m = message("m4", &a, "old", -12345);
    let bytes = serialize_message(&m).unwrap();
    match deserialize_message(&bytes, &roster, 0) {
        Some(DeserializedMessage::ChatMessage(d)) => match d.shipment_status {
            MessageStatus::Received(tx, _) => assert_eq!(tx, -12345),
            _ => panic!("a decoded message is received"),
        },
        _ => panic!("expected a chat message"),
    }
}
