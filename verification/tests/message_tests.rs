use dtchat::message::ChatMessage;
use dtchat::message::MessageStatus;
use dtchat::message::format_hms;
use dtchat::peer::Peer;

fn peer(uuid: &str, name: &str) -> Peer {
    Peer { uuid: uuid.to_string(), name: name.to_string(), endpoints: Vec::new(), color: 0 }
}

fn with_status(status: MessageStatus) -> ChatMessage {
    ChatMessage {
        uuid: "m1".to_string(),
        response: None,
        sender: peer("A", "alice"),
        text: "hi".to_string(),
        shipment_status: status,
    }
}

#[test]
fn test_format_hms_exact() {
    // 01:02:03 after midnight
    assert_eq!(format_hms(3_723_000), "01:02:03");
    assert_eq!(format_hms(0), "00:00:00");
    // a day later, same time of day
    assert_eq!(format_hms(3_723_000 + 86_400_000), "01:02:03");
    // just before the epoch
    assert_eq!(format_hms(-1), "23:59:59");
}

#[test]
fn test_status_strings() {
    let sent = with_status(MessageStatus::Sent(3_723_000, None));
    assert_eq!(sent.get_shipment_status_str(true), "[01:02:03->??][alice]");

    let predicted = with_status(MessageStatus::Sent(3_723_000, Some(3_724_000)));
    assert_eq!(predicted.get_shipment_status_str(true), "[01:02:03->01:02:04][alice]");

    let received = with_status(MessageStatus::Received(3_723_000, 3_724_000));
    assert_eq!(received.get_shipment_status_str(false), "[01:02:03->01:02:04][alice]");
    assert_eq!(
        received.get_shipment_status_str(true),
        "[01:02:03->01:02:04\u{2713}][alice]"
    );
}

#[test]
fn test_get_timestamps() {
    let sent = with_status(MessageStatus::Sent(100, None));
    assert_eq!(sent.get_timestamps(), (100, Some(100), None));
    let predicted = with_status(MessageStatus::Sent(100, Some(140)));
    assert_eq!(predicted.get_timestamps(), (100, Some(140), None));
    let received = with_status(MessageStatus::Received(100, 120));
    assert_eq!(received.get_timestamps(), (100, None, Some(120)));
}

#[test]
fn test_update_with_ack() {
    let mut m = with_status(MessageStatus::Sent(100, Some(140)));
    m.update_with_ack(false, 150);
    match m.shipment_status {
        MessageStatus::Received(tx, rx) => {
            assert_eq!(tx, 100);
            assert_eq!(rx, 150);
        }
        _ => panic!("an awaited message transitions on its ACK"),
    }
    // and never again
    m.update_with_ack(true, 999);
    match m.shipment_status {
        MessageStatus::Received(_, rx) => assert_eq!(rx, 150),
        _ => panic!("a received message never transitions"),
    }
}
