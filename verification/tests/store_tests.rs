use dtchat::events::AppEvent;
use dtchat::message::ChatMessage;
use dtchat::message::MessageStatus;
use dtchat::peer::Peer;
use dtchat::store::ChatModel;
use dtchat::store::MessageDirection;
use dtchat::store::SortStrategy;
use dtchat::store::get_str_for_strat;

fn peer(uuid: &str, name: &str) -> Peer {
    Peer { uuid: uuid.to_string(), name: name.to_string(), endpoints: Vec::new(), color: 0 }
}

fn received(uuid: &str, sender: &Peer, tx: i64, rx: i64) -> ChatMessage {
    ChatMessage {
        uuid: uuid.to_string(),
        response: None,
        sender: sender.clone(),
        text: "x".to_string(),
        shipment_status: MessageStatus::Received(tx, rx),
    }
}

fn model_with(peers: Vec<Peer>, local: Peer) -> ChatModel {
    ChatModel::new(peers, local, Vec::new())
}

fn uuids(model: &ChatModel) -> Vec<String> {
    model.messages.iter().map(|m| m.uuid.clone()).collect()
}

#[test]
fn test_ordering_strategies() {
    // three records: (sender, tx, rx) = (A,100,110), (B,105,108), (A,115,112)
    let a = peer("A", "alice");
    let b = peer("B", "bob");
    let local = peer("L", "local");
    let mut model = model_with(vec![a.clone(), b.clone()], local);

    let m1 = received("m1", &a, 100, 110);
    let m2 = received("m2", &b, 105, 108);
    let m3 = received("m3", &a, 115, 112);
    // insert out of order on purpose
    model.add_message(m3, MessageDirection::Received);
    model.add_message(m1, MessageDirection::Received);
    model.add_message(m2, MessageDirection::Received);

    assert_eq!(uuids(&model), vec!["m1", "m2", "m3"]);

    model.sort_messages(SortStrategy::Relative(a.clone()));
    // anchors: m1 -> rx 110, m2 -> tx 105, m3 -> rx 112
    assert_eq!(uuids(&model), vec!["m2", "m1", "m3"]);
}

#[test]
fn test_duplicate_identifier_rejected() {
    let a = peer("A", "alice");
    let local = peer("L", "local");
    let mut model = model_with(vec![a.clone()], local);

    let ev1 = model.add_message(received("m1", &a, 100, 110), MessageDirection::Received);
    assert!(ev1.is_some());
    let ev2 = model.add_message(received("m1", &a, 200, 210), MessageDirection::Received);
    assert!(ev2.is_none());
    assert_eq!(model.messages.len(), 1);
    assert_eq!(model.messages[0].get_timestamps().0, 100);
}

#[test]
fn test_add_message_events() {
    let a = peer("A", "alice");
    let local = peer("L", "local");
    let mut model = model_with(vec![a.clone()], local);

    match model.add_message(received("m1", &a, 100, 110), MessageDirection::Received) {
        Some(AppEvent::Received(t)) => assert_eq!(t, "New message from alice"),
        _ => panic!("expected a received event"),
    }
    let mine = ChatMessage {
        uuid: "m2".to_string(),
        response: None,
        sender: peer("L", "local"),
        text: "hello".to_string(),
        shipment_status: MessageStatus::Sent(120, None),
    };
    match model.add_message(mine, MessageDirection::Sent) {
        Some(AppEvent::Sent(t)) => assert_eq!(t, "Message sent."),
        _ => panic!("expected a sent event"),
    }
}

#[test]
fn test_ack_transitions_once() {
    let a = peer("A", "alice");
    let local = peer("L", "local");
    let mut model = model_with(vec![a.clone()], local.clone());

    let mine = ChatMessage {
        uuid: "m1".to_string(),
        response: None,
        sender: local.clone(),
        text: "hello".to_string(),
        shipment_status: MessageStatus::Sent(100, None),
    };
    model.add_message(mine, MessageDirection::Sent);

    // first ACK: exactly one transition, one event
    match model.on_ack_received("m1", false, 150) {
        Some(AppEvent::Sent(t)) => assert_eq!(t, "Message status updated"),
        _ => panic!("expected a status update event"),
    }
    match model.messages[0].shipment_status {
        MessageStatus::Received(tx, rx) => {
            assert_eq!(tx, 100);
            assert_eq!(rx, 150);
        }
        _ => panic!("expected the status to have transitioned"),
    }

    // a second ACK produces no further transition and no event
    assert!(model.on_ack_received("m1", true, 999).is_none());
    match model.messages[0].shipment_status {
        MessageStatus::Received(tx, rx) => {
            assert_eq!(tx, 100);
            assert_eq!(rx, 150);
        }
        _ => panic!("the status must not change again"),
    }
}

#[test]
fn test_ack_for_unknown_identifier_dropped() {
    let a = peer("A", "alice");
    let local = peer("L", "local");
    let mut model = model_with(vec![a.clone()], local);
    model.add_message(received("m1", &a, 100, 110), MessageDirection::Received);

    assert!(model.on_ack_received("nope", false, 150).is_none());
    assert_eq!(model.messages.len(), 1);
    assert!(!model.update_message_with_ack("nope", false, 150));
}

#[test]
fn test_inbound_received_never_transitions() {
    let a = peer("A", "alice");
    let local = peer("L", "local");
    let mut model = model_with(vec![a.clone()], local);
    model.add_message(received("m1", &a, 100, 110), MessageDirection::Received);

    // found, but already received: no event, untouched
    assert!(model.update_message_with_ack("m1", false, 500));
    match model.messages[0].shipment_status {
        MessageStatus::Received(tx, rx) => {
            assert_eq!(tx, 100);
            assert_eq!(rx, 110);
        }
        _ => panic!("inbound entries never transition"),
    }
}

#[test]
fn test_strategy_labels() {
    let a = peer("A", "alice");
    let local_uuid = "L".to_string();
    assert_eq!(get_str_for_strat(&local_uuid, &SortStrategy::Standard), "Standard");
    assert_eq!(
        get_str_for_strat(&local_uuid, &SortStrategy::Relative(a)),
        "Relative (alice)"
    );
    let me = peer("L", "local");
    assert_eq!(get_str_for_strat(&local_uuid, &SortStrategy::Relative(me)), "Local");
}
