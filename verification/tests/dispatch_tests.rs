use dtchat::ack_config::AckConfig;
use dtchat::ack_config::get_random_ack_delay_ms;
use dtchat::dispatch::AckPlan;
use dtchat::dispatch::DefaultSocketController;
use dtchat::dispatch::DispatchAction;
use dtchat::dispatch::build_ack_bytes;
use dtchat::dispatch::choose_ack_endpoint;
use dtchat::dispatch::plan_ack;
use dtchat::dispatch::prepare_send;
use dtchat::encoding::DeserializedMessage;
use dtchat::encoding::deserialize_message;
use dtchat::encoding::serialize_message;
use dtchat::endpoint::Endpoint;
use dtchat::events::AppEvent;
use dtchat::message::ChatMessage;
use dtchat::message::MessageStatus;
use dtchat::peer::Peer;
use dtchat::store::ChatModel;

fn peer_with(uuid: &str, name: &str, endpoints: Vec<Endpoint>) -> Peer {
    Peer { uuid: uuid.to_string(), name: name.to_string(), endpoints, color: 0 }
}

fn message(uuid: &str, sender: &Peer, text: &str, tx: i64) -> ChatMessage {
    ChatMessage {
        uuid: uuid.to_string(),
        response: None,
        sender: sender.clone(),
        text: text.to_string(),
        shipment_status: MessageStatus::Sent(tx, None),
    }
}

#[test]
fn test_choose_ack_endpoint_priorities() {
    let udp = Endpoint::Udp("127.0.0.1:7001".to_string());
    let tcp = Endpoint::Tcp("127.0.0.1:7002".to_string());
    let bp = Endpoint::Bp("ipn:1.1".to_string());
    let sender = peer_with("A", "alice", vec![udp.clone(), tcp.clone(), bp.clone()]);

    // no origin: bundle beats stream beats datagram among valid ones
    assert_eq!(choose_ack_endpoint(&sender, None), bp);
    // an origin picks its family first
    assert_eq!(choose_ack_endpoint(&sender, Some(&Endpoint::Udp("x".to_string()))), udp);
    assert_eq!(choose_ack_endpoint(&sender, Some(&Endpoint::Tcp("x".to_string()))), tcp);

    // with no valid endpoint and no family match, the first one stands
    let broken = peer_with("B", "bob", vec![Endpoint::Udp("nonsense".to_string())]);
    assert_eq!(
        choose_ack_endpoint(&broken, Some(&Endpoint::Tcp("x".to_string()))),
        Endpoint::Udp("nonsense".to_string())
    );
}

#[test]
fn test_dispatch_delivers_and_plans_ack() {
    let a = peer_with("A", "alice", vec![Endpoint::Udp("127.0.0.1:7002".to_string())]);
    let local = peer_with("L", "local", vec![Endpoint::Udp("127.0.0.1:7001".to_string())]);
    let mut ctl = DefaultSocketController::new();
    ctl.set_local_peer(local.clone());
    ctl.set_peers(vec![local.clone(), a.clone()]);

    let bytes = serialize_message(&message("m1", &a, "hello", 100)).unwrap();
    match ctl.handle_received_bytes(&bytes, Some(&Endpoint::Udp("127.0.0.1:7002".to_string())), 142)
    {
        DispatchAction::Deliver { message, ack_endpoint } => {
            assert_eq!(message.text, "hello");
            assert_eq!(message.sender.uuid, "A");
            assert_eq!(ack_endpoint, Some(Endpoint::Udp("127.0.0.1:7002".to_string())));
        }
        _ => panic!("expected a delivery"),
    }
}

#[test]
fn test_dispatch_drops_own_message() {
    let local = peer_with("L", "local", vec![Endpoint::Udp("127.0.0.1:7001".to_string())]);
    let mut ctl = DefaultSocketController::new();
    ctl.set_local_peer(local.clone());
    ctl.set_peers(vec![local.clone()]);

    let bytes = serialize_message(&message("m1", &local, "echo", 100)).unwrap();
    match ctl.handle_received_bytes(&bytes, None, 142) {
        DispatchAction::Drop => {}
        _ => panic!("the local peer never appears as the sender of an inbound message"),
    }
}

#[test]
fn test_dispatch_unknown_sender_no_ack() {
    let a = peer_with("A", "alice", vec![]);
    let local = peer_with("L", "local", vec![]);
    let mut ctl = DefaultSocketController::new();
    ctl.set_local_peer(local.clone());
    ctl.set_peers(vec![local.clone()]);

    let stranger = peer_with("ghost", "ghost", vec![]);
    let bytes = serialize_message(&message("m1", &stranger, "hi", 100)).unwrap();
    match ctl.handle_received_bytes(&bytes, None, 142) {
        DispatchAction::Deliver { message, ack_endpoint } => {
            assert_eq!(message.sender.name, "Unknown");
            assert_eq!(ack_endpoint, None);
        }
        _ => panic!("an unknown sender is still accepted"),
    }
    let _ = a;
}

#[test]
fn test_dispatch_routes_ack_records() {
    let a = peer_with("A", "alice", vec![]);
    let local = peer_with("L", "local", vec![]);
    let mut ctl = DefaultSocketController::new();
    ctl.set_local_peer(local.clone());
    ctl.set_peers(vec![local.clone(), a.clone()]);

    let original = message("m7", &a, "hello", 100);
    let ack_bytes = build_ack_bytes(&original, "L", true).unwrap();
    match ctl.handle_received_bytes(&ack_bytes, None, 142) {
        DispatchAction::AckUpdate { message_uuid, is_read, .. } => {
            assert_eq!(message_uuid, "m7");
            assert!(is_read);
        }
        _ => panic!("expected an acknowledgement update"),
    }

    // malformed bytes never abort the listener path
    match ctl.handle_received_bytes(&vec![1, 2, 3], None, 0) {
        DispatchAction::Drop => {}
        _ => panic!("malformed bytes are dropped"),
    }
}

#[test]
fn test_ack_bytes_decode_as_delivery() {
    let a = peer_with("A", "alice", vec![]);
    let original = message("m7", &a, "hello", 100);
    let bytes = build_ack_bytes(&original, "L", false).unwrap();
    let roster = vec![a.clone()];
    match deserialize_message(&bytes, &roster, 0) {
        Some(DeserializedMessage::Ack { message_uuid, is_read, .. }) => {
            assert_eq!(message_uuid, "m7");
            assert!(!is_read);
        }
        _ => panic!("an acknowledgement decodes as a delivery record"),
    }
}

#[test]
fn test_self_send_refused() {
    let local = peer_with("L", "local", vec![Endpoint::Udp("127.0.0.1:7001".to_string())]);
    let b = peer_with("B", "bob", vec![Endpoint::Udp("127.0.0.1:7002".to_string())]);
    let mut model = ChatModel::new(vec![b.clone()], local.clone(), Vec::new());

    match prepare_send(&mut model, "hello", &local, "u1".to_string(), 100, None) {
        Err(AppEvent::Error(t)) => assert_eq!(t, "Cannot send message to local peer"),
        _ => panic!("sending to the local peer is refused"),
    }
    assert_eq!(model.messages.len(), 0);

    // and a send to another peer is recorded before transmission
    match prepare_send(&mut model, "hello", &b, "u1".to_string(), 100, None) {
        Ok((m, ev)) => {
            assert_eq!(m.uuid, "u1");
            assert_eq!(m.text, "hello");
            match m.shipment_status {
                MessageStatus::Sent(tx, p) => {
                    assert_eq!(tx, 100);
                    assert_eq!(p, None);
                }
                _ => panic!("a composed message awaits its acknowledgement"),
            }
            match ev {
                Some(AppEvent::Sent(t)) => assert_eq!(t, "Message sent."),
                _ => panic!("expected a sent event"),
            }
        }
        _ => panic!("a send to another peer goes through"),
    }
    assert_eq!(model.messages.len(), 1);
}

#[test]
fn test_ack_delay_window() {
    // a central delay of 100 ms gives the window [75 ms, 125 ms]
    let cfg = AckConfig::from_base_delay(100);
    assert_eq!(cfg.delay_min_ms, 75);
    assert_eq!(cfg.delay_max_ms, 125);
    for _ in 0..200 {
        let d = get_random_ack_delay_ms(&cfg);
        assert!((75..=125).contains(&d));
    }
    let default_cfg = AckConfig::default();
    assert_eq!((default_cfg.delay_min_ms, default_cfg.delay_max_ms), (50, 200));
}

#[test]
fn test_plan_ack_draws_from_window() {
    let a = peer_with("A", "alice", vec![]);
    let original = message("m7", &a, "hello", 100);
    let cfg = AckConfig::new(10, 20);
    let plan: AckPlan =
        plan_ack(&original, Endpoint::Udp("127.0.0.1:7002".to_string()), "L", &cfg).unwrap();
    assert!((10..=20).contains(&plan.delay_ms));
    assert_eq!(plan.endpoint, Endpoint::Udp("127.0.0.1:7002".to_string()));
    assert!(!plan.bytes.is_empty());
}

#[test]
fn test_local_echo_round_trip() {
    // two nodes, the wire replaced by a byte handoff: A sends "hello"
    // to B; B's store gains a received entry; B's acknowledgement
    // transitions A's entry
    let a = peer_with("A", "alice", vec![Endpoint::Udp("127.0.0.1:7001".to_string())]);
    let b = peer_with("B", "bob", vec![Endpoint::Udp("127.0.0.1:7002".to_string())]);

    let mut model_a = ChatModel::new(vec![b.clone()], a.clone(), Vec::new());
    let mut model_b = ChatModel::new(vec![a.clone()], b.clone(), Vec::new());
    let mut ctl_a = DefaultSocketController::new();
    ctl_a.set_local_peer(a.clone());
    ctl_a.set_peers(vec![a.clone(), b.clone()]);
    let mut ctl_b = DefaultSocketController::new();
    ctl_b.set_local_peer(b.clone());
    ctl_b.set_peers(vec![a.clone(), b.clone()]);

    // A composes and records, then serializes for the wire
    let t0 = 1000;
    let (msg, ev) =
        prepare_send(&mut model_a, "hello", &b, "m-hello".to_string(), t0, None).unwrap();
    assert!(ev.is_some());
    assert_eq!(model_a.messages.len(), 1);
    let wire = serialize_message(&msg).unwrap();

    // B receives the bytes
    let origin = Endpoint::Udp("127.0.0.1:7001".to_string());
    let ack_wire = match ctl_b.handle_received_bytes(&wire, Some(&origin), t0 + 5) {
        DispatchAction::Deliver { message, ack_endpoint } => {
            assert_eq!(message.text, "hello");
            assert_eq!(message.sender.uuid, "A");
            match message.shipment_status {
                MessageStatus::Received(tx, rx) => {
                    assert_eq!(tx, t0);
                    assert_eq!(rx, t0 + 5);
                }
                _ => panic!("an inbound message is received"),
            }
            assert_eq!(ack_endpoint, Some(Endpoint::Udp("127.0.0.1:7001".to_string())));
            let plan = plan_ack(&message, ack_endpoint.unwrap(), "B", &AckConfig::new(0, 0))
                .unwrap();
            model_b.add_message(message, dtchat::store::MessageDirection::Received);
            plan.bytes
        }
        _ => panic!("B must deliver the message"),
    };
    assert_eq!(model_b.messages.len(), 1);

    // the acknowledgement travels back and settles A's entry
    match ctl_a.handle_received_bytes(&ack_wire, Some(&origin), t0 + 9) {
        DispatchAction::AckUpdate { message_uuid, is_read, ack_time } => {
            assert_eq!(message_uuid, "m-hello");
            assert!(!is_read);
            let ev = model_a.on_ack_received(message_uuid.as_str(), is_read, ack_time);
            assert!(ev.is_some());
        }
        _ => panic!("A must treat the bytes as an acknowledgement"),
    }
    match model_a.messages[0].shipment_status {
        MessageStatus::Received(tx, _) => assert_eq!(tx, t0),
        _ => panic!("A's entry transitions on the acknowledgement"),
    }
}
