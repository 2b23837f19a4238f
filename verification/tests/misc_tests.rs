use dtchat::events::AppEvent;
use dtchat::events::EventHandler;
use dtchat::peer::Peer;
use dtchat::peer::default_peer;
use dtchat::peer::find_peer_by_id;
use dtchat::peer_manager::NetworkMonitor;
use dtchat::peer_manager::PeerManager;
use dtchat::util::generate_uuid;
use socket2::Domain;
use socket2::Protocol;
use socket2::Socket;
use socket2::Type;

fn peer(uuid: &str, name: &str) -> Peer {
    Peer { uuid: uuid.to_string(), name: name.to_string(), endpoints: Vec::new(), color: 0 }
}

#[test]
fn test_event_queue_fifo_and_repaint() {
    let mut q = EventHandler::new();
    assert!(!q.repaint_requested);
    q.push_event(AppEvent::Sent("a".to_string()));
    assert!(!q.repaint_requested);
    q.push_event(AppEvent::Received("b".to_string()));
    assert!(q.repaint_requested);
    q.push_event(AppEvent::Error("c".to_string()));
    match q.pop_event() {
        Some(AppEvent::Sent(t)) => assert_eq!(t, "a"),
        _ => panic!("the queue is first in, first out"),
    }
    match q.pop_event() {
        Some(AppEvent::Received(t)) => assert_eq!(t, "b"),
        _ => panic!("the queue is first in, first out"),
    }
    match q.pop_event() {
        Some(AppEvent::Error(t)) => assert_eq!(t, "c"),
        _ => panic!("the queue is first in, first out"),
    }
    assert!(q.pop_event().is_none());
}

#[test]
fn test_peer_manager_roster() {
    let local = peer("L", "local");
    let a = peer("A", "alice");
    let mut pm = PeerManager::new(local, vec![a.clone()]);
    assert_eq!(pm.total_peers(), 1);
    pm.add_peer(peer("B", "bob"));
    assert_eq!(pm.total_peers(), 2);
    // a duplicate identifier is not added twice
    pm.add_peer(peer("A", "alice again"));
    assert_eq!(pm.total_peers(), 2);
    assert_eq!(pm.find_peer("B").unwrap().name, "bob");
    assert!(pm.find_peer("C").is_none());
    assert!(pm.remove_peer("A"));
    assert!(!pm.remove_peer("A"));
    assert_eq!(pm.total_peers(), 1);
    assert_eq!(pm.local_peer().uuid, "L");
    assert_eq!(pm.get_peers_clone().len(), 1);
}

#[test]
fn test_monitor_health() {
    let mut local = peer("L", "local");
    let pm_empty = PeerManager::new(local.clone(), Vec::new());
    let monitor = NetworkMonitor::new();
    assert!(!monitor.is_healthy(&pm_empty));

    local.endpoints.push(dtchat::endpoint::Endpoint::Udp("127.0.0.1:7001".to_string()));
    let pm = PeerManager::new(local, vec![peer("A", "alice")]);
    let stats = monitor.get_stats(&pm);
    assert_eq!(stats.local_peer_endpoints, 1);
    assert_eq!(stats.total_peers, 1);
    assert_eq!(stats.active_connections, 0);
    assert!(monitor.is_healthy(&pm));
}

#[test]
fn test_placeholder_peer() {
    let p = default_peer();
    assert_eq!(p.uuid, "unknown");
    assert_eq!(p.name, "Unknown");
    assert!(p.endpoints.is_empty());

    let roster = vec![peer("A", "alice"), peer("B", "bob")];
    assert_eq!(find_peer_by_id(&roster, "B").unwrap().name, "bob");
    assert!(find_peer_by_id(&roster, "Z").is_none());
}

#[test]
fn test_generate_uuid_shape() {
    let u = generate_uuid();
    assert_eq!(u.len(), 36);
    let chars: Vec<char> = u.chars().collect();
    assert_eq!(chars[8], '-');
    assert_eq!(chars[13], '-');
    assert_eq!(chars[18], '-');
    assert_eq!(chars[23], '-');
    assert_eq!(chars[14], '4');
    assert_eq!(chars[19], '8');
    for (i, c) in chars.iter().enumerate() {
        if i != 8 && i != 13 && i != 18 && i != 23 {
            assert!(c.is_ascii_hexdigit() && !c.is_ascii_uppercase());
        }
    }
    // fresh identifiers differ
    assert_ne!(u, generate_uuid());
}

#[test]
fn test_valid_endpoint_socket_creation() {
    // a valid datagram endpoint's socket family can be opened on this host
    let e = dtchat::endpoint::Endpoint::Udp("127.0.0.1:7001".to_string());
    assert!(e.is_valid());
    let socket = Socket::new(Domain::IPV4, Type::DGRAM, Some(Protocol::UDP));
    assert!(socket.is_ok());
    let t = dtchat::endpoint::Endpoint::Tcp("127.0.0.1:7002".to_string());
    assert!(t.is_valid());
    let stream = Socket::new(Domain::IPV4, Type::STREAM, Some(Protocol::TCP));
    assert!(stream.is_ok());
}
