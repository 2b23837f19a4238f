use dtchat::endpoint::Endpoint;
use dtchat::endpoint::NetworkError;
use dtchat::predictor::PredictError;
use dtchat::predictor::PredictionConfig;
use dtchat::predictor::extract_ion_id_from_bp_address;
use dtchat::predictor::map_node_indices;
use dtchat::predictor::parse_contact_plan;

#[test]
fn test_single_contact_prediction() {
    // node1 -> node2 available in [0 s, 100 s] at 1000 bytes/s
    let plan = "contact 0 100 node1 node2 1000";
    let cp_start = 5000;
    let cfg = PredictionConfig::with_start_time(plan, cp_start).unwrap();
    // departing 10 s after plan start, 500 bytes arrive strictly after
    // the departure and no later than the contact's close
    let arrival = cfg.predict_at("node1", "node2", 500, cp_start + 10).unwrap();
    assert!(arrival > cp_start + 10);
    assert!(arrival <= cp_start + 100);
}

#[test]
fn test_prediction_outside_window_fails() {
    let plan = "contact 0 100 node1 node2 1000";
    let cfg = PredictionConfig::with_start_time(plan, 0).unwrap();
    match cfg.predict_at("node1", "node2", 500, 200) {
        Err(PredictError::NoRoute(_)) => {}
        _ => panic!("a closed contact carries nothing"),
    }
    // a payload too large for the window finds no route either
    match cfg.predict_at("node1", "node2", 1_000_000, 10) {
        Err(PredictError::NoRoute(_)) => {}
        _ => panic!("the window is too short for this payload"),
    }
}

#[test]
fn test_two_hop_prediction() {
    let plan = "contact 0 100 a b 100\ncontact 50 200 b c 100";
    let cfg = PredictionConfig::with_start_time(plan, 0).unwrap();
    // 100 bytes: a->b departs at 0, arrives 1; b->c departs at 50, arrives 51
    let arrival = cfg.predict_at("a", "c", 100, 0).unwrap();
    assert_eq!(arrival, 51);
}

#[test]
fn test_unknown_node_is_surfaced() {
    let plan = "contact 0 100 node1 node2 1000";
    let cfg = PredictionConfig::with_start_time(plan, 0).unwrap();
    match cfg.predict_at("node1", "nowhere", 1, 0) {
        Err(PredictError::UnknownNode(_)) => {}
        _ => panic!("an unknown destination is surfaced"),
    }
}

#[test]
fn test_plan_parsing() {
    let plan = parse_contact_plan("contact 0 100 node1 node2 1000\nrange 0 100 node1 node2 1\n")
        .unwrap();
    assert_eq!(plan.names, vec!["node1".to_string(), "node2".to_string()]);
    assert_eq!(plan.contacts.len(), 1);
    assert_eq!(plan.contacts[0].start, 0);
    assert_eq!(plan.contacts[0].end, 100);
    assert_eq!(plan.contacts[0].tx, 0);
    assert_eq!(plan.contacts[0].rx, 1);
    assert_eq!(plan.contacts[0].rate, 1000);

    match parse_contact_plan("contact zero 100 node1 node2 1000") {
        Err(NetworkError::InvalidFormat(_)) => {}
        _ => panic!("a malformed line is refused"),
    }
    match parse_contact_plan("contact 0 100 node1 node2 0") {
        Err(NetworkError::InvalidFormat(_)) => {}
        _ => panic!("a zero rate is refused"),
    }

    let names = map_node_indices("contact 0 1 x y 5\ncontact 2 3 y z 5").unwrap();
    assert_eq!(names, vec!["x".to_string(), "y".to_string(), "z".to_string()]);
}

#[test]
fn test_plan_whitespace_runs() {
    // tokens may be separated by runs of spaces and tabs, with
    // carriage-return line endings and stray blanks tolerated
    let plan = parse_contact_plan("  contact  0\t100   node1\tnode2  1000\r\n\r\nrange 0 100 node1 node2 1\r\n")
        .unwrap();
    assert_eq!(plan.names, vec!["node1".to_string(), "node2".to_string()]);
    assert_eq!(plan.contacts.len(), 1);
    assert_eq!(plan.contacts[0].rate, 1000);
}

#[test]
fn test_ion_extraction() {
    let bp = Endpoint::Bp("ipn:10.1".to_string());
    assert_eq!(
        PredictionConfig::extract_ion_node_from_endpoint(&bp),
        Some("10".to_string())
    );
    // a dotless EID keeps its scheme, as a bare address string does
    let bare = Endpoint::Bp("ipn:7".to_string());
    assert_eq!(
        PredictionConfig::extract_ion_node_from_endpoint(&bare),
        Some("ipn:7".to_string())
    );
    let udp = Endpoint::Udp("127.0.0.1:7001".to_string());
    assert_eq!(PredictionConfig::extract_ion_node_from_endpoint(&udp), None);

    let cfg = PredictionConfig::with_start_time("contact 0 100 10 11 1000", 0).unwrap();
    assert!(cfg.test_endpoint(&Endpoint::Bp("ipn:10.1".to_string())));
    assert!(!cfg.test_endpoint(&Endpoint::Bp("ipn:12.1".to_string())));
    assert!(!cfg.test_endpoint(&udp));
}

#[test]
fn test_bare_ion_extraction() {
    assert_eq!(extract_ion_id_from_bp_address("ipn:10.1"), "10");
    assert_eq!(extract_ion_id_from_bp_address("ipn:7"), "ipn:7");
    assert_eq!(extract_ion_id_from_bp_address("node1"), "node1");
}
