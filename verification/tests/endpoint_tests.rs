use dtchat::endpoint::BpAddress;
use dtchat::endpoint::Endpoint;
use dtchat::endpoint::NetworkError;
use dtchat::endpoint::parse_endpoint;

#[test]
fn test_endpoint_creation() {
    let tcp_endpoint = Endpoint::new("tcp", "127.0.0.1:8080").unwrap();
    assert_eq!(tcp_endpoint.protocol(), "tcp");
    assert_eq!(tcp_endpoint.address(), "127.0.0.1:8080");
}

#[test]
fn test_endpoint_from_str() {
    let endpoint: Endpoint = parse_endpoint("tcp://127.0.0.1:8080").unwrap();
    assert_eq!(endpoint, Endpoint::Tcp("127.0.0.1:8080".to_string()));
}

#[test]
fn test_endpoint_display() {
    let endpoint = Endpoint::Tcp("127.0.0.1:8080".to_string());
    assert_eq!(endpoint.display_string(), "tcp://127.0.0.1:8080");
}

#[test]
fn test_endpoint_validation() {
    let valid_tcp = Endpoint::Tcp("127.0.0.1:8080".to_string());
    assert!(valid_tcp.is_valid());

    let invalid_tcp = Endpoint::Tcp("invalid_address".to_string());
    assert!(!invalid_tcp.is_valid());

    let valid_bp = Endpoint::Bp("ipn:1.1".to_string());
    assert!(valid_bp.is_valid());
}

#[test]
fn test_endpoint_space_form() {
    let endpoint = parse_endpoint("udp 10.0.0.1:9000").unwrap();
    assert_eq!(endpoint, Endpoint::Udp("10.0.0.1:9000".to_string()));
}

#[test]
fn test_endpoint_case_insensitive_scheme() {
    let endpoint = Endpoint::new("UDP", "127.0.0.1:7001").unwrap();
    assert_eq!(endpoint.protocol(), "udp");
}

#[test]
fn test_endpoint_unknown_scheme() {
    match Endpoint::new("smtp", "127.0.0.1:25") {
        Err(NetworkError::UnsupportedScheme(s)) => assert_eq!(s, "smtp"),
        _ => panic!("expected an unsupported scheme error"),
    }
}

#[test]
fn test_endpoint_invalid_format() {
    match parse_endpoint("no-separator-here") {
        Err(NetworkError::InvalidFormat(s)) => assert_eq!(s, "no-separator-here"),
        _ => panic!("expected an invalid format error"),
    }
}

#[test]
fn test_address_grammar_boundaries() {
    assert!(Endpoint::Udp("0.0.0.0:0".to_string()).is_valid());
    assert!(Endpoint::Udp("255.255.255.255:65535".to_string()).is_valid());
    assert!(!Endpoint::Udp("256.0.0.1:80".to_string()).is_valid());
    assert!(!Endpoint::Udp("1.2.3.4:65536".to_string()).is_valid());
    assert!(!Endpoint::Udp("01.2.3.4:80".to_string()).is_valid());
    assert!(!Endpoint::Udp("1.2.3:80".to_string()).is_valid());
    assert!(!Endpoint::Udp("1.2.3.4".to_string()).is_valid());
    assert!(!Endpoint::Udp("".to_string()).is_valid());
}

#[test]
fn test_ipv6_address_validation() {
    // forms the host parser reads are valid here too
    assert!(Endpoint::Udp("[::]:0".to_string()).is_valid());
    assert!(Endpoint::Udp("[::1]:8080".to_string()).is_valid());
    assert!(Endpoint::Tcp("[2001:db8::1]:443".to_string()).is_valid());
    assert!(Endpoint::Tcp("[1:2:3:4:5:6:7:8]:1".to_string()).is_valid());
    assert!(Endpoint::Udp("[::ffff:1.2.3.4]:80".to_string()).is_valid());
    assert!(Endpoint::Udp("[1:2:3:4:5:6:1.2.3.4]:80".to_string()).is_valid());
    assert!(Endpoint::Udp("[fe80::1%3]:80".to_string()).is_valid());
    assert!(Endpoint::Udp("[1:2:3:4:5:6:7::]:80".to_string()).is_valid());
    assert!(Endpoint::Udp("[ABCD::ef01]:80".to_string()).is_valid());

    // and the forms it refuses
    assert!(!Endpoint::Udp("::1:8080".to_string()).is_valid());
    assert!(!Endpoint::Udp("[::1]".to_string()).is_valid());
    assert!(!Endpoint::Udp("[1:2:3:4:5:6:7:8:9]:1".to_string()).is_valid());
    assert!(!Endpoint::Udp("[1::2::3]:80".to_string()).is_valid());
    assert!(!Endpoint::Udp("[1:2:3:4:5:6:7:8::]:80".to_string()).is_valid());
    assert!(!Endpoint::Udp("[::1:2:3:4:5:6:7:8]:80".to_string()).is_valid());
    assert!(!Endpoint::Udp("[12345::1]:80".to_string()).is_valid());
    assert!(!Endpoint::Udp("[1:2:3]:80".to_string()).is_valid());
    assert!(!Endpoint::Udp("[fe80::1%eth0]:80".to_string()).is_valid());
    assert!(!Endpoint::Udp("[::1]:99999".to_string()).is_valid());
    assert!(!Endpoint::Udp("[1.2.3.4::]:80".to_string()).is_valid());
}

#[test]
fn test_port_grammar_follows_host_parser() {
    // the host parser tolerates zero-prefixed ports of any length
    assert!(Endpoint::Udp("127.0.0.1:000080".to_string()).is_valid());
    assert!(!Endpoint::Udp("127.0.0.1:".to_string()).is_valid());
}

#[test]
fn test_bp_validation_boundaries() {
    assert!(Endpoint::Bp("dtn:node".to_string()).is_valid());
    assert!(!Endpoint::Bp("".to_string()).is_valid());
    assert!(!Endpoint::Bp("ipn:PLACEHOLDER".to_string()).is_valid());
    assert!(!Endpoint::Bp("http:1.1".to_string()).is_valid());
}

#[test]
fn test_bp_address_parse() {
    let a = BpAddress::parse("ipn:10.1").unwrap();
    assert_eq!(a.ipn_node, 10);
    assert_eq!(a.service_id, 1);

    match BpAddress::parse("dtn:somewhere") {
        Err(NetworkError::BpNotImplemented(_)) => {}
        _ => panic!("expected the dtn scheme to be unimplemented"),
    }
    match BpAddress::parse("ipn:1.2.3") {
        Err(NetworkError::InvalidFormat(_)) => {}
        _ => panic!("expected an invalid format error"),
    }
    let wide = BpAddress::parse("ipn:1.999").unwrap();
    assert_eq!(wide.service_id, 999);
    match BpAddress::parse("ipn:1.4294967296") {
        Err(NetworkError::InvalidFormat(_)) => {}
        _ => panic!("expected an oversized service number to be rejected"),
    }
    match BpAddress::parse("ipn:4294967296.1") {
        Err(NetworkError::InvalidFormat(_)) => {}
        _ => panic!("expected an oversized node number to be rejected"),
    }
    match BpAddress::parse("mailto:a@b") {
        Err(NetworkError::InvalidFormat(_)) => {}
        _ => panic!("expected an invalid format error"),
    }
}
