use quote_common::udp_sender::{DrainState, MAX_SEND_ERRORS};
use quote_common::{ClientConfig, UdpSender};

#[test]
fn parse_udp_addr_strips_scheme() {
    let s = UdpSender::new(
        "c:1".to_string(),
        ClientConfig::new("udp://127.0.0.1:9000".to_string(), vec![]),
        vec![],
    );
    assert_eq!(s.parse_udp_addr("udp://127.0.0.1:9000"), Ok("127.0.0.1:9000".to_string()));
    assert_eq!(
        s.parse_udp_addr("tcp://x:1"),
        Err("Invalid UDP address format: tcp://x:1".to_string())
    );
    assert_eq!(s.target(), Ok("127.0.0.1:9000".to_string()));
    assert_eq!(s.receiver_count(), 0);
}

#[test]
fn drain_stops_after_five_errors_in_a_row() {
    let mut d = DrainState::new();
    for _ in 0..4 {
        assert!(d.record(false));
    }
    assert!(d.record(true));
    assert_eq!(d.consecutive_errors, 0);
    for _ in 0..(MAX_SEND_ERRORS - 1) {
        assert!(d.record(false));
    }
    assert!(!d.record(false));
    assert_eq!(d.consecutive_errors, MAX_SEND_ERRORS);
}
