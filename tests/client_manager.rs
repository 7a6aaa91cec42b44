use quote_common::{ClientConfig, ClientManager};

fn config(addr: &str, last_ping: u64) -> ClientConfig {
    let mut c = ClientConfig::new(addr.to_string(), vec!["AAPL".to_string()]);
    c.last_ping = last_ping;
    c
}

#[test]
fn add_replace_and_remove_clients() {
    let mut m = ClientManager::new(5);
    assert_eq!(m.ping_timeout_secs(), 5);
    assert_eq!(m.client_count(), 0);
    m.add_client("127.0.0.1:4000".to_string(), config("udp://127.0.0.1:1", 10));
    m.add_client("127.0.0.1:4001".to_string(), config("udp://127.0.0.1:2", 20));
    m.add_client("127.0.0.1:4000".to_string(), config("udp://127.0.0.1:3", 30));
    assert_eq!(m.client_count(), 2);
    assert_eq!(m.last_ping_of("127.0.0.1:4000"), Some(30));
    let removed = m.remove_client("127.0.0.1:4000").unwrap();
    assert_eq!(removed.udp_addr, "udp://127.0.0.1:3");
    assert!(!m.has_client("127.0.0.1:4000"));
    assert!(m.remove_client("127.0.0.1:4000").is_none());
    assert_eq!(m.client_count(), 1);
}

#[test]
fn update_ping_refreshes_only_known_clients() {
    let mut m = ClientManager::new(5);
    m.add_client("10.0.0.1:5000".to_string(), config("udp://x:1", 10));
    assert!(m.update_ping_at("10.0.0.1:5000", 99));
    assert_eq!(m.last_ping_of("10.0.0.1:5000"), Some(99));
    assert!(!m.update_ping_at("10.0.0.1:5001", 100));
    assert_eq!(m.last_ping_of("10.0.0.1:5000"), Some(99));
    assert!(m.update_ping("10.0.0.1:5000"));
    assert!(m.last_ping_of("10.0.0.1:5000").unwrap() > 99);
}

#[test]
fn heartbeat_falls_back_to_first_client_of_same_ip() {
    let mut m = ClientManager::new(5);
    m.add_client("10.0.0.9:1".to_string(), config("udp://x:1", 1));
    m.add_client("127.0.0.1:4000".to_string(), config("udp://x:2", 1));
    m.add_client("127.0.0.1:4001".to_string(), config("udp://x:3", 1));
    assert!(m.handle_ping_at("PING", "127.0.0.1:60000", "127.0.0.1", 50));
    assert_eq!(m.last_ping_of("127.0.0.1:4000"), Some(50));
    assert_eq!(m.last_ping_of("127.0.0.1:4001"), Some(1));
    assert_eq!(m.last_ping_of("10.0.0.9:1"), Some(1));
    assert!(m.handle_ping_at(" PING\n", "127.0.0.1:4001", "127.0.0.1", 60));
    assert_eq!(m.last_ping_of("127.0.0.1:4001"), Some(60));
    assert_eq!(m.last_ping_of("127.0.0.1:4000"), Some(50));
}

#[test]
fn heartbeat_answers_every_ping_and_nothing_else() {
    let mut m = ClientManager::new(5);
    assert!(m.handle_ping_at("PING", "127.0.0.1:54321", "127.0.0.1", 1));
    assert!(m.handle_ping("  PING  ", "127.0.0.1:54321", "127.0.0.1"));
    assert!(!m.handle_ping_at("PONG", "127.0.0.1:54321", "127.0.0.1", 1));
    assert!(!m.handle_ping_at("PING PING", "127.0.0.1:54321", "127.0.0.1", 1));
    assert!(!m.handle_ping_at("", "127.0.0.1:54321", "127.0.0.1", 1));
    assert_eq!(m.client_count(), 0);
}

#[test]
fn reaper_evicts_only_stale_clients() {
    let mut m = ClientManager::new(5);
    m.add_client("a:1".to_string(), config("udp://x:1", 100));
    m.add_client("b:1".to_string(), config("udp://x:2", 94));
    m.add_client("c:1".to_string(), config("udp://x:3", 95));
    m.add_client("d:1".to_string(), config("udp://x:4", 10));
    let gone = m.remove_stale_at(100);
    assert_eq!(gone, vec!["b:1".to_string(), "d:1".to_string()]);
    assert!(m.has_client("a:1"));
    assert!(m.has_client("c:1"));
    assert_eq!(m.client_count(), 2);
    assert!(m.remove_stale_at(100).is_empty());
}

#[test]
fn reaper_with_current_clock_keeps_fresh_clients() {
    let mut m = ClientManager::new(5);
    m.add_client("a:1".to_string(), ClientConfig::new("udp://x:1".to_string(), vec![]));
    m.add_client("b:1".to_string(), config("udp://x:2", 0));
    let gone = m.remove_stale();
    assert_eq!(gone, vec!["b:1".to_string()]);
    assert!(m.has_client("a:1"));
}

#[test]
fn heartbeat_fallback_matches_the_whole_host() {
    let mut m = ClientManager::new(5);
    m.add_client("127.0.0.10:80".to_string(), config("udp://x:1", 1));
    m.add_client("[::1]:4000".to_string(), config("udp://x:2", 1));
    assert!(m.handle_ping_at("PING", "127.0.0.1:5555", "127.0.0.1", 40));
    assert_eq!(m.last_ping_of("127.0.0.10:80"), Some(1));
    assert!(!m.update_ping_by_ip_at("127.0.0.1", 41));
    assert!(m.handle_ping_at("PING", "[::1]:6000", "::1", 42));
    assert_eq!(m.last_ping_of("[::1]:4000"), Some(42));
    assert!(m.update_ping_by_ip_at("127.0.0.10", 43));
    assert_eq!(m.last_ping_of("127.0.0.10:80"), Some(43));
}
