use std::time::Duration;
use nat_traversal::cache::Cache;
use nat_traversal::client::{http_failure_reply, ClientSession, ServerAction};
use nat_traversal::error::NatError;
use nat_traversal::message::Message;
use nat_traversal::protocols::ProtocolType;
use nat_traversal::server::{admit_visitor, first_line, route_connection, route_reply, NatClientSlot, ReplyRoute, TracingSeq, VisitorDecision};
use nat_traversal::tool::config::{gives_up, BaseConfig, ClientConfig, ServerConfig};

#[test]
fn cache_stores_and_forgets() {
    let mut c: Cache<u32, String> = Cache::new(Duration::from_secs(10));
    assert_eq!(c.len(), 0);
    c.put(1, "a".to_string());
    c.put(2, "b".to_string());
    c.put(1, "c".to_string());
    assert_eq!(c.len(), 2);
    assert!(c.contains_key(&1));
    assert_eq!(c.get(&1), Some("c".to_string()));
    assert_eq!(c.get(&3), None);
    assert_eq!(c.remove(&2), Some("b".to_string()));
    assert_eq!(c.remove(&2), None);
    assert_eq!(c.len(), 1);
    c.compact();
    assert_eq!(c.len(), 1);
}

#[test]
fn cache_compaction_drops_expired() {
    let mut c: Cache<u64, u8> = Cache::new(Duration::from_secs(0));
    c.put(5, 1);
    c.put(6, 2);
    c.compact();
    assert_eq!(c.len(), 0);
    let mut c: Cache<u64, u8> = Cache::new(Duration::from_secs(3600));
    c.put(5, 1);
    c.compact_at(u128::MAX);
    assert_eq!(c.len(), 0);
}

#[test]
fn compaction_at_one_instant_is_idempotent() {
    let now = std::time::SystemTime::now()
        .duration_since(std::time::UNIX_EPOCH)
        .unwrap()
        .as_nanos()
        + 1_000_000_000;
    let mut c: Cache<u64, u8> = Cache::new(Duration::from_secs(3600));
    c.put(1, 10);
    c.put(2, 20);
    c.compact_at(now);
    assert_eq!(c.len(), 2);
    c.compact_at(now);
    assert_eq!(c.len(), 2);
    assert_eq!(c.get(&2), Some(20));
    let later = now + 7_200_000_000_000;
    c.compact_at(later);
    assert_eq!(c.len(), 0);
    c.compact_at(later);
    assert_eq!(c.len(), 0);
}

#[test]
fn removal_and_future_stamps() {
    let mut c: Cache<u32, u8> = Cache::new(Duration::from_secs(1));
    c.put(1, 10);
    c.put(2, 20);
    assert_eq!(c.remove(&1), Some(10));
    assert!(!c.contains_key(&1));
    assert_eq!(c.get(&1), None);
    assert_eq!(c.get(&2), Some(20));
    assert_eq!(c.len(), 1);
    // Judged at an instant before the entry was stored, it has not expired.
    c.compact_at(0);
    assert_eq!(c.len(), 1);
}

#[test]
fn connections_are_routed() {
    let mut buf = [0u8; 64];
    buf[..7].copy_from_slice(b"NAT 0.1");
    assert_eq!(first_line(&buf), "NAT 0.1");
    assert_eq!(route_connection(&buf, "10.0.0.1", "127.0.0.1/32"), Ok(Some(ProtocolType::NAT)));
    let mut buf = [0u8; 64];
    buf[..14].copy_from_slice(b"GET / HTTP/1.1");
    assert_eq!(route_connection(&buf, "127.0.0.1", "127.0.0.1/32"), Ok(Some(ProtocolType::HTTP)));
    assert_eq!(route_connection(&buf, "192.168.1.7", "192.168.1.0/24"), Ok(Some(ProtocolType::HTTP)));
    assert_eq!(route_connection(&buf, "10.0.0.1", "127.0.0.1/32"), Err(NatError::AddressNotAllowed));
    assert_eq!(route_connection(&buf, "127.0.0.1", "not a subnet"), Err(NatError::AddressNotAllowed));
    assert_eq!(route_connection(b"hello", "127.0.0.1", "127.0.0.1/32"), Ok(None));
    assert_eq!(first_line(&[0xff, 0x00]), "Error");
    assert_eq!(route_connection(&[0xff, 0x00], "127.0.0.1", "127.0.0.1/32"), Ok(None));
}

#[test]
fn replies_are_routed() {
    assert_eq!(route_reply(&Message::new_ssh(Some(3), vec![])), ReplyRoute::Ssh);
    assert_eq!(route_reply(&Message::new_http(Some(4), vec![], 0)), ReplyRoute::Http(4));
    assert_eq!(route_reply(&Message::new_http(None, vec![], 0)), ReplyRoute::Untraced);
}

#[test]
fn tracing_ids_count_up() {
    let mut t = TracingSeq::new();
    assert_eq!(t.last_id(), 0);
    assert_eq!(t.next_id(), 1);
    assert_eq!(t.next_id(), 2);
    assert_eq!(t.last_id(), 2);
}

#[test]
fn client_follows_the_ssh_session() {
    let mut c = ClientSession::new();
    assert!(matches!(c.on_server_message(Message::nat_reject()), ServerAction::Stop));
    assert!(matches!(c.on_server_message(Message::pong()), ServerAction::Ignore));
    assert!(matches!(c.on_server_message(Message::new_http(Some(1), vec![], 0)), ServerAction::HandleHttp(_)));
    assert!(matches!(c.on_server_message(Message::new_ssh(Some(2), b"hello".to_vec())), ServerAction::DirtySsh));
    assert!(matches!(c.on_server_message(Message::new_ssh(Some(2), vec![0xff])), ServerAction::DirtySsh));
    assert!(!c.has_ssh());
    assert!(matches!(c.on_server_message(Message::new_ssh(Some(2), b"SSH-2.0-x".to_vec())), ServerAction::OpenSsh(_)));
    assert!(c.has_ssh());
    assert!(matches!(c.on_server_message(Message::new_ssh(Some(2), vec![1, 2])), ServerAction::ForwardSsh(_)));
    assert!(c.has_ssh());
    assert!(matches!(c.on_server_message(Message::new_ssh_error(Some(2))), ServerAction::ForwardSsh(_)));
    assert!(!c.has_ssh());
    assert!(matches!(c.on_server_message(Message::new_ssh(Some(3), b"SSH-2.0-y".to_vec())), ServerAction::OpenSsh(_)));
    c.on_local_ssh_message(&Message::new_ssh(Some(3), vec![1]));
    assert!(c.has_ssh());
    c.on_local_ssh_message(&Message::new_ssh_error(Some(3)));
    assert!(!c.has_ssh());
}

#[test]
fn failed_requests_get_gateway_replies() {
    let m = http_failure_reply(Some(1), Some("operation timed out"));
    assert_eq!(m.body, b"HTTP/1.1 504 Bad Timeout\r\n".to_vec());
    let m = http_failure_reply(Some(1), Some("connection refused"));
    assert_eq!(m.body, b"HTTP/1.1 502 Bad Gateway\r\n".to_vec());
    let m = http_failure_reply(None, None);
    assert_eq!(m.body, b"HTTP/1.1 502 Bad Gateway\r\n".to_vec());
}

#[test]
fn configuration_defaults() {
    let base = BaseConfig::with_defaults("pw".to_string(), None, Some(100), None);
    assert_eq!(base.ssh_mtu, 512);
    assert_eq!(base.http_mtu, 100);
    assert_eq!(base.subnet, "127.0.0.1/32");
    let server = ServerConfig::with_defaults(None, None, base.clone());
    assert_eq!(server.listen_address(), "127.0.0.1:8080");
    let server = ServerConfig::with_defaults(Some(3001), Some("0.0.0.0".to_string()), base.clone());
    assert_eq!(server.listen_address(), "0.0.0.0:3001");
    let client = ClientConfig::with_defaults(None, base);
    assert_eq!(client.server_url, "ws://127.0.0.1:8080/ws");
    assert!(gives_up("auth: password incorrect"));
    assert!(!gives_up("connection reset"));
}

#[test]
fn visitors_draw_rising_ids_only_with_a_client() {
    let mut seq = TracingSeq::new();
    assert_eq!(admit_visitor(&mut seq, ProtocolType::HTTP, true), VisitorDecision::Forward(1));
    assert_eq!(admit_visitor(&mut seq, ProtocolType::HTTP, false), VisitorDecision::Reply502);
    assert_eq!(admit_visitor(&mut seq, ProtocolType::SSH, false), VisitorDecision::Close);
    assert_eq!(seq.last_id(), 1);
    assert_eq!(admit_visitor(&mut seq, ProtocolType::SSH, true), VisitorDecision::Forward(2));
    assert_eq!(admit_visitor(&mut seq, ProtocolType::HTTP, true), VisitorDecision::Forward(3));
    assert_eq!(seq.last_id(), 3);
}

#[test]
fn one_tunnel_client_at_a_time() {
    let mut slot = NatClientSlot::new();
    assert!(!slot.client_existed());
    assert!(slot.accept_client());
    assert!(slot.client_existed());
    assert!(!slot.accept_client());
    slot.leave();
    assert!(!slot.client_existed());
    assert!(slot.accept_client());
}
