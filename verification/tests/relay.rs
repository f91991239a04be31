use nat_traversal::batch::{split_http_by_batch, split_ssh_by_batch};
use nat_traversal::message::{Message, SSHStatus};
use nat_traversal::protocols::ProtocolType;
use nat_traversal::session::{ClientEvent, NatSession, TickOutcome};

#[test]
fn ssh_batches_cover_the_payload() {
    let bytes: Vec<u8> = (0..10).collect();
    let parts = split_ssh_by_batch(7, 3, &bytes);
    assert_eq!(parts.len(), 4);
    let sizes: Vec<usize> = parts.iter().map(|m| m.body.len()).collect();
    assert_eq!(sizes, vec![3, 3, 3, 1]);
    let joined: Vec<u8> = parts.iter().flat_map(|m| m.body.clone()).collect();
    assert_eq!(joined, bytes);
    for m in parts.iter() {
        assert_eq!(m.protocol, ProtocolType::SSH);
        assert_eq!(m.tracing_id, Some(7));
        assert_eq!(m.ssh_status, Some(SSHStatus::Normal));
    }
}

#[test]
fn empty_payload_is_one_empty_batch() {
    let parts = split_ssh_by_batch(1, 4, &[]);
    assert_eq!(parts.len(), 1);
    assert!(parts[0].body.is_empty());
    let parts = split_http_by_batch(1, 0, &[]);
    assert_eq!(parts.len(), 1);
    assert_eq!(parts[0].packet_size, Some(0));
}

#[test]
fn exact_multiple_has_no_empty_tail() {
    let bytes = vec![1u8; 8];
    let parts = split_http_by_batch(2, 4, &bytes);
    assert_eq!(parts.len(), 2);
    assert!(parts.iter().all(|m| m.packet_size == Some(8) && m.body.len() == 4));
}

#[test]
fn http_batches_reassemble_once() {
    let bytes: Vec<u8> = (0..=250).collect();
    let parts = split_http_by_batch(42, 64, &bytes);
    assert_eq!(parts.len(), 4);
    let mut session = NatSession::new([1, 2, 3, 4]);
    let mut delivered = Vec::new();
    for p in parts {
        match session.reassemble_http(p) {
            Some(m) => delivered.push(m),
            None => {}
        }
    }
    assert_eq!(delivered.len(), 1);
    assert_eq!(delivered[0].body, bytes);
    assert_eq!(delivered[0].tracing_id, Some(42));
    assert_eq!(delivered[0].packet_size, Some(251));
}

#[test]
fn uneven_fragments_reassemble_once() {
    let mut session = NatSession::new([1, 2, 3, 4]);
    let parts: Vec<Vec<u8>> = vec![vec![1, 2, 3], vec![], vec![4], vec![5, 6, 7, 8, 9]];
    let mut delivered = Vec::new();
    for p in parts {
        if let Some(m) = session.reassemble_http(Message::new_http(Some(9), p, 9)) {
            delivered.push(m);
        }
    }
    assert_eq!(delivered.len(), 1);
    assert_eq!(delivered[0].body, vec![1, 2, 3, 4, 5, 6, 7, 8, 9]);
    assert_eq!(delivered[0].packet_size, Some(9));
    assert_eq!(delivered[0].tracing_id, Some(9));
}

#[test]
fn interleaved_packets_reassemble_apart() {
    let a: Vec<u8> = vec![1; 10];
    let b: Vec<u8> = vec![2; 7];
    let pa = split_http_by_batch(1, 4, &a);
    let pb = split_http_by_batch(2, 4, &b);
    let mut session = NatSession::new([0; 4]);
    let mut out = Vec::new();
    let mut ia = pa.into_iter();
    let mut ib = pb.into_iter();
    loop {
        let mut progressed = false;
        if let Some(m) = ia.next() {
            progressed = true;
            if let ClientEvent::Deliver(d) = session.on_client_message(m) {
                out.push(d);
            }
        }
        if let Some(m) = ib.next() {
            progressed = true;
            if let ClientEvent::Deliver(d) = session.on_client_message(m) {
                out.push(d);
            }
        }
        if !progressed {
            break;
        }
    }
    assert_eq!(out.len(), 2);
    assert_eq!(out[0].body, b);
    assert_eq!(out[1].body, a);
}

#[test]
fn small_reply_goes_through_at_once() {
    let mut session = NatSession::new([0; 4]);
    let r = session.reassemble_http(Message::new_http(Some(5), vec![1, 2, 3], 3));
    assert_eq!(r.unwrap().body, vec![1, 2, 3]);
    // a reply without a packet size stands for itself
    let m = Message { protocol: ProtocolType::HTTP, body: vec![9], tracing_id: Some(6), ssh_status: None, packet_size: None };
    assert_eq!(session.reassemble_http(m).unwrap().body, vec![9]);
}

#[test]
fn auth_times_out_on_second_tick() {
    let mut s = NatSession::new([1, 2, 3, 4]);
    assert_eq!(s.on_tick(), TickOutcome::Continue);
    assert_eq!(s.on_tick(), TickOutcome::AuthTimeout);
}

#[test]
fn authenticated_client_never_times_out() {
    let mut s = NatSession::new([1, 2, 3, 4]);
    assert_eq!(s.on_tick(), TickOutcome::Continue);
    assert!(s.check_auth(&[1, 2, 3, 4]));
    assert!(s.is_authenticated());
    for _ in 0..10 {
        assert_eq!(s.on_tick(), TickOutcome::Continue);
    }
}

#[test]
fn wrong_answer_is_refused() {
    let mut s = NatSession::new([1, 2, 3, 4]);
    assert!(!s.check_auth(&[1, 2, 3, 5]));
    assert!(!s.is_authenticated());
    assert!(!s.check_auth(&[1, 2, 3]));
    assert!(!s.check_auth(&[1, 2, 3, 4, 0]));
    assert!(!s.check_auth(&[]));
    assert!(!s.is_authenticated());
}

#[test]
fn client_messages_are_classified() {
    let mut s = NatSession::new([0; 4]);
    assert!(matches!(s.on_client_message(Message::ping()), ClientEvent::ReplyPong));
    assert!(matches!(s.on_client_message(Message::nat_auth(vec![7; 3])), ClientEvent::AuthMalformed));
    let answer: Vec<u8> = (10..30).collect();
    match s.on_client_message(Message::nat_auth(answer.clone())) {
        ClientEvent::Authenticate(b) => assert_eq!(b, answer[0..16].to_vec()),
        _ => panic!("expected an answer"),
    }
    match s.on_client_message(Message::new_ssh(Some(3), vec![1])) {
        ClientEvent::Deliver(m) => assert_eq!(m.tracing_id, Some(3)),
        _ => panic!("expected a delivery"),
    }
    assert!(matches!(s.on_client_message(Message::pong()), ClientEvent::Ignore));
    assert!(matches!(s.on_client_message(Message::new_http(Some(9), vec![1], 5)), ClientEvent::Buffered));
}
