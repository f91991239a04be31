use nat_traversal::checksum::checksum;
use nat_traversal::error::NatError;
use nat_traversal::message::{frame_header_len, Message, SSHStatus};
use nat_traversal::protocols::ProtocolType;

fn same(a: &Message, b: &Message) -> bool {
    a.protocol == b.protocol
        && a.body == b.body
        && a.tracing_id == b.tracing_id
        && a.ssh_status == b.ssh_status
        && a.packet_size == b.packet_size
}

#[test]
fn frame_roundtrip_each_kind() {
    let msgs = vec![
        Message::ping(),
        Message::pong(),
        Message::nat_reject(),
        Message::nat_ok([9, 8, 7, 6]),
        Message::nat_auth(vec![1; 16]),
        Message::new_http(Some(7), b"GET / HTTP/1.1\r\n".to_vec(), 16),
        Message::new_ssh(Some(0xdead_beef), vec![0, 1, 2, 255]),
        Message::new_ssh_error(Some(3)),
        Message::http_502(Some(1)),
        Message::http_504(None),
    ];
    for m in msgs.iter() {
        let frame = m.encode_frame().unwrap();
        assert_eq!(checksum(&frame), 0);
        let back = Message::decode_frame(&frame).unwrap();
        if m.tracing_id.is_some() || m.protocol == ProtocolType::NAT {
            assert!(same(m, &back), "{:?} came back as {:?}", m, back);
        }
    }
}

#[test]
fn frame_layout_http() {
    let m = Message::new_http(Some(0x0102_0304), vec![0xaa, 0xbb], 0x0a0b_0c0d);
    let f = m.encode_frame().unwrap();
    assert_eq!(f.len(), 13 + 2);
    assert_eq!(&f[0..2], &[0, 2]);
    assert_eq!(f[4], 0x1);
    assert_eq!(&f[5..9], &[1, 2, 3, 4]);
    assert_eq!(&f[9..13], &[0x0a, 0x0b, 0x0c, 0x0d]);
    assert_eq!(&f[13..], &[0xaa, 0xbb]);
}

#[test]
fn ssh_without_status_arrives_as_normal() {
    let m = Message {
        protocol: ProtocolType::SSH,
        body: vec![1, 2, 3],
        tracing_id: Some(5),
        ssh_status: None,
        packet_size: None,
    };
    let f = m.encode_frame().unwrap();
    assert_eq!(f[9], 0);
    let back = Message::decode_frame(&f).unwrap();
    assert_eq!(back.ssh_status, Some(SSHStatus::Normal));
    assert_eq!(back.body, vec![1, 2, 3]);
}

#[test]
fn ssh_error_status_travels() {
    let f = Message::new_ssh_error(Some(4)).encode_frame().unwrap();
    assert_eq!(f[9], 1);
    let back = Message::decode_frame(&f).unwrap();
    assert_eq!(back.ssh_status, Some(SSHStatus::UnknownError));
}

#[test]
fn decode_errors() {
    assert_eq!(Message::decode_frame(&[0, 0, 0, 0]).unwrap_err(), NatError::FrameTooShort);
    let mut f = Message::ping().encode_frame().unwrap();
    f[4] = 9;
    assert_eq!(Message::decode_frame(&f).unwrap_err(), NatError::UnknownProtocol(9));
    let f = Message::new_http(Some(1), vec![], 0).encode_frame().unwrap();
    assert_eq!(Message::decode_frame(&f[0..10]).unwrap_err(), NatError::FrameTooShort);
    let mut f = Message::new_ssh(Some(1), vec![5, 6, 7]).encode_frame().unwrap();
    f[11] ^= 0x40;
    assert_eq!(Message::decode_frame(&f).unwrap_err(), NatError::ChecksumMismatch);
}

#[test]
fn encode_too_big() {
    let m = Message::new_ssh(Some(1), vec![0; 65536]);
    assert_eq!(m.encode_frame().unwrap_err(), NatError::MessageTooBig);
    let m = Message::new_ssh(Some(1), vec![0; 65535]);
    let f = m.encode_frame().unwrap();
    assert_eq!(&f[0..2], &[0xff, 0xff]);
}

#[test]
fn commands_and_predicates() {
    assert_eq!(Message::ping().body, vec![0x1]);
    assert!(Message::ping().is_ping());
    assert!(Message::pong().is_pong());
    assert!(Message::nat_reject().is_rejected());
    assert!(Message::nat_auth_timeout().is_auth_timeout());
    assert!(Message::nat_auth_failed().is_auth_failed());
    assert!(Message::nat_ok([0; 4]).is_ok());
    assert!(Message::nat_auth(vec![]).is_auth());
    assert!(!Message::ping().is_pong());
    assert!(Message::new_ssh(None, vec![]).is_ssh());
    assert!(Message::new_http(None, vec![1], 1).is_http());
    // an SSH message whose body starts with the PING byte is no PING
    assert!(!Message::new_ssh(None, vec![0x1]).is_ping());
    let empty = Message { protocol: ProtocolType::NAT, body: vec![], tracing_id: None, ssh_status: None, packet_size: None };
    assert!(!empty.is_ping());
}

#[test]
fn challenge_and_answer() {
    let ok = Message::nat_ok([1, 2, 3, 4]);
    assert_eq!(ok.body, vec![0x3, 1, 2, 3, 4]);
    assert_eq!(ok.get_random_bytes_from_server(), Ok([1, 2, 3, 4]));
    assert_eq!(Message::ping().get_random_bytes_from_server(), Err(NatError::NotOkMessage));
    let short = Message { protocol: ProtocolType::NAT, body: vec![0x3, 1], tracing_id: None, ssh_status: None, packet_size: None };
    assert_eq!(short.get_random_bytes_from_server(), Err(NatError::BodyTooShort));

    let answer: Vec<u8> = (0..20).collect();
    let auth = Message::nat_auth(answer.clone());
    assert_eq!(auth.get_encrypted_bytes_by_client().unwrap(), answer[0..16].to_vec());
    assert_eq!(Message::nat_auth(vec![1; 15]).get_encrypted_bytes_by_client(), Err(NatError::BodyTooShort));
    assert_eq!(Message::pong().get_encrypted_bytes_by_client(), Err(NatError::NotAuthMessage));
}

#[test]
fn gateway_replies() {
    let m = Message::http_502(Some(3));
    assert_eq!(m.body, b"HTTP/1.1 502 Bad Gateway\r\n".to_vec());
    assert_eq!(m.packet_size, Some(0));
    assert_eq!(m.tracing_id, Some(3));
    let m = Message::http_504(Some(4));
    assert_eq!(m.to_utf8(), "HTTP/1.1 504 Bad Timeout\r\n");
}

#[test]
fn body_as_text() {
    assert_eq!(Message::new_ssh(None, "héllo".as_bytes().to_vec()).to_utf8(), "héllo");
    assert_eq!(Message::new_ssh(None, vec![0xff, 0xfe]).to_utf8(), "");
}

#[test]
fn header_lengths_follow_the_protocol() {
    assert_eq!(frame_header_len(ProtocolType::NAT), 5);
    assert_eq!(frame_header_len(ProtocolType::SSH), 10);
    assert_eq!(frame_header_len(ProtocolType::HTTP), 13);
    let m = Message::new_http(Some(1), vec![1, 2, 3], 3);
    let f = m.encode_frame().unwrap();
    assert_eq!(f.len(), frame_header_len(ProtocolType::HTTP) + 3);
    let s = Message::new_ssh(Some(1), vec![9]);
    assert_eq!(s.encode_frame().unwrap().len(), frame_header_len(ProtocolType::SSH) + 1);
    assert_eq!(Message::ping().encode_frame().unwrap().len(), frame_header_len(ProtocolType::NAT) + 1);
}
