use nat_traversal::error::NatError;
use nat_traversal::forward::{decimal_string, format_response, parse_usize, post_payload, prepare_forward};
use nat_traversal::http::{HttpRequest, RequestLine};
use nat_traversal::protocols::{detect_protocol, parse_protocol, ProtocolType};

#[test]
fn request_line_defaults() {
    let l = RequestLine::from_utf8("");
    assert_eq!((l.method.as_str(), l.url.as_str(), l.http_version.as_str()), ("GET", "Unknown", "HTTP/1.1"));
    let l = RequestLine::from_utf8("  POST \t /x  ");
    assert_eq!((l.method.as_str(), l.url.as_str(), l.http_version.as_str()), ("POST", "/x", "HTTP/1.1"));
    let l = RequestLine::from_utf8("PUT a b c d");
    assert_eq!((l.method.as_str(), l.url.as_str(), l.http_version.as_str()), ("PUT", "a", "b"));
}

#[test]
fn methods_are_case_insensitive() {
    assert!(RequestLine::from_utf8("post / HTTP/1.1").has_body());
    assert!(RequestLine::from_utf8("Patch / HTTP/1.1").has_body());
    assert!(!RequestLine::from_utf8("GET / HTTP/1.1").has_body());
    assert!(RequestLine::from_utf8("get / HTTP/1.1").is_supported());
    assert!(!RequestLine::from_utf8("put / HTTP/1.1").is_supported());
    // the Unicode uppercase of a long s is S
    assert!(RequestLine::from_utf8("po\u{17f}t / HTTP/1.1").has_body());
}

#[test]
fn request_with_body_and_headers() {
    let text = "POST http://h/api HTTP/1.1\r\nHost: a\r\nHost: b\r\nAccept: x: y\r\n\r\n{\"k\": 1}\r\nmore";
    let r = HttpRequest::from_utf8(text);
    assert_eq!(r.host, "b");
    assert_eq!(r.accept, "x");
    assert_eq!(r.user_agent, "");
    assert_eq!(r.data, Some("{\"k\": 1}more".to_string()));
}

#[test]
fn headers_end_at_first_non_header() {
    let text = "GET / HTTP/1.1\nHost: a\nnot a header\nUser-Agent: late\n";
    let r = HttpRequest::from_utf8(text);
    assert_eq!(r.host, "a");
    assert_eq!(r.user_agent, "");
    assert_eq!(r.data, None);
    let r = HttpRequest::from_utf8("POST / HTTP/1.1\nHost: a");
    assert_eq!(r.data, Some(String::new()));
}

#[test]
fn tool_request_line() {
    let l = nat_traversal::tool::http::RequestLine::from_utf8("DELETE /a HTTP/2");
    assert_eq!(l.method, "DELETE");
    assert!(!l.has_body());
    assert!(!l.is_supported());
}

#[test]
fn protocols_by_keyword() {
    assert_eq!(parse_protocol("SSH-2.0-OpenSSH_8.6".to_string()).unwrap().name(), "SSH");
    assert_eq!(parse_protocol("GET / HTTP/1.1".to_string()).unwrap().name(), "HTTP");
    assert_eq!(parse_protocol("NAT 0.1".to_string()).unwrap().name(), "NAT");
    assert!(parse_protocol("hello".to_string()).is_err());
    assert_eq!(detect_protocol("NAT over HTTP via SSH"), Some(ProtocolType::SSH));
    assert_eq!(detect_protocol("NAT over HTTP"), Some(ProtocolType::HTTP));
    assert!(ProtocolType::HTTP.protocol().validate("HTTP/1.0".to_string()));
    assert!(!ProtocolType::NAT.protocol().validate("nat".to_string()));
}

#[test]
fn protocol_bytes() {
    assert_eq!(ProtocolType::NAT.bytes(), [0x0]);
    assert_eq!(ProtocolType::HTTP.bytes(), [0x1]);
    assert_eq!(ProtocolType::SSH.bytes(), [0x2]);
    assert_eq!(ProtocolType::from_slice(&[0x2]), Some(ProtocolType::SSH));
    assert_eq!(ProtocolType::from_slice(&[0x3]), None);
    assert_eq!(ProtocolType::from_slice(&[0x0, 0x0]), None);
    assert_eq!(ProtocolType::HTTP.to_string(), "HTTP");
}

#[test]
fn forward_checks() {
    let padded = "\0\0GET http://example.com/ HTTP/1.1\r\nHost: example.com\r\n\r\n\0\0\0";
    let req = prepare_forward(padded).unwrap();
    assert_eq!(req.request_line.url, "http://example.com/");
    assert_eq!(req.host, "example.com");
    assert_eq!(prepare_forward("GET").unwrap_err(), NatError::UnknownRequest);
    assert_eq!(prepare_forward("PUT http://x/ HTTP/1.1").unwrap_err(), NatError::UnsupportedMethod("PUT".to_string()));
    assert_eq!(prepare_forward("\0\0delete http://x/ HTTP/1.1\0").unwrap_err(), NatError::UnsupportedMethod("delete".to_string()));
}

#[test]
fn post_bodies_are_quoted() {
    let req = prepare_forward("POST http://x/ HTTP/1.1\r\n\r\n{\"a\": 1}").unwrap();
    assert_eq!(post_payload(&req), Some("\"{\\\"a\\\": 1}\"".to_string()));
    let req = prepare_forward("GET http://x/ HTTP/1.1\r\n\r\n").unwrap();
    assert_eq!(post_payload(&req), None);
}

#[test]
fn numbers() {
    assert_eq!(decimal_string(0), "0");
    assert_eq!(decimal_string(502), "502");
    assert_eq!(decimal_string(u64::MAX), "18446744073709551615");
    assert_eq!(parse_usize("007"), Some(7));
    assert_eq!(parse_usize("+5"), Some(5));
    assert_eq!(parse_usize(""), None);
    assert_eq!(parse_usize("+"), None);
    assert_eq!(parse_usize("-1"), None);
    assert_eq!(parse_usize("1 "), None);
    assert_eq!(parse_usize("18446744073709551616"), "18446744073709551616".parse::<usize>().ok());
}

#[test]
fn response_text() {
    let headers = vec![
        ("content-type".to_string(), "text/plain".to_string()),
        ("content-length".to_string(), "0005".to_string()),
    ];
    let r = format_response("HTTP/1.1", 200, &headers, "hello");
    assert_eq!(r, "HTTP/1.1 200\r\ncontent-type: text/plain\r\ncontent-length: 5\r\n\r\nhello \r\n");
}
