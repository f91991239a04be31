use nat_traversal::checksum::checksum;
use nat_traversal::protocols::ProtocolType;
use nat_traversal::utils::{as_u32_be, u16_to_be, u32_to_be};
use nat_traversal::http::HttpRequest;

#[test]
fn test_checksum() {
    let mut bytes = vec![6, 2, 0, 0, 255, 255, 3, 4, 1];
    // bytes 3 and 4 hold the checksum: zero them first
    bytes[2] = 0;
    bytes[3] = 0;
    let cs = checksum(bytes.as_slice());
    let cs_bytes = u16_to_be(cs);
    // store the checksum
    bytes[2] = cs_bytes[0];
    bytes[3] = cs_bytes[1];
    // validate
    let validated = checksum(bytes.as_slice());
    println!("checksum\n: {} {}", cs, validated);
    assert_eq!(cs, 0xf5f6);
    assert_eq!(validated, 0);
}

#[test]
fn http_test_parse_request() {
    let http_req = "GET http://baidu.com/ HTTP/1.1\r\nHost: baidu.com\r\nUser-Agent: curl/7.71.1\r\nAccept: */*\r\nProxy-Connection: Keep-Alive\r\n\r\n";
    let req = HttpRequest::from_utf8(http_req);
    println!("{:?}", req);
    assert_eq!(req.request_line.method, "GET");
    assert_eq!(req.request_line.url, "http://baidu.com/");
    assert_eq!(req.request_line.http_version, "HTTP/1.1");
    assert_eq!(req.host, "baidu.com");
    assert_eq!(req.user_agent, "curl/7.71.1");
    assert_eq!(req.accept, "*/*");
    assert_eq!(req.proxy_connection, "Keep-Alive");
    assert_eq!(req.data, None);

    let req = nat_traversal::tool::http::HttpRequest::from_utf8(http_req);
    println!("{:?}", req);
    assert_eq!(req.request_line.method, "GET");
    assert_eq!(req.request_line.url, "http://baidu.com/");
    assert_eq!(req.request_line.http_version, "HTTP/1.1");
    assert_eq!(req.host, "baidu.com");
    assert_eq!(req.user_agent, "curl/7.71.1");
    assert_eq!(req.accept, "*/*");
    assert_eq!(req.proxy_connection, "Keep-Alive");
    assert_eq!(req.data, None);
}

#[test]
fn test_protocol() {
    println!("{:?}", ProtocolType::SSH);
    assert_eq!(format!("{:?}", ProtocolType::SSH), "SSH");
    assert_eq!(ProtocolType::SSH.to_string(), "SSH");
}

#[test]
fn utils_test_u32() {
    let i: [u8; 4] = [0, 0, 0xa, 1];
    println!("\n{:?}", as_u32_be(&i));
    println!("{:?}\n", u32_to_be(as_u32_be(&i).unwrap()));
    assert_eq!(as_u32_be(&i), Ok(2561));
    assert_eq!(u32_to_be(as_u32_be(&i).unwrap()), i);

    println!("\n{:?}", nat_traversal::tool::utils::as_u32_be(&i));
    println!("{:?}\n", nat_traversal::tool::utils::u32_to_be(nat_traversal::tool::utils::as_u32_be(&i)));
    assert_eq!(nat_traversal::tool::utils::as_u32_be(&i), 2561);
    assert_eq!(nat_traversal::tool::utils::u32_to_be(nat_traversal::tool::utils::as_u32_be(&i)), i);
}
