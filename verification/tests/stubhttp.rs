use paniolo::stubhttp::request_complete;

#[test]
fn completeness_waits_for_the_declared_body() {
    let head = b"POST /x HTTP/1.1\r\nContent-Length: 2\r\n\r\n";
    assert!(!request_complete(head));
    assert!(!request_complete(b"POST /x HTTP/1.1\r\nContent-Length: 2\r\n\r\nh"));
    let mut full = head.to_vec();
    full.extend_from_slice(b"hi");
    assert!(request_complete(&full));
    assert!(request_complete(b"GET / HTTP/1.1\r\nHost: x\r\n\r\n"));
    assert!(!request_complete(b"GET / HTTP/1.1\r\nHost: x"));
}

#[test]
fn the_length_header_is_matched_without_regard_to_case() {
    assert!(!request_complete(b"POST /x HTTP/1.1\r\ncontent-length:  3 \r\n\r\nab"));
    assert!(request_complete(b"POST /x HTTP/1.1\r\ncontent-length:  3 \r\n\r\nabc"));
}
