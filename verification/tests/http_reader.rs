use ota_update::tiny_http::{
    build_request, parse_ip, HeaderField, HttpString, ResponseReader, ResponseState,
};

fn started(wanted: Vec<Vec<u8>>) -> ResponseReader {
    let mut r = ResponseReader::new(wanted);
    r.request_sent();
    r
}

#[test]
fn response_scenario() {
    let mut r = started(Vec::new());
    let body = r
        .feed(b"HTTP/1.0 200 OK\r\nContent-Length: 5\r\n\r\nhello")
        .unwrap();
    assert_eq!(r.code(), 200);
    assert_eq!(r.content_length(), 5);
    assert_eq!(body, b"hello".to_vec());
    assert_eq!(r.state(), ResponseState::ReceivingBody);
    r.eof();
    assert_eq!(r.state(), ResponseState::Complete);
}

#[test]
fn response_scenario_fragmented() {
    for size in [1usize, 2, 3, 7, 100] {
        let mut r = started(Vec::new());
        let stream = b"HTTP/1.0 200 OK\r\nContent-Length: 5\r\n\r\nhello";
        let mut body = Vec::new();
        for chunk in stream.chunks(size) {
            body.extend(r.feed(chunk).unwrap());
        }
        r.eof();
        assert_eq!(r.code(), 200);
        assert_eq!(r.content_length(), 5);
        assert_eq!(body, b"hello".to_vec());
        assert_eq!(r.state(), ResponseState::Complete);
    }
}

#[test]
fn headers_parse_case_insensitively_and_capture() {
    let mut r = started(vec![b"x-marker".to_vec(), b"x-absent".to_vec()]);
    let body = r
        .feed(
            b"HTTP/1.0 404 Not Found\r\nCONTENT-TYPE: text/plain\r\nX-Marker: tag-7\r\ncontent-length: 12\r\nOther: junk\r\n\r\nrest",
        )
        .unwrap();
    assert_eq!(r.code(), 404);
    assert_eq!(r.content_length(), 12);
    assert_eq!(r.content_type().as_bytes(), b"text/plain");
    assert_eq!(r.header(0).as_bytes(), b"tag-7");
    assert_eq!(r.header(1).as_bytes(), b"");
    assert_eq!(body, b"rest".to_vec());
}

#[test]
fn malformed_status_line_fails() {
    let mut r = started(Vec::new());
    assert!(r.feed(b"garbage\r\n").is_err());
    assert_eq!(r.state(), ResponseState::Failed);

    let mut r = started(Vec::new());
    assert!(r.feed(b"HTTP/1.0 notanumber OK\r\n").is_err());

    let mut r = started(Vec::new());
    assert!(r.feed(b"HTTP/1.0 99999 Huge\r\n").is_err());
}

#[test]
fn header_without_colon_fails() {
    let mut r = started(Vec::new());
    assert!(r.feed(b"HTTP/1.0 200 OK\r\nbroken line\r\n").is_err());
    assert_eq!(r.state(), ResponseState::Failed);
}

#[test]
fn unparsable_content_length_fails() {
    let mut r = started(Vec::new());
    r.feed(b"HTTP/1.0 200 OK\r\n").unwrap();
    assert!(r.feed(b"Content-Length: ten\r\n").is_err());
    assert_eq!(r.state(), ResponseState::Failed);
}

#[test]
fn overlong_header_line_fails() {
    let mut r = started(Vec::new());
    r.feed(b"HTTP/1.0 200 OK\r\n").unwrap();
    let long = vec![b'a'; 1025];
    assert!(r.feed(&long).is_err());
    assert_eq!(r.state(), ResponseState::Failed);
}

#[test]
fn eof_mid_headers_fails() {
    let mut r = started(Vec::new());
    r.feed(b"HTTP/1.0 200 OK\r\n").unwrap();
    r.eof();
    assert_eq!(r.state(), ResponseState::Failed);
}

#[test]
fn transport_error_fails_from_any_state() {
    let mut r = started(Vec::new());
    r.feed(b"HTTP/1.0 200 OK\r\n\r\n").unwrap();
    assert_eq!(r.state(), ResponseState::ReceivingBody);
    r.fail();
    assert_eq!(r.state(), ResponseState::Failed);
}

#[test]
fn request_bytes() {
    let hdrs = vec![HeaderField::new(b"Accept", b"text/plain")];
    let req = build_request(b"localhost", b"/current.txt", &hdrs);
    assert_eq!(
        req,
        b"GET /current.txt HTTP/1.0\r\nHost: localhost\r\nAccept: text/plain\r\n\r\n\r\n".to_vec()
    );
    let bare = build_request(b"localhost", b"/firmware.bin", &Vec::new());
    assert_eq!(
        bare,
        b"GET /firmware.bin HTTP/1.0\r\nHost: localhost\r\n\r\n\r\n".to_vec()
    );
}

#[test]
fn http_string_truncates() {
    let s = HttpString::from_bytes(&[b'x'; 40]);
    assert_eq!(s.len(), 32);
    let t = HttpString::from_bytes(b"abc");
    assert_eq!(t.as_bytes(), b"abc");
}

#[test]
fn parse_ip_octets() {
    assert_eq!(parse_ip(b"192.168.1.10"), Some((192, 168, 1, 10)));
    assert_eq!(parse_ip(b"0.0.0.0"), Some((0, 0, 0, 0)));
    assert_eq!(parse_ip(b"1.2.3"), None);
    assert_eq!(parse_ip(b"1.2.3.4.5"), None);
    assert_eq!(parse_ip(b"1.2.3.256"), None);
    assert_eq!(parse_ip(b"a.b.c.d"), None);
    assert_eq!(parse_ip(b"1..2.3"), None);
}
