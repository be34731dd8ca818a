use http_proxy_ipv6_pool::head::{
    asks_for_tunnel, find_line_end, forward_head, parse_head, split_head, ProxyRequest,
};
use http_proxy_ipv6_pool::headers::Header;
use http_proxy_ipv6_pool::request::{append_range, ProtocolError, RequestLine};

fn header(name: &str, value: &str) -> Header {
    Header { name: name.as_bytes().to_vec(), value: value.as_bytes().to_vec() }
}

#[test]
fn line_end_is_the_first_cr_lf() {
    assert_eq!(find_line_end(b"ab\r\ncd\r\n", 0), 2);
    assert_eq!(find_line_end(b"ab\r\ncd\r\n", 3), 6);
    assert_eq!(find_line_end(b"ab\r\ncd\r\n", 7), 8);
    assert_eq!(find_line_end(b"ab\rcd\n", 0), 6);
    assert_eq!(find_line_end(b"ab\r", 0), 3);
    assert_eq!(find_line_end(b"", 0), 0);
    assert_eq!(find_line_end(b"\r\n", 0), 0);
}

#[test]
fn head_splits_into_lines_up_to_the_empty_line() {
    let (lines, end) = split_head(b"a b c\r\nk: v\r\n\r\nbody\r\n\r\n").unwrap();
    assert_eq!(lines, vec![b"a b c".to_vec(), b"k: v".to_vec()]);
    assert_eq!(end, 15);
    assert_eq!(split_head(b"\r\nrest"), Some((Vec::new(), 2)));
}

#[test]
fn head_without_its_empty_line_is_not_split() {
    assert_eq!(split_head(b""), None);
    assert_eq!(split_head(b"a b c\r\nk: v\r\n"), None);
    assert_eq!(split_head(b"a b c\r\nk: v\r\n\r"), None);
    assert_eq!(split_head(b"a b c\n\n"), None);
}

#[test]
fn head_is_read_into_a_request() {
    let r = parse_head(
        b"GET http://example.test/path HTTP/1.1\r\nHost: example.test\r\nAccept: */*\r\n\r\n",
    )
    .unwrap();
    assert_eq!(
        r,
        ProxyRequest {
            line: RequestLine {
                method: b"GET".to_vec(),
                target: b"http://example.test/path".to_vec(),
                version: b"HTTP/1.1".to_vec(),
            },
            headers: vec![header("Host", "example.test"), header("Accept", "*/*")],
        }
    );
    let r = parse_head(b"CONNECT example.test:443 HTTP/1.1\r\n\r\n").unwrap();
    assert!(r.headers.is_empty());
    assert_eq!(r.line.method, b"CONNECT".to_vec());
}

#[test]
fn head_errors_name_what_is_wrong() {
    assert_eq!(parse_head(b"GET http://example.test/ HTTP/1.1\r\n"), Err(ProtocolError::IncompleteHead));
    assert_eq!(parse_head(b"\r\n"), Err(ProtocolError::MalformedRequestLine));
    assert_eq!(
        parse_head(b"GET http://example.test/\r\nHost: x\r\n\r\n"),
        Err(ProtocolError::MalformedRequestLine)
    );
    assert_eq!(
        parse_head(b"GET http://example.test/ HTTP/1.1\r\nHost: x\r\nbad header\r\nA: b\r\n\r\n"),
        Err(ProtocolError::MalformedHeader)
    );
}

#[test]
fn forwarded_head_is_rewritten_and_stripped() {
    let r = parse_head(
        b"GET http://example.test/path HTTP/1.1\r\nHost:example.test\r\nProxy-Connection: keep-alive\r\nAccept:  */* \r\nPROXY-AUTHORIZATION: Basic eDp5\r\n\r\n",
    )
    .unwrap();
    assert_eq!(
        forward_head(&r),
        b"GET /path HTTP/1.1\r\nHost: example.test\r\nAccept: */*\r\n\r\n".to_vec()
    );
    let r = parse_head(b"POST http://example.test HTTP/1.0\r\n\r\n").unwrap();
    assert_eq!(forward_head(&r), b"POST / HTTP/1.0\r\n\r\n".to_vec());
}

#[test]
fn append_range_adds_behind_what_is_there() {
    let mut out = b"ab".to_vec();
    append_range(&mut out, b"012345", 2, 4);
    assert_eq!(out, b"ab23".to_vec());
    append_range(&mut out, b"012345", 6, 6);
    assert_eq!(out, b"ab23".to_vec());
}

#[test]
fn tunnel_requests_are_told_by_their_first_line() {
    assert!(asks_for_tunnel(b"CONNECT example.test:443 HTTP/1.1\r\n\r\n"));
    assert!(asks_for_tunnel(b"CONNECT nonsense HTTP/1.1\r\nbad header\r\n\r\n"));
    assert!(!asks_for_tunnel(b"CONNECT example.test:443 HTTP/1.1\r\n"));
    assert!(!asks_for_tunnel(b"CONNECT example.test:443\r\n\r\n"));
    assert!(!asks_for_tunnel(b"GET http://example.test/ HTTP/1.1\r\n\r\n"));
    assert!(!asks_for_tunnel(b"\r\n"));
}

