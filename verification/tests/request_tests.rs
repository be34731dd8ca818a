use http_proxy_ipv6_pool::headers::{
    find_header, is_proxy_header, names_match, parse_header_line, strip_proxy_headers, Header,
};
use http_proxy_ipv6_pool::request::{
    copy_range, find_byte, forward_request_line, is_connect, parse_authority, parse_port,
    parse_request_line, route, ProtocolError, ProxyMode, RequestLine,
};

fn line(method: &str, target: &str, version: &str) -> RequestLine {
    RequestLine {
        method: method.as_bytes().to_vec(),
        target: target.as_bytes().to_vec(),
        version: version.as_bytes().to_vec(),
    }
}

#[test]
fn request_line_splits_into_three_parts() {
    let r = parse_request_line(b"GET http://example.test/path HTTP/1.1").unwrap();
    assert_eq!(r, line("GET", "http://example.test/path", "HTTP/1.1"));
    let r = parse_request_line(b"CONNECT example.test:443 HTTP/1.0").unwrap();
    assert_eq!(r, line("CONNECT", "example.test:443", "HTTP/1.0"));
}

#[test]
fn request_line_without_version_is_malformed() {
    assert_eq!(
        parse_request_line(b"GET http://example.test/path"),
        Err(ProtocolError::MalformedRequestLine)
    );
    assert_eq!(
        parse_request_line(b"GET http://example.test/path "),
        Err(ProtocolError::MalformedRequestLine)
    );
}

#[test]
fn request_line_edge_cases_are_malformed() {
    for bad in [
        &b""[..],
        b" ",
        b"GET",
        b" http://example.test/ HTTP/1.1",
        b"GET  HTTP/1.1",
        b"GET http://example.test/ HTTP/1.1 ",
        b"GET http://example.test/ a HTTP/1.1",
        b"GET http://example.test/ HTTP/11",
        b"GET http://example.test/ http/1.1",
        b"GET http://example.test/ HTTP/1.x",
        b"GET http://example.test/ HTTP/1.10",
    ] {
        assert_eq!(parse_request_line(bad), Err(ProtocolError::MalformedRequestLine));
    }
}

#[test]
fn find_byte_gives_the_first_position_or_the_length() {
    assert_eq!(find_byte(b"a:b:c", b':', 0), 1);
    assert_eq!(find_byte(b"a:b:c", b':', 2), 3);
    assert_eq!(find_byte(b"a:b:c", b':', 4), 5);
    assert_eq!(find_byte(b"a:b:c", b':', 9), 5);
    assert_eq!(find_byte(b"", b':', 0), 0);
}

#[test]
fn copy_range_takes_the_bytes_between() {
    assert_eq!(copy_range(b"abcdef", 1, 4), b"bcd".to_vec());
    assert_eq!(copy_range(b"abcdef", 3, 3), Vec::<u8>::new());
}

#[test]
fn port_is_one_to_five_digits_up_to_65535() {
    assert_eq!(parse_port(b"443", 0), Some(443));
    assert_eq!(parse_port(b"x:8080", 2), Some(8080));
    assert_eq!(parse_port(b"65535", 0), Some(65535));
    assert_eq!(parse_port(b"65536", 0), None);
    assert_eq!(parse_port(b"99999", 0), None);
    assert_eq!(parse_port(b"000080", 0), None);
    assert_eq!(parse_port(b"00080", 0), Some(80));
    assert_eq!(parse_port(b"0", 0), Some(0));
    assert_eq!(parse_port(b"", 0), None);
    assert_eq!(parse_port(b"80a", 0), None);
    assert_eq!(parse_port(b"-1", 0), None);
}

#[test]
fn authority_with_and_without_port() {
    let t = parse_authority(b"example.test:8080", None).unwrap();
    assert_eq!((t.host, t.port), (b"example.test".to_vec(), 8080));
    let t = parse_authority(b"example.test", Some(80)).unwrap();
    assert_eq!((t.host, t.port), (b"example.test".to_vec(), 80));
    assert_eq!(parse_authority(b"example.test", None), Err(ProtocolError::InvalidTarget));
    assert_eq!(parse_authority(b"example.test:", Some(80)), Err(ProtocolError::InvalidTarget));
    assert_eq!(parse_authority(b":80", Some(80)), Err(ProtocolError::InvalidTarget));
    assert_eq!(parse_authority(b"", Some(80)), Err(ProtocolError::InvalidTarget));
    assert_eq!(parse_authority(b"a:b:80", Some(80)), Err(ProtocolError::InvalidTarget));
}

#[test]
fn authority_with_an_address_literal() {
    let t = parse_authority(b"[2001:db8::1]:443", None).unwrap();
    assert_eq!((t.host, t.port), (b"[2001:db8::1]".to_vec(), 443));
    let t = parse_authority(b"[::1]", Some(80)).unwrap();
    assert_eq!((t.host, t.port), (b"[::1]".to_vec(), 80));
    assert_eq!(parse_authority(b"[::1", Some(80)), Err(ProtocolError::InvalidTarget));
    assert_eq!(parse_authority(b"[::1]x", Some(80)), Err(ProtocolError::InvalidTarget));
    assert_eq!(parse_authority(b"[::1]", None), Err(ProtocolError::InvalidTarget));
}

#[test]
fn connect_asks_for_a_tunnel_with_an_explicit_port() {
    let r = route(&line("CONNECT", "example.test:443", "HTTP/1.1")).unwrap();
    assert_eq!(r.mode, ProxyMode::Tunnel);
    assert_eq!(r.target.host, b"example.test".to_vec());
    assert_eq!(r.target.port, 443);
    assert_eq!(
        route(&line("CONNECT", "example.test", "HTTP/1.1")),
        Err(ProtocolError::InvalidTarget)
    );
    assert_eq!(
        route(&line("CONNECT", "http://example.test:443/", "HTTP/1.1")),
        Err(ProtocolError::InvalidTarget)
    );
}

#[test]
fn other_methods_forward_to_the_host_of_an_absolute_uri() {
    let r = route(&line("GET", "http://example.test/path", "HTTP/1.1")).unwrap();
    assert_eq!(r.mode, ProxyMode::Direct);
    assert_eq!(r.target.host, b"example.test".to_vec());
    assert_eq!(r.target.port, 80);
    let r = route(&line("POST", "http://example.test:8080", "HTTP/1.1")).unwrap();
    assert_eq!(r.mode, ProxyMode::Direct);
    assert_eq!(r.target.port, 8080);
    let r = route(&line("connect", "http://example.test:81/x:y", "HTTP/1.1")).unwrap();
    assert_eq!(r.mode, ProxyMode::Direct);
    assert_eq!(r.target.port, 81);
    for bad in ["/path", "http://", "http:///path", "https://example.test/", "example.test:80"] {
        assert_eq!(route(&line("GET", bad, "HTTP/1.1")), Err(ProtocolError::InvalidTarget));
    }
}

#[test]
fn connect_is_matched_letter_for_letter() {
    assert!(is_connect(b"CONNECT"));
    assert!(!is_connect(b"connect"));
    assert!(!is_connect(b"CONNECTS"));
    assert!(!is_connect(b""));
}

#[test]
fn forwarded_request_line_is_in_origin_form() {
    assert_eq!(
        forward_request_line(&line("GET", "http://example.test/path?q=1", "HTTP/1.1")),
        b"GET /path?q=1 HTTP/1.1".to_vec()
    );
    assert_eq!(
        forward_request_line(&line("HEAD", "http://example.test:8080", "HTTP/1.0")),
        b"HEAD / HTTP/1.0".to_vec()
    );
}

fn header(name: &str, value: &str) -> Header {
    Header { name: name.as_bytes().to_vec(), value: value.as_bytes().to_vec() }
}

#[test]
fn header_line_splits_at_the_first_colon() {
    assert_eq!(parse_header_line(b"Host: example.test:80"), Ok(header("Host", "example.test:80")));
    assert_eq!(parse_header_line(b"X-Empty:"), Ok(header("X-Empty", "")));
    assert_eq!(parse_header_line(b"X-Blank: \t "), Ok(header("X-Blank", "")));
    assert_eq!(parse_header_line(b"Accept:\t a, b \t"), Ok(header("Accept", "a, b")));
}

#[test]
fn header_line_without_a_proper_name_is_malformed() {
    for bad in [&b""[..], b"Host", b": value", b"Ho st: x", b"Host : x", b"H\x00st: x"] {
        assert_eq!(parse_header_line(bad), Err(ProtocolError::MalformedHeader));
    }
}

#[test]
fn names_match_whatever_the_case() {
    assert!(names_match(b"Content-Length", b"content-length"));
    assert!(names_match(b"", b""));
    assert!(!names_match(b"Content-Length", b"Content-Lengt"));
    assert!(!names_match(b"a[", b"a{"));
    assert!(!names_match(b"a@", b"a`"));
}

#[test]
fn proxy_headers_are_recognised() {
    assert!(is_proxy_header(b"Proxy-Connection"));
    assert!(is_proxy_header(b"proxy-authorization"));
    assert!(is_proxy_header(b"PROXY-AUTHORIZATION"));
    assert!(!is_proxy_header(b"Connection"));
    assert!(!is_proxy_header(b"Proxy-Authenticate"));
}

#[test]
fn proxy_headers_are_stripped_and_the_order_is_kept() {
    let headers = vec![
        header("Host", "example.test"),
        header("Proxy-Connection", "keep-alive"),
        header("Accept", "*/*"),
        header("proxy-authorization", "Basic eDp5"),
        header("Accept", "text/html"),
    ];
    let kept = strip_proxy_headers(&headers);
    assert_eq!(
        kept,
        vec![header("Host", "example.test"), header("Accept", "*/*"), header("Accept", "text/html")]
    );
    assert_eq!(strip_proxy_headers(&kept), kept);
    assert_eq!(strip_proxy_headers(&Vec::new()), Vec::new());
}

#[test]
fn find_header_gives_the_first_match() {
    let headers = vec![header("Host", "a"), header("Accept", "b"), header("accept", "c")];
    assert_eq!(find_header(&headers, b"ACCEPT"), Some(1));
    assert_eq!(find_header(&headers, b"host"), Some(0));
    assert_eq!(find_header(&headers, b"Cookie"), None);
}
