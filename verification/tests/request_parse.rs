use localhost::request::{
    bytes_of, get_header, parse_raw_request, parse_raw_request_checked, parse_request_line,
    read_header_lines, set_header, Header, RequestError, RequestLineError,
};

fn header(n: &str, v: &str) -> Header {
    Header { name: n.to_string(), value: v.to_string() }
}

fn pairs(hs: &Vec<Header>) -> Vec<(String, String)> {
    hs.iter().map(|h| (h.name.clone(), h.value.clone())).collect()
}

fn cs(s: &str) -> Vec<char> {
    s.chars().collect()
}

#[test]
fn request_line_gives_method_and_path() {
    let l = parse_request_line("GET /index.html HTTP/1.1").ok().unwrap();
    assert_eq!(l.method, "GET");
    assert_eq!(l.path, "/index.html");
    let l = parse_request_line("  POST   /uploads?x=1   http/1.1 \r").ok().unwrap();
    assert_eq!(l.method, "POST");
    assert_eq!(l.path, "/uploads");
    let l = parse_request_line("GET http://example.com/a/b HTTP/1.1").ok().unwrap();
    assert_eq!(l.path, "/a/b");
}

#[test]
fn request_line_errors() {
    assert!(matches!(parse_request_line("GET /"), Err(RequestLineError::PartCount)));
    assert!(matches!(parse_request_line(""), Err(RequestLineError::PartCount)));
    assert!(matches!(parse_request_line("GET / HTTP/1.1 extra"), Err(RequestLineError::PartCount)));
    assert!(matches!(parse_request_line("G(T / HTTP/1.1"), Err(RequestLineError::Method)));
    assert!(matches!(parse_request_line("GET /a\u{1}b HTTP/1.1"), Err(RequestLineError::Uri)));
    assert!(matches!(parse_request_line("GET / HTTP/1.0"), Err(RequestLineError::Version)));
    assert!(matches!(parse_request_line("GET / HTTP/2"), Err(RequestLineError::Version)));
}

#[test]
fn set_header_then_get_header_reads_it_back() {
    let mut hs: Vec<Header> = Vec::new();
    set_header(&mut hs, "host".to_string(), "a".to_string());
    set_header(&mut hs, "cookie".to_string(), "x=1".to_string());
    set_header(&mut hs, "host".to_string(), "b".to_string());
    assert_eq!(get_header(&hs, "host"), Some("b".to_string()));
    assert_eq!(get_header(&hs, "cookie"), Some("x=1".to_string()));
    assert_eq!(get_header(&hs, "missing"), None);
    assert_eq!(
        pairs(&hs),
        vec![("host".to_string(), "b".to_string()), ("cookie".to_string(), "x=1".to_string())]
    );
}

#[test]
fn header_lines_up_to_the_empty_line() {
    let lines = vec![
        cs("GET / HTTP/1.1"),
        cs("Host: example.com"),
        cs("no separator here"),
        cs("X-Pad:   spaced value  "),
        cs(""),
        cs("Ignored: after"),
    ];
    let hs = read_header_lines(&lines).ok().unwrap();
    assert_eq!(
        pairs(&hs),
        vec![
            ("host".to_string(), "example.com".to_string()),
            ("x-pad".to_string(), "spaced value".to_string()),
        ]
    );
}

#[test]
fn raw_request_is_parsed() {
    let raw = bytes_of("GET /index.html HTTP/1.1\nHost: example.com\nX-Test:  v  \nHost: second\n\nbody line 1\nline 2\n");
    let r = parse_raw_request(raw).ok().unwrap();
    assert_eq!(r.method, "GET");
    assert_eq!(r.path, "/index.html");
    assert_eq!(
        pairs(&r.headers),
        vec![("host".to_string(), "second".to_string()), ("x-test".to_string(), "v".to_string())]
    );
    assert_eq!(r.body, b"body line 1\nline 2".to_vec());
}

#[test]
fn raw_request_with_crlf_lines() {
    let raw = bytes_of("POST /uploads HTTP/1.1\r\nHost: a\r\nX-File-Name: f.txt\r\n\r\nxyz");
    let r = parse_raw_request(raw).ok().unwrap();
    assert_eq!(r.method, "POST");
    assert_eq!(r.path, "/uploads");
    assert_eq!(get_header(&r.headers, "host"), Some("a".to_string()));
    assert_eq!(get_header(&r.headers, "x-file-name"), Some("f.txt".to_string()));
    assert_eq!(r.body, b"xyz".to_vec());
}

#[test]
fn raw_request_errors() {
    assert!(matches!(parse_raw_request(Vec::new()), Err(RequestError::Empty)));
    let bad_name = bytes_of("GET / HTTP/1.1\nBad Name: x\n\n");
    assert!(matches!(parse_raw_request(bad_name), Err(RequestError::InvalidHeaderName)));
    let bad_value = bytes_of("GET / HTTP/1.1\nX-A: a\u{1}b\n\n");
    assert!(matches!(parse_raw_request(bad_value), Err(RequestError::InvalidHeaderValue)));
}

#[test]
fn checked_parse_refuses_what_cannot_be_parsed() {
    assert!(parse_raw_request_checked(vec![0xff, 0xfe]).is_none());
    assert!(parse_raw_request_checked(bytes_of("nonsense\n\n")).is_none());
    assert!(matches!(parse_raw_request_checked(Vec::new()), Some(Err(RequestError::Empty))));
    match parse_raw_request_checked(bytes_of("DELETE /uploads HTTP/1.1\n\nfile=a.txt")) {
        Some(Ok(r)) => {
            assert_eq!(r.method, "DELETE");
            assert_eq!(r.body, b"file=a.txt".to_vec());
            assert!(r.headers.is_empty());
        },
        _ => panic!("request expected"),
    }
}

#[test]
fn bytes_of_is_utf8() {
    assert_eq!(bytes_of("aé"), vec![0x61, 0xc3, 0xa9]);
    assert!(bytes_of("").is_empty());
}
