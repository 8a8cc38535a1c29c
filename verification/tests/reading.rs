use localhost::config::ServerConfig;
use localhost::errors::ServerError;
use localhost::reading::{
    body_progress, char_index_of_byte, char_width_exec, content_length_allowed,
    headers_buffer_complete, plan_body, plan_body_checked, read_body_mode, utf8_size_of_prefix,
    BodyMode, BodyProgress,
};

fn config(name: &str, ports: &[&str], prefix: &str) -> ServerConfig {
    ServerConfig {
        server_name: name.to_string(),
        ports: ports.iter().map(|s| s.to_string()).collect(),
        server_address: "127.0.0.1".to_string(),
        client_body_size: 100,
        static_files_prefix: prefix.to_string(),
        default_file: "index.html".to_string(),
        error_pages_prefix: "errors".to_string(),
        uploads_methods: Vec::new(),
        routes: Vec::new(),
    }
}

#[test]
fn header_section_ends_with_an_empty_line() {
    assert!(headers_buffer_complete(&b"GET / HTTP/1.1\r\n\r\n".to_vec()));
    assert!(headers_buffer_complete(&b"\r\n\r\n".to_vec()));
    assert!(!headers_buffer_complete(&b"GET / HTTP/1.1\r\n".to_vec()));
    assert!(!headers_buffer_complete(&b"\n\n\n\n".to_vec()));
    assert!(!headers_buffer_complete(&b"\r\n\r".to_vec()));
}

#[test]
fn utf8_widths_and_offsets() {
    assert_eq!(char_width_exec('a'), 1);
    assert_eq!(char_width_exec('\u{e9}'), 2);
    assert_eq!(char_width_exec('\u{20ac}'), 3);
    assert_eq!(char_width_exec('\u{1f600}'), 4);
    let s: Vec<char> = "a\u{e9}b".chars().collect();
    assert_eq!(utf8_size_of_prefix(&s, 0), 0);
    assert_eq!(utf8_size_of_prefix(&s, 2), 3);
    assert_eq!(utf8_size_of_prefix(&s, 3), 4);
    assert_eq!(char_index_of_byte(&s, 3), Some(2));
    assert_eq!(char_index_of_byte(&s, 2), None);
    assert_eq!(char_index_of_byte(&s, 4), Some(3));
    assert_eq!(char_index_of_byte(&s, 5), None);
}

#[test]
fn body_modes() {
    let m = read_body_mode(&b"POST / HTTP/1.1\r\nContent-Length: 12\r\n\r\n".to_vec());
    assert!(matches!(m, Some(BodyMode::Unchunked(12))));
    let m = read_body_mode(&b"POST / HTTP/1.1\r\ncontent-length:  7 \r\n\r\n".to_vec());
    assert!(matches!(m, Some(BodyMode::Unchunked(7))));
    let m = read_body_mode(&b"POST / HTTP/1.1\r\ncontent-length: 7 \r\n\r\n".to_vec());
    assert!(matches!(m, Some(BodyMode::Unchunked(7))));
    let m = read_body_mode(&b"POST / HTTP/1.1\r\nContent-Length: 0\r\n\r\n".to_vec());
    assert!(matches!(m, Some(BodyMode::NoBody)));
    let m = read_body_mode(&b"GET / HTTP/1.1\r\nHost: a\r\n\r\n".to_vec());
    assert!(matches!(m, Some(BodyMode::NoBody)));
    let m = read_body_mode(&b"POST / HTTP/1.1\r\nTransfer-Encoding: chunked\r\n\r\n".to_vec());
    assert!(matches!(m, Some(BodyMode::Chunked)));
    let m = read_body_mode(&b"POST / HTTP/1.1\r\nTransfer-Encoding: chunked\r\nContent-Length: 5\r\n\r\n".to_vec());
    assert!(matches!(m, Some(BodyMode::Chunked)));
}

#[test]
fn unreadable_lengths() {
    let m = read_body_mode(&b"POST / HTTP/1.1\r\nContent-Length: abc\r\n\r\n".to_vec());
    assert!(matches!(m, Some(BodyMode::Unreadable(ServerError::HeadersFailedToParse))));
    let m = read_body_mode(&b"POST / HTTP/1.1\r\nContent-Length: 5".to_vec());
    assert!(matches!(m, Some(BodyMode::Unreadable(ServerError::InternalServerError))));
}

#[test]
fn body_plan_chooses_configuration_and_mode() {
    let cs = vec![config("a", &["80"], "pa"), config("b", &["81"], "pb")];
    let buf = b"POST / HTTP/1.1\r\nHost: b:81\r\nContent-Length: 3\r\n\r\n".to_vec();
    let p = plan_body(&buf, cs);
    assert_eq!(p.config.static_files_prefix, "pb");
    assert!(matches!(p.mode, BodyMode::Unchunked(3)));
    let cs = vec![config("a", &["80"], "pa"), config("b", &["81"], "pb")];
    let p = plan_body_checked(&b"GET / HTTP/1.1\r\n\r\n".to_vec(), cs).unwrap();
    assert_eq!(p.config.static_files_prefix, "pa");
    assert!(matches!(p.mode, BodyMode::NoBody));
    assert!(plan_body_checked(&b"GET / HTTP/1.1\r\n\r\n".to_vec(), Vec::new()).is_none());
    let no_port = vec![config("a", &[], "pa")];
    assert!(plan_body_checked(&b"GET / HTTP/1.1\r\n\r\n".to_vec(), no_port).is_none());
}

#[test]
fn body_limits_and_progress() {
    assert!(content_length_allowed(100, 100));
    assert!(content_length_allowed(0, 100));
    assert!(!content_length_allowed(101, 100));
    assert!(matches!(body_progress(5, 5), BodyProgress::Complete));
    assert!(matches!(body_progress(6, 5), BodyProgress::TooLong));
    assert!(matches!(body_progress(4, 5), BodyProgress::Incomplete));
}
