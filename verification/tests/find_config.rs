use localhost::config::ServerConfig;
use localhost::find::{
    config_matches_exec, header_value_to_str_ok, request_headers_from_buffer, select_config_exec,
    server_config, server_config_from_headers_buffer_checked,
    server_config_from_headers_buffer_or_use_default,
};
use localhost::request::{Header, Request};

fn strs(v: &[&str]) -> Vec<String> {
    v.iter().map(|s| s.to_string()).collect()
}

fn cs(s: &str) -> Vec<char> {
    s.chars().collect()
}

fn config(name: &str, ports: &[&str], address: &str, prefix: &str) -> ServerConfig {
    ServerConfig {
        server_name: name.to_string(),
        ports: strs(ports),
        server_address: address.to_string(),
        client_body_size: 10,
        static_files_prefix: prefix.to_string(),
        default_file: "index.html".to_string(),
        error_pages_prefix: "errors".to_string(),
        uploads_methods: strs(&["GET"]),
        routes: Vec::new(),
    }
}

fn configs() -> Vec<ServerConfig> {
    vec![
        config("localhost", &["8080"], "127.0.0.1", "c0"),
        config("example.com", &["80", "8080"], "10.0.0.1", "c1"),
        config("other", &["9000"], "127.0.0.1", "c2"),
    ]
}

fn request_with_host(host: Option<&str>) -> Request {
    let mut headers = Vec::new();
    if let Some(h) = host {
        headers.push(Header { name: "host".to_string(), value: h.to_string() });
    }
    Request { method: "GET".to_string(), path: "/".to_string(), headers, body: Vec::new() }
}

#[test]
fn host_by_name_or_address() {
    assert_eq!(server_config(&request_with_host(Some("example.com:80")), configs()).static_files_prefix, "c1");
    assert_eq!(server_config(&request_with_host(Some("example.com:8080")), configs()).static_files_prefix, "c1");
    assert_eq!(server_config(&request_with_host(Some("10.0.0.1:80")), configs()).static_files_prefix, "c1");
    assert_eq!(server_config(&request_with_host(Some("127.0.0.1:9000")), configs()).static_files_prefix, "c2");
    assert_eq!(server_config(&request_with_host(Some("127.0.0.1:8080")), configs()).static_files_prefix, "c0");
}

#[test]
fn unknown_host_gets_the_first_configuration() {
    assert_eq!(server_config(&request_with_host(Some("nowhere:1")), configs()).static_files_prefix, "c0");
    assert_eq!(server_config(&request_with_host(Some("example.com")), configs()).static_files_prefix, "c0");
}

#[test]
fn the_last_matching_configuration_wins() {
    let mut cs4 = configs();
    cs4.push(config("localhost", &["8080"], "0.0.0.0", "c3"));
    assert_eq!(server_config(&request_with_host(Some("localhost:8080")), cs4).static_files_prefix, "c3");
}

#[test]
fn missing_or_unreadable_host_uses_the_default_host() {
    let mut cs4 = configs();
    cs4.push(config("localhost", &["8080"], "0.0.0.0", "c3"));
    // the default host is "localhost:8080", which the last configuration serves
    let copy: Vec<ServerConfig> = cs4.iter().map(|c| c.copy()).collect();
    assert_eq!(server_config(&request_with_host(None), cs4).static_files_prefix, "c3");
    assert_eq!(server_config(&request_with_host(Some("caf\u{e9}")), copy).static_files_prefix, "c3");
}

#[test]
fn selection_by_index() {
    let cs3 = configs();
    assert_eq!(select_config_exec(&cs3, &cs("other:9000")), 2);
    assert_eq!(select_config_exec(&cs3, &cs("nope")), 0);
    assert!(config_matches_exec(&cs3[1], &cs("10.0.0.1:8080")));
    assert!(!config_matches_exec(&cs3[1], &cs("10.0.0.1:9000")));
}

#[test]
fn visible_header_values() {
    assert!(header_value_to_str_ok(&cs("a b\tc~")));
    assert!(!header_value_to_str_ok(&cs("caf\u{e9}")));
    assert!(!header_value_to_str_ok(&cs("a\u{7f}")));
    assert!(header_value_to_str_ok(&cs("")));
}

#[test]
fn configuration_from_a_header_section() {
    let buf = b"GET / HTTP/1.1\r\nHost: other:9000\r\n\r\n".to_vec();
    let hs = request_headers_from_buffer(&buf).unwrap();
    assert_eq!(hs.len(), 1);
    assert_eq!(hs[0].name, "host");
    assert_eq!(hs[0].value, "other:9000");
    assert_eq!(server_config_from_headers_buffer_or_use_default(&buf, configs()).static_files_prefix, "c2");
    let unreadable = b"garbage\r\n\r\n".to_vec();
    assert!(request_headers_from_buffer(&unreadable).is_none());
    assert_eq!(
        server_config_from_headers_buffer_or_use_default(&unreadable, configs()).static_files_prefix,
        "c0"
    );
    assert!(request_headers_from_buffer(&vec![0xff]).is_none());
}

#[test]
fn checked_selection_refuses_impossible_inputs() {
    let buf = b"GET / HTTP/1.1\r\n\r\n".to_vec();
    assert!(server_config_from_headers_buffer_checked(&buf, Vec::new()).is_none());
    let no_ports = vec![config("a", &[], "127.0.0.1", "p0"), config("b", &["80"], "127.0.0.1", "p1")];
    assert!(server_config_from_headers_buffer_checked(&buf, no_ports).is_none());
    let no_ports = vec![config("a", &[], "127.0.0.1", "p0"), config("b", &["80"], "127.0.0.1", "p1")];
    let with_host = b"GET / HTTP/1.1\r\nHost: b:80\r\n\r\n".to_vec();
    assert_eq!(
        server_config_from_headers_buffer_checked(&with_host, no_ports).unwrap().static_files_prefix,
        "p1"
    );
    assert_eq!(server_config_from_headers_buffer_checked(&buf, configs()).unwrap().static_files_prefix, "c0");
}
