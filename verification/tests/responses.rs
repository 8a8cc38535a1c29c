use localhost::request::Header;
use localhost::response::{
    custom_response_4xx, custom_response_500, error_page_name, handle_redirected,
    hardcoded_response_500, response_default_static_file, response_into_bytes, Response,
};

fn pairs(hs: &Vec<Header>) -> Vec<(String, String)> {
    hs.iter().map(|h| (h.name.clone(), h.value.clone())).collect()
}

fn p(a: &str, b: &str) -> (String, String) {
    (a.to_string(), b.to_string())
}

fn response(status: u16, headers: &[(&str, &str)], body: &[u8]) -> Response {
    Response {
        status,
        headers: headers
            .iter()
            .map(|(n, v)| Header { name: n.to_string(), value: v.to_string() })
            .collect(),
        body: body.to_vec(),
    }
}

#[test]
fn serialised_response_has_status_line_headers_and_body() {
    let r = response(200, &[("content-type", "text/html"), ("set-cookie", "a=1")], b"hi");
    assert_eq!(
        response_into_bytes(r),
        b"HTTP/1.1 200 OK OK\r\ncontent-type: text/html\r\nset-cookie: a=1\r\n\r\nhi".to_vec()
    );
}

#[test]
fn serialised_error_statuses_keep_their_codes() {
    let r = response(404, &[], b"missing");
    assert_eq!(response_into_bytes(r), b"HTTP/1.1 404 Not Found Not Found\r\n\r\nmissing".to_vec());
    let r = response(413, &[], b"");
    assert_eq!(
        response_into_bytes(r),
        b"HTTP/1.1 413 Payload Too Large Payload Too Large\r\n\r\n".to_vec()
    );
    let r = response(405, &[], b"");
    assert_eq!(
        response_into_bytes(r),
        b"HTTP/1.1 405 Method Not Allowed Method Not Allowed\r\n\r\n".to_vec()
    );
}

#[test]
fn other_statuses_are_written_as_200() {
    let r = response(303, &[("location", "/uploads")], b"x");
    assert_eq!(
        response_into_bytes(r),
        b"HTTP/1.1 200 OK OK\r\nlocation: /uploads\r\n\r\nx".to_vec()
    );
    let r = response(201, &[], b"");
    assert_eq!(response_into_bytes(r), b"HTTP/1.1 200 OK OK\r\n\r\n".to_vec());
}

#[test]
fn a_header_value_that_is_not_visible_text_makes_a_500() {
    let r = response(200, &[("a", "x"), ("b", "caf\u{e9}"), ("c", "y")], b"body");
    let mut expected = b"HTTP/1.1 500 Internal Server Error Internal Server Error: incorrect header value\r\na: x\r\nContent-Type: text/plain\r\n\r\nbody".to_vec();
    expected.extend_from_slice(b"\n\nInternal Server Error: incorrect header value");
    assert_eq!(response_into_bytes(r), expected);
}

#[test]
fn hardcoded_500() {
    let r = hardcoded_response_500("sid=1".to_string());
    assert_eq!(r.status, 500);
    assert_eq!(pairs(&r.headers), vec![p("content-type", "text/plain"), p("set-cookie", "sid=1")]);
    assert_eq!(
        r.body,
        b"Hardcoded status 500. Internal Server Error. Custom error 500 response failed. \n\n".to_vec()
    );
    let r = hardcoded_response_500("bad\u{1}cookie".to_string());
    assert_eq!(r.status, 500);
    assert!(r.headers.is_empty());
    assert_eq!(
        r.body,
        b"Fatal Internal Server Error.\nFailed to create hardcoded error 500 response.\nStatus 500 does not set properly".to_vec()
    );
}

#[test]
fn custom_500_uses_the_page_when_there_is_one() {
    let r = custom_response_500("sid=1".to_string(), Some(b"<h1>500</h1>".to_vec()));
    assert_eq!(r.status, 500);
    assert_eq!(pairs(&r.headers), vec![p("content-type", "text/html"), p("set-cookie", "sid=1")]);
    assert_eq!(r.body, b"<h1>500</h1>".to_vec());
    let r = custom_response_500("sid=1".to_string(), None);
    assert_eq!(pairs(&r.headers)[0], p("content-type", "text/plain"));
    assert_eq!(r.status, 500);
}

#[test]
fn client_error_pages() {
    for code in [400u16, 403, 404, 405, 413] {
        let r = custom_response_4xx("sid=1".to_string(), code, Some(b"page".to_vec()), None);
        assert_eq!(r.status, code);
        assert_eq!(pairs(&r.headers), vec![p("content-type", "text/html")]);
        assert_eq!(r.body, b"page".to_vec());
    }
    let r = custom_response_4xx("sid=1".to_string(), 418, Some(b"page".to_vec()), Some(b"five".to_vec()));
    assert_eq!(r.status, 500);
    assert_eq!(r.body, b"five".to_vec());
    let r = custom_response_4xx("sid=1".to_string(), 404, None, Some(b"five".to_vec()));
    assert_eq!(r.status, 500);
    assert_eq!(r.body, b"five".to_vec());
}

#[test]
fn default_static_file() {
    let r = response_default_static_file("sid=1".to_string(), Some(b"index".to_vec()), None);
    assert_eq!(r.status, 200);
    assert_eq!(pairs(&r.headers), vec![p("content-type", "text/html"), p("set-cookie", "sid=1")]);
    assert_eq!(r.body, b"index".to_vec());
    let r = response_default_static_file("sid=1".to_string(), None, Some(b"five".to_vec()));
    assert_eq!(r.status, 500);
    assert_eq!(r.body, b"five".to_vec());
}

#[test]
fn error_page_names_and_redirection() {
    assert_eq!(error_page_name(404), "404.html");
    assert_eq!(error_page_name(500), "500.html");
    let r = handle_redirected();
    assert_eq!(r.status, 303);
    assert_eq!(pairs(&r.headers), vec![p("location", "/uploads")]);
    let body = String::from_utf8(r.body).unwrap();
    assert!(body.starts_with("<!DOCTYPE html>"));
    assert!(body.contains("url=/uploads"));
}

#[test]
fn the_500_page_always_has_status_500() {
    for cookie in ["sid=1", "bad\u{1}"] {
        assert_eq!(custom_response_500(cookie.to_string(), None).status, 500);
        assert_eq!(custom_response_500(cookie.to_string(), Some(b"p".to_vec())).status, 500);
        assert_eq!(hardcoded_response_500(cookie.to_string()).status, 500);
    }
}
