use localhost::config::ServerConfig;
use localhost::errors::ServerError;
use localhost::handlers::{
    cgi_script_path, check_custom_errors, critical_error_response_pieces, delete_body_unreadable,
    delete_file_name, error_page_requested, error_page_status, error_response, force_status,
    generate_uploads_html, handle_cgi, internal_error_response, route_request, static_decision,
    plan_uploads, static_file_response, static_target, step_status, upload_file_name,
    uploaded_file_decision, uploaded_file_path, uploaded_file_response, uploads_method_check,
    uploads_page_response, RouteKind, StaticStep, UploadsAction,
};
use localhost::request::{Header, Request};
use localhost::response::Response;

fn strs(v: &[&str]) -> Vec<String> {
    v.iter().map(|s| s.to_string()).collect()
}

fn pairs(hs: &Vec<Header>) -> Vec<(String, String)> {
    hs.iter().map(|h| (h.name.clone(), h.value.clone())).collect()
}

fn p(a: &str, b: &str) -> (String, String) {
    (a.to_string(), b.to_string())
}

fn config() -> ServerConfig {
    ServerConfig {
        server_name: "localhost".to_string(),
        ports: strs(&["8080"]),
        server_address: "127.0.0.1".to_string(),
        client_body_size: 100,
        static_files_prefix: "site".to_string(),
        default_file: "index.html".to_string(),
        error_pages_prefix: "errors".to_string(),
        uploads_methods: strs(&["GET", "POST"]),
        routes: Vec::new(),
    }
}

fn request_with(headers: &[(&str, &str)]) -> Request {
    Request {
        method: "POST".to_string(),
        path: "/uploads".to_string(),
        headers: headers
            .iter()
            .map(|(n, v)| Header { name: n.to_string(), value: v.to_string() })
            .collect(),
        body: Vec::new(),
    }
}

#[test]
fn routing_by_path() {
    match route_request("/cgi/useless.py/some/path") {
        RouteKind::Cgi { script, check_path } => {
            assert_eq!(script, "useless.py");
            assert_eq!(check_path, "some/path");
        },
        _ => panic!("cgi expected"),
    }
    match route_request("/cgi/useless.py") {
        RouteKind::Cgi { check_path, .. } => assert_eq!(check_path, ""),
        _ => panic!("cgi expected"),
    }
    assert!(matches!(route_request("/uploads"), RouteKind::Uploads));
    assert!(matches!(route_request("/redirected"), RouteKind::Redirected));
    match route_request("/uploads/a.txt") {
        RouteKind::UploadedFile(f) => assert_eq!(f, "a.txt"),
        _ => panic!("uploaded file expected"),
    }
    assert!(matches!(route_request("/uploads/a/b"), RouteKind::Other));
    assert!(matches!(route_request("/index.html"), RouteKind::Other));
    assert!(matches!(route_request("uploads"), RouteKind::Other));
    assert!(matches!(route_request("/cgi/other.py/x"), RouteKind::Other));
}

#[test]
fn error_pages_by_last_segment() {
    let (is_page, last) = error_page_requested(&"a/b/404.html".chars().collect());
    assert!(is_page);
    assert_eq!(last.iter().collect::<String>(), "404.html");
    let (is_page, last) = error_page_requested(&"a/index.html".chars().collect());
    assert!(!is_page);
    assert_eq!(last.iter().collect::<String>(), "index.html");
}

#[test]
fn static_targets() {
    let c = config();
    let t = static_target("/uploads/404.html", &c, "/srv");
    assert_eq!(t.path_str, "404.html");
    assert!(t.is_error_page);
    assert_eq!(t.relative, "static/errors/404.html");
    assert_eq!(t.absolute, "/srv/static/errors/404.html");
    let t = static_target("/css/site.css", &c, "/srv");
    assert_eq!(t.path_str, "css/site.css");
    assert!(!t.is_error_page);
    assert_eq!(t.relative, "static/site/css/site.css");
    assert_eq!(t.absolute, "/srv/static/site/css/site.css");
}

#[test]
fn static_decisions() {
    let mut c = config();
    c.set_route("css/site.css".to_string(), strs(&["GET"]));
    let t = static_target("/css/site.css", &c, "/srv");
    assert!(matches!(static_decision(&t, "GET", false, true, &c), StaticStep::ReadFile));
    assert!(matches!(static_decision(&t, "POST", false, true, &c), StaticStep::MethodNotAllowed));
    assert!(matches!(static_decision(&t, "GET", false, false, &c), StaticStep::NotFound));
    assert!(matches!(static_decision(&t, "GET", true, false, &c), StaticStep::DefaultFile));
    assert!(matches!(static_decision(&t, "DELETE", true, false, &c), StaticStep::Forbidden));
    let unrouted = static_target("/other.css", &c, "/srv");
    assert!(matches!(static_decision(&unrouted, "GET", false, true, &c), StaticStep::NotFound));
    let page = static_target("/404.html", &c, "/srv");
    assert!(matches!(static_decision(&page, "GET", false, true, &c), StaticStep::ReadFile));
    assert!(matches!(static_decision(&page, "POST", false, true, &c), StaticStep::MethodNotAllowed));
    let dir = static_target("/docs/", &c, "/srv");
    assert!(matches!(static_decision(&dir, "GET", false, false, &c), StaticStep::DefaultFile));
}

#[test]
fn statuses_of_error_pages() {
    assert_eq!(error_page_status("400.html"), 400);
    assert_eq!(error_page_status("403.html"), 403);
    assert_eq!(error_page_status("404.html"), 404);
    assert_eq!(error_page_status("405.html"), 405);
    assert_eq!(error_page_status("413.html"), 413);
    assert_eq!(error_page_status("500.html"), 500);
    assert_eq!(error_page_status("index.html"), 200);
    let c = config();
    assert_eq!(force_status("/srv", "/srv/static/errors/404.html", &c), 404);
    assert_eq!(force_status("/srv", "/srv/static/errors/500.html", &c), 500);
    assert_eq!(force_status("/srv", "/srv/static/site/404.html", &c), 200);
}

#[test]
fn static_files_are_sent_with_their_type_and_status() {
    let c = config();
    let t = static_target("/404.html", &c, "/srv");
    let r = static_file_response("sid=1".to_string(), Some(b"nf".to_vec()), "/srv", &t, &c, None);
    assert_eq!(r.status, 404);
    assert_eq!(pairs(&r.headers), vec![p("set-cookie", "sid=1"), p("content-type", "text/html")]);
    assert_eq!(r.body, b"nf".to_vec());
    let t = static_target("/a.css", &c, "/srv");
    let r = static_file_response("sid=1".to_string(), Some(b"x{}".to_vec()), "/srv", &t, &c, None);
    assert_eq!(r.status, 200);
    assert_eq!(pairs(&r.headers), vec![p("set-cookie", "sid=1"), p("content-type", "text/css")]);
    let t = static_target("/a.zzzqq", &c, "/srv");
    let r = static_file_response("sid=1".to_string(), Some(b"x".to_vec()), "/srv", &t, &c, None);
    assert_eq!(pairs(&r.headers)[1], p("content-type", "text/plain"));
    let r = static_file_response("sid=1".to_string(), None, "/srv", &t, &c, Some(b"five".to_vec()));
    assert_eq!(r.status, 500);
    assert_eq!(r.body, b"five".to_vec());
}

#[test]
fn uploaded_files() {
    assert_eq!(uploaded_file_path("/srv", "a.txt"), "/srv/uploads/a.txt");
    assert!(matches!(uploaded_file_decision("/uploads/a.txt", "GET", false, true), StaticStep::ReadFile));
    assert!(matches!(uploaded_file_decision("/uploads/a.txt", "POST", false, true), StaticStep::MethodNotAllowed));
    assert!(matches!(uploaded_file_decision("/uploads/a.txt", "GET", false, false), StaticStep::NotFound));
    assert!(matches!(uploaded_file_decision("/uploads/d", "GET", true, false), StaticStep::DefaultFile));
    assert!(matches!(uploaded_file_decision("/uploads/d/", "PUT", false, false), StaticStep::Forbidden));
    let r = uploaded_file_response("sid=1".to_string(), Some(b"t".to_vec()), "/srv/uploads/a.txt", None);
    assert_eq!(r.status, 200);
    assert_eq!(pairs(&r.headers), vec![p("set-cookie", "sid=1"), p("content-type", "text/plain")]);
}

#[test]
fn uploads_methods() {
    let c = config();
    assert!(!uploads_method_check("GET", &c));
    assert!(!uploads_method_check("POST", &c));
    assert!(uploads_method_check("DELETE", &c));
    assert!(uploads_method_check("PUT", &c));
}

#[test]
fn upload_names_come_from_the_header() {
    match upload_file_name(&request_with(&[("x-file-name", "report.pdf")])) {
        Ok(n) => assert_eq!(n, "report.pdf"),
        Err(_) => panic!("name expected"),
    }
    match upload_file_name(&request_with(&[("x-file-name", "a__b.txt")])) {
        Ok(n) => assert_eq!(n, "a_b.txt"),
        Err(_) => panic!("name expected"),
    }
    assert!(matches!(upload_file_name(&request_with(&[])), Err(ServerError::HeadersKeyNotFound)));
    assert!(matches!(
        upload_file_name(&request_with(&[("x-file-name", "caf\u{e9}.txt")])),
        Err(ServerError::HeadersFailedToParse)
    ));
}

#[test]
fn delete_bodies() {
    assert!(delete_body_unreadable(&b"file".to_vec()));
    assert!(delete_body_unreadable(&b"x=1&file".to_vec()));
    assert!(!delete_body_unreadable(&b"file=a.txt".to_vec()));
    assert!(!delete_body_unreadable(&vec![0xff]));
    match delete_file_name(&b"x=1&file=b.txt&file=c".to_vec()) {
        Ok(n) => assert_eq!(n, "b.txt"),
        Err(_) => panic!("name expected"),
    }
    match delete_file_name(&b"x=1".to_vec()) {
        Ok(n) => assert_eq!(n, ""),
        Err(_) => panic!("empty name expected"),
    }
    assert!(matches!(delete_file_name(&vec![0xff, 0x00]), Err(ServerError::BadRequest)));
}

#[test]
fn uploads_page() {
    let html = generate_uploads_html(&strs(&["a.txt", ".gitignore", "CON", "b__c.txt"]));
    assert!(html.starts_with(
        "<h1>Uploads</h1><ul>\n<li>\n<button onclick=\"deleteFile('a.txt')\">Delete</button>\n<a href=\"/uploads/a.txt\">a.txt</a>\n</li>\n</ul>\n  <form"
    ));
    assert!(!html.contains("gitignore"));
    assert!(!html.contains("CON"));
    assert!(!html.contains("b__c"));
    assert!(html.contains("uploadForm"));
    let empty = generate_uploads_html(&Vec::new());
    assert!(empty.starts_with("<h1>Uploads</h1><ul>\n</ul>"));
    let r = uploads_page_response("sid=1".to_string(), html.clone(), None);
    assert_eq!(r.status, 200);
    assert_eq!(pairs(&r.headers), vec![p("content-type", "text/html"), p("set-cookie", "sid=1")]);
    assert_eq!(r.body, html.into_bytes());
}

#[test]
fn cgi_replies() {
    assert_eq!(cgi_script_path("useless.py"), "cgi/useless.py");
    let r = handle_cgi("sid=1".to_string(), Ok(b"hello".to_vec()), None);
    assert_eq!(r.status, 200);
    assert_eq!(pairs(&r.headers), vec![p("content-type", "text/plain"), p("set-cookie", "sid=1")]);
    assert_eq!(r.body, b"Hello from Rust and Python3: hello\n\n".to_vec());
    let r = handle_cgi("sid=1".to_string(), Ok(b" \n ".to_vec()), None);
    assert_eq!(r.body, b"Hello from Rust and Python3: Empty output from cgi python3 script\n\n".to_vec());
    let r = handle_cgi("sid=1".to_string(), Ok(vec![0xff]), None);
    assert_eq!(
        r.body,
        b"Hello from Rust and Python3: Failed to convert cgi output to str. invalid utf-8 sequence of 1 bytes from index 0\n\n".to_vec()
    );
    let r = handle_cgi("sid=1".to_string(), Err("boom".to_string()), None);
    assert_eq!(r.body, b"Hello from Rust and Python3: Failed to get cgi output. boom\n\n".to_vec());
    let r = handle_cgi("bad\u{1}".to_string(), Ok(b"x".to_vec()), Some(b"five".to_vec()));
    assert_eq!(r.status, 500);
    assert!(r.headers.is_empty());
}

#[test]
fn errors_are_answered_with_their_pages() {
    let r = error_response(ServerError::BodySizeLimit, "sid=1".to_string(), Some(b"big".to_vec()), None);
    assert_eq!(r.status, 413);
    assert_eq!(r.body, b"big".to_vec());
    let r = error_response(ServerError::HeadersInvalidCookie, "sid=1".to_string(), Some(b"bad".to_vec()), None);
    assert_eq!(r.status, 400);
    let r = error_response(ServerError::InternalServerError, "sid=1".to_string(), Some(b"x".to_vec()), Some(b"five".to_vec()));
    assert_eq!(r.status, 500);
    assert_eq!(r.body, b"five".to_vec());
    let r = error_response(ServerError::BadRequest, "sid=1".to_string(), None, Some(b"five".to_vec()));
    assert_eq!(r.status, 500);
    assert_eq!(pairs(&r.headers), vec![p("content-type", "text/html"), p("set-cookie", "sid=1")]);
}

#[test]
fn custom_errors_replace_the_response() {
    let mut r = Response { status: 200, headers: Vec::new(), body: b"ok".to_vec() };
    check_custom_errors(None, "sid=1".to_string(), None, None, &mut r);
    assert_eq!(r.status, 200);
    assert_eq!(r.body, b"ok".to_vec());
    check_custom_errors(Some(ServerError::HeadersKeyNotFound), "sid=1".to_string(), Some(b"400".to_vec()), None, &mut r);
    assert_eq!(r.status, 400);
    assert_eq!(r.body, b"400".to_vec());
}

#[test]
fn critical_and_plain_500() {
    let pieces = critical_error_response_pieces(500);
    assert_eq!(
        pieces,
        vec![
            b"HTTP/1.1 500 Internal Server Error: edge case\r\n".to_vec(),
            b"\r\n".to_vec(),
            b"Internal Server Error: edge case".to_vec(),
            b"WTF".to_vec(),
        ]
    );
    let r = internal_error_response();
    assert_eq!(r.status, 500);
    assert!(r.headers.is_empty());
    assert_eq!(r.body, b"Internal Server Error".to_vec());
}

#[test]
fn steps_answered_with_error_pages() {
    assert_eq!(step_status(&StaticStep::Forbidden), Some(403));
    assert_eq!(step_status(&StaticStep::NotFound), Some(404));
    assert_eq!(step_status(&StaticStep::MethodNotAllowed), Some(405));
    assert_eq!(step_status(&StaticStep::DefaultFile), None);
    assert_eq!(step_status(&StaticStep::ReadFile), None);
}

fn uploads_request(method: &str, headers: &[(&str, &str)], body: &[u8]) -> Request {
    let mut r = request_with(headers);
    r.method = method.to_string();
    r.body = body.to_vec();
    r
}

#[test]
fn uploads_plans() {
    let mut c = config();
    c.uploads_methods = strs(&["GET", "POST", "DELETE"]);
    let get = uploads_request("GET", &[], b"");
    assert!(matches!(plan_uploads(&get, false, &c), UploadsAction::ServerFault));
    assert!(matches!(plan_uploads(&get, true, &c), UploadsAction::List));
    let put = uploads_request("PUT", &[], b"");
    assert!(matches!(plan_uploads(&put, true, &c), UploadsAction::Refuse(405)));
    let post = uploads_request("POST", &[("x-file-name", "a b.txt")], b"data");
    match plan_uploads(&post, true, &c) {
        UploadsAction::Store(n) => assert_eq!(n, "a_b.txt"),
        _ => panic!("store expected"),
    }
    let nameless = uploads_request("POST", &[], b"data");
    assert!(matches!(plan_uploads(&nameless, true, &c), UploadsAction::Refuse(400)));
    let delete = uploads_request("DELETE", &[], b"file=a.txt");
    match plan_uploads(&delete, true, &c) {
        UploadsAction::Remove(n) => assert_eq!(n, "a.txt"),
        _ => panic!("removal expected"),
    }
    let binary = uploads_request("DELETE", &[], &[0xff]);
    assert!(matches!(plan_uploads(&binary, true, &c), UploadsAction::Refuse(400)));
    let limited = config();
    assert!(matches!(plan_uploads(&delete, true, &limited), UploadsAction::Refuse(405)));
}

#[test]
fn an_uploaded_name_routes_back_to_its_file() {
    for raw in ["report.pdf", "my file.txt", "a/b.txt", "", "../x"] {
        let name = match upload_file_name(&request_with(&[("x-file-name", raw)])) {
            Ok(n) => n,
            Err(_) => panic!("name expected"),
        };
        assert!(!name.is_empty() && !name.contains('/'));
        match route_request(&format!("/uploads/{}", name)) {
            RouteKind::UploadedFile(f) => assert_eq!(f, name),
            _ => panic!("uploaded file expected"),
        }
        let path = format!("/uploads/{}", name);
        assert!(matches!(uploaded_file_decision(&path, "GET", false, true), StaticStep::ReadFile));
        assert_eq!(uploaded_file_path("/srv", &name), format!("/srv/uploads/{}", name));
    }
}
