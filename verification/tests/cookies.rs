use localhost::cookie::{current_moment, Cookie, Moment, Server};
use localhost::request::{Header, Request};

fn at(secs: u64) -> Moment {
    Moment { secs, nanos: 0 }
}

fn sent(pair: &str, expires: u64) -> String {
    format!("{}; Expires={}; HttpOnly; Path=/", pair, expires)
}

fn names(s: &Server) -> Vec<String> {
    s.cookies.iter().map(|c| c.name.clone()).collect()
}

fn request_with_cookie(v: Option<&str>) -> Request {
    let mut headers = Vec::new();
    if let Some(t) = v {
        headers.push(Header { name: "cookie".to_string(), value: t.to_string() });
    }
    Request { method: "GET".to_string(), path: "/".to_string(), headers, body: Vec::new() }
}

fn server_with(cookies: &[(&str, &str, u64)]) -> Server {
    let mut s = Server::new(at(0));
    for (n, v, life) in cookies {
        s.set_cookie_at(n.to_string(), v.to_string(), *life, at(1000));
    }
    s
}

fn is_uuid(t: &str) -> bool {
    t.len() == 36
        && t.char_indices().all(|(i, c)| {
            if i == 8 || i == 13 || i == 18 || i == 23 {
                c == '-'
            } else {
                c.is_ascii_digit() || ('a'..='f').contains(&c)
            }
        })
}

#[test]
fn cookie_expiry_and_text() {
    let c = Cookie { name: "id".to_string(), value: "42".to_string(), expires: 100 };
    assert!(!c.is_expired_at(at(99)));
    assert!(!c.is_expired_at(at(100)));
    assert!(c.is_expired_at(Moment { secs: 100, nanos: 1 }));
    assert!(c.is_expired_at(at(101)));
    assert_eq!(c.to_string(), sent("id=42", 100));
    assert_eq!(c.copy().value, "42");
    assert!(c.is_expired());
}

#[test]
fn a_new_server_has_no_cookies() {
    let s = Server::new(Moment { secs: 5, nanos: 7 });
    assert!(s.cookies.is_empty());
    assert_eq!(s.cookies_check_time.secs, 5);
    assert_eq!(s.cookies_check_time.nanos, 7);
    assert!(s.get_cookie("x").is_none());
}

#[test]
fn a_stored_cookie_is_found_again() {
    let mut s = Server::new(at(0));
    let c = s.set_cookie_at("a".to_string(), "1".to_string(), 60, at(1000));
    assert_eq!(c.expires, 1060);
    let found = s.get_cookie("a").unwrap();
    assert_eq!(found.value, "1");
    assert_eq!(found.expires, 1060);
    s.set_cookie_at("a".to_string(), "2".to_string(), 5, at(2000));
    assert_eq!(s.cookies.len(), 1);
    assert_eq!(s.get_cookie("a").unwrap().value, "2");
    assert_eq!(s.get_cookie("a").unwrap().expires, 2005);
}

#[test]
fn send_cookie_sends_the_stored_one_or_a_fresh_one() {
    let mut s = server_with(&[("a", "1", 60)]);
    let t = s.send_cookie_at("a".to_string(), at(1010), "f".to_string(), "g".to_string());
    assert_eq!(t, sent("a=1", 1060));
    assert_eq!(names(&s), vec!["a"]);
    let t = s.send_cookie_at("b".to_string(), at(1010), "f".to_string(), "g".to_string());
    assert_eq!(t, sent("f=g", 1070));
    assert_eq!(names(&s), vec!["a", "f"]);
    assert_eq!(s.get_cookie("f").unwrap().expires, 1070);
}

#[test]
fn the_sweep_keeps_exactly_the_unexpired_cookies() {
    let mut s = server_with(&[("a", "1", 60), ("b", "2", 1000), ("c", "3", 10)]);
    s.check_expired_cookies_at(at(1061));
    assert_eq!(names(&s), vec!["b"]);
    assert_eq!(s.cookies_check_time.secs, 1121);
}

#[test]
fn no_sweep_before_the_check_time() {
    let mut s = server_with(&[("a", "1", 60)]);
    s.cookies_check_time = at(5000);
    s.check_expired_cookies_at(at(2000));
    assert_eq!(names(&s), vec!["a"]);
    assert_eq!(s.cookies_check_time.secs, 2060);
}

#[test]
fn expiry_check_by_name() {
    let mut s = server_with(&[("a", "1", 60), ("b", "2", 1000)]);
    assert!(s.is_cookie_expired_at("missing", at(1000)));
    assert!(!s.is_cookie_expired_at("b", at(1500)));
    assert!(s.is_cookie_expired_at("a", at(1500)));
    assert_eq!(names(&s), vec!["b"]);
}

#[test]
fn cookie_header_missing_gets_a_fresh_cookie() {
    let mut s = server_with(&[("a", "1", 60)]);
    let (t, ok) = s.extract_cookies_at(&request_with_cookie(None), at(1000), "n".to_string(), "v".to_string());
    assert_eq!(t, sent("n=v", 1060));
    assert!(ok);
    assert_eq!(names(&s), vec!["a", "n"]);
}

#[test]
fn cookie_header_with_the_stored_cookie_is_answered_with_it() {
    let mut s = server_with(&[("a", "1", 60)]);
    let (t, ok) = s.extract_cookies_at(&request_with_cookie(Some("a=1")), at(1000), "n".to_string(), "v".to_string());
    assert_eq!(t, sent("a=1", 1060));
    assert!(ok);
    assert_eq!(names(&s), vec!["a"]);
    let (t, ok) = s.extract_cookies_at(&request_with_cookie(Some(" other=9; a=1 ")), at(1000), "n".to_string(), "v".to_string());
    assert_eq!(t, sent("a=1", 1060));
    assert!(ok);
}

#[test]
fn cookie_header_with_a_wrong_value_is_refused() {
    let mut s = server_with(&[("a", "1", 60)]);
    let (t, ok) = s.extract_cookies_at(&request_with_cookie(Some("a=2")), at(1000), "n".to_string(), "v".to_string());
    assert_eq!(t, sent("n=v", 1060));
    assert!(!ok);
    assert_eq!(names(&s), vec!["a", "n"]);
}

#[test]
fn cookie_header_with_two_stored_cookies_is_refused() {
    let mut s = server_with(&[("a", "1", 60), ("b", "2", 60)]);
    let (t, ok) = s.extract_cookies_at(&request_with_cookie(Some("a=1; b=2")), at(1000), "n".to_string(), "v".to_string());
    assert_eq!(t, sent("n=v", 1060));
    assert!(!ok);
}

#[test]
fn cookie_header_with_unknown_or_expired_cookies_gets_a_fresh_one() {
    let mut s = server_with(&[("a", "1", 60)]);
    let (t, ok) = s.extract_cookies_at(&request_with_cookie(Some("zzz=1")), at(1000), "n".to_string(), "v".to_string());
    assert_eq!(t, sent("n=v", 1060));
    assert!(ok);
    let mut s = server_with(&[("a", "1", 60)]);
    let (t, ok) = s.extract_cookies_at(&request_with_cookie(Some("a=1")), at(2000), "n".to_string(), "v".to_string());
    assert_eq!(t, sent("n=v", 2060));
    assert!(ok);
    assert_eq!(names(&s), vec!["n"]);
}

#[test]
fn unreadable_cookie_header_is_refused() {
    let mut s = server_with(&[("a", "1", 60)]);
    let (t, ok) = s.extract_cookies_at(&request_with_cookie(Some("a=\u{e9}")), at(1000), "n".to_string(), "v".to_string());
    assert_eq!(t, sent("n=v", 1060));
    assert!(!ok);
}

#[test]
fn clock_based_cookies_use_fresh_uuids() {
    let mut s = Server::new(current_moment());
    let c = s.set_cookie("a".to_string(), "1".to_string(), 3600).unwrap();
    assert_eq!(c.name, "a");
    assert!(!s.is_cookie_expired("a"));
    assert!(s.is_cookie_expired("missing"));
    let stored = s.send_cookie("a".to_string()).unwrap();
    assert!(stored.starts_with("a=1; Expires=") && stored.ends_with("; HttpOnly; Path=/"));
    let fresh = s.send_cookie("b".to_string()).unwrap();
    let (n, v) = fresh.split("; ").next().unwrap().split_once('=').unwrap();
    assert!(is_uuid(n) && is_uuid(v));
    let (t, ok) = s.extract_cookies_from_request_or_provide_new(&request_with_cookie(None)).unwrap();
    assert!(ok);
    let (n, v) = t.split("; ").next().unwrap().split_once('=').unwrap();
    assert!(is_uuid(n) && is_uuid(v));
    assert!(s.get_cookie(n).is_some());
    assert!(s.check_expired_cookies());
    assert!(s.get_cookie("a").is_some());
}

#[test]
fn an_issued_cookie_sent_back_alone_is_recognised() {
    let n = "67e55044-10b1-426f-9247-bb680e5fe0c8";
    let v = "0f1e2d3c-4b5a-4978-8695-a4b3c2d1e0f9";
    let mut s = Server::new(at(0));
    s.set_cookie_at("other".to_string(), "x".to_string(), 600, at(1000));
    s.set_cookie_at(n.to_string(), v.to_string(), 60, at(1000));
    let header = format!("{}={}", n, v);
    let (t, ok) = s.extract_cookies_at(&request_with_cookie(Some(&header)), at(1030), "f".to_string(), "g".to_string());
    assert_eq!(t, sent(&header, 1060));
    assert!(ok);
    assert_eq!(names(&s), vec!["other", n]);
    let (t, ok) = s.extract_cookies_at(&request_with_cookie(Some(&header)), at(1061), "f".to_string(), "g".to_string());
    assert_eq!(t, sent("f=g", 1121));
    assert!(ok);
    assert_eq!(names(&s), vec!["other", "f"]);
}
