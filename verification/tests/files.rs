use localhost::config::ServerConfig;
use localhost::errors::{error_status_exec, ServerError};
use localhost::files::{bad_file_name, error_pages_list, required_file_paths, sanitise_file_name};

fn config(errors: &str, site: &str, default: &str) -> ServerConfig {
    ServerConfig {
        server_name: "s".to_string(),
        ports: vec!["80".to_string()],
        server_address: "127.0.0.1".to_string(),
        client_body_size: 1,
        static_files_prefix: site.to_string(),
        default_file: default.to_string(),
        error_pages_prefix: errors.to_string(),
        uploads_methods: Vec::new(),
        routes: Vec::new(),
    }
}

#[test]
fn the_six_error_pages() {
    assert_eq!(
        error_pages_list(),
        vec!["400.html", "403.html", "404.html", "405.html", "413.html", "500.html"]
    );
}

#[test]
fn file_names_are_sanitised() {
    assert_eq!(sanitise_file_name("xyz"), "xyz");
    assert_eq!(sanitise_file_name("report.pdf"), "report.pdf");
    assert_eq!(sanitise_file_name("CON"), "CON_");
    assert_eq!(sanitise_file_name(""), "_");
    assert_eq!(sanitise_file_name("a__b"), "a_b");
    assert_eq!(sanitise_file_name("my file.txt"), "my_file.txt");
    assert!(!sanitise_file_name("a b c").contains(' '));
}

#[test]
fn bad_names_are_those_that_sanitising_changes() {
    assert!(!bad_file_name("xyz"));
    assert!(!bad_file_name("a_b.txt"));
    assert!(bad_file_name("CON"));
    assert!(bad_file_name("a__b"));
    assert!(bad_file_name("my file.txt"));
    assert!(bad_file_name(""));
}

#[test]
fn required_files_in_check_order() {
    let cs = vec![config("e1", "s1", "index.html"), config("e2", "s2", "home.html")];
    let paths = required_file_paths(&cs);
    let mut expected = vec!["cgi/useless.py".to_string()];
    for (e, s, d) in [("e1", "s1", "index.html"), ("e2", "s2", "home.html")] {
        for p in ["400.html", "403.html", "404.html", "405.html", "413.html", "500.html"] {
            expected.push(format!("static/{}/{}", e, p));
        }
        expected.push(format!("static/{}/{}", s, d));
    }
    assert_eq!(paths, expected);
    assert_eq!(required_file_paths(&Vec::new()), vec!["cgi/useless.py".to_string()]);
}

#[test]
fn error_statuses() {
    assert_eq!(error_status_exec(ServerError::BodySizeLimit), 413);
    assert_eq!(error_status_exec(ServerError::InternalServerError), 500);
    assert_eq!(error_status_exec(ServerError::BadRequest), 400);
    assert_eq!(error_status_exec(ServerError::HeadersReadTimeout), 400);
    assert_eq!(error_status_exec(ServerError::BodyBufferLengthIsBiggerThanContentLength), 400);
}
