use localhost::config::{
    add_static_routes, contains_string, contains_usize, copy_strings, get_usize_unique_ports,
    ip_port_to_token, PortsError, Route, ServerConfig,
};

fn strs(v: &[&str]) -> Vec<String> {
    v.iter().map(|s| s.to_string()).collect()
}

fn config(name: &str, ports: &[&str]) -> ServerConfig {
    ServerConfig {
        server_name: name.to_string(),
        ports: strs(ports),
        server_address: "127.0.0.1".to_string(),
        client_body_size: 1024,
        static_files_prefix: "site".to_string(),
        default_file: "index.html".to_string(),
        error_pages_prefix: "errors".to_string(),
        uploads_methods: strs(&["GET", "POST", "DELETE"]),
        routes: Vec::new(),
    }
}

#[test]
fn check_drops_bad_and_repeated_ports() {
    let mut c = config("a", &["8080", "x", "8080", "70000", "+8081", "080", "-1", "80"]);
    c.check();
    assert_eq!(c.ports, strs(&["8080", "8081", "80"]));
    assert_eq!(c.server_name, "a");
    assert_eq!(c.client_body_size, 1024);
}

#[test]
fn check_twice_changes_nothing_more() {
    let mut c = config("a", &["+0", "00", "65535", "65536", "1"]);
    c.check();
    let once = c.ports.clone();
    assert_eq!(once, strs(&["0", "65535", "1"]));
    c.check();
    assert_eq!(c.ports, once);
}

#[test]
fn check_on_no_ports_keeps_none() {
    let mut c = config("a", &[]);
    c.check();
    assert!(c.ports.is_empty());
    let mut d = config("b", &["http", ""]);
    d.check();
    assert!(d.ports.is_empty());
}

#[test]
fn unique_ports_across_configs_in_first_occurrence_order() {
    let cs = vec![config("a", &["8080", "8081"]), config("b", &["8081", "+80", "8080"])];
    match get_usize_unique_ports(&cs) {
        Ok(ps) => assert_eq!(ps, vec![8080, 8081, 80]),
        Err(_) => panic!("ports expected"),
    }
}

#[test]
fn unique_ports_refuse_an_invalid_port() {
    let cs = vec![config("a", &["8080"]), config("b", &["80", "99999", "bad"])];
    match get_usize_unique_ports(&cs) {
        Err(PortsError::InvalidPort(p)) => assert_eq!(p, "99999"),
        _ => panic!("invalid port expected"),
    }
}

#[test]
fn unique_ports_need_at_least_one_port() {
    let cs = vec![config("a", &[]), config("b", &[])];
    assert!(matches!(get_usize_unique_ports(&cs), Err(PortsError::NoPorts)));
    assert!(matches!(get_usize_unique_ports(&Vec::new()), Err(PortsError::NoPorts)));
}

#[test]
fn set_route_replaces_or_appends() {
    let mut c = config("a", &["80"]);
    c.set_route("/a".to_string(), strs(&["GET"]));
    c.set_route("/b".to_string(), strs(&["POST"]));
    c.set_route("/a".to_string(), strs(&["GET", "DELETE"]));
    assert_eq!(c.routes.len(), 2);
    assert_eq!(c.routes[0].path, "/a");
    assert_eq!(c.routes[0].methods, strs(&["GET", "DELETE"]));
    assert_eq!(c.routes[1].path, "/b");
    assert_eq!(c.route_methods("/a"), Some(strs(&["GET", "DELETE"])));
    assert_eq!(c.route_methods("/b"), Some(strs(&["POST"])));
    assert_eq!(c.route_methods("/c"), None);
}

#[test]
fn static_routes_allow_get_only() {
    let mut c = config("a", &["80"]);
    c.routes.push(Route { path: "index.html".to_string(), methods: strs(&["GET", "POST"]) });
    add_static_routes(&mut c, &strs(&["index.html", "css/style.css"]));
    assert_eq!(c.route_methods("index.html"), Some(strs(&["GET"])));
    assert_eq!(c.route_methods("css/style.css"), Some(strs(&["GET"])));
    assert_eq!(c.routes.len(), 2);
}

#[test]
fn copies_are_equal() {
    let c = config("a", &["80", "81"]);
    let d = c.copy();
    assert_eq!(d.server_name, c.server_name);
    assert_eq!(d.ports, c.ports);
    assert_eq!(d.uploads_methods, c.uploads_methods);
    assert_eq!(copy_strings(&strs(&["x", "y"])), strs(&["x", "y"]));
    let r = Route { path: "/p".to_string(), methods: strs(&["GET"]) }.copy();
    assert_eq!(r.path, "/p");
}

#[test]
fn membership_helpers() {
    assert!(contains_string(&strs(&["a", "b"]), &"b".to_string()));
    assert!(!contains_string(&strs(&["a", "b"]), &"c".to_string()));
    assert!(contains_usize(&vec![1, 2, 3], 2));
    assert!(!contains_usize(&vec![], 2));
}

#[test]
fn listener_tokens_concatenate_character_codes() {
    // '1' is 49, '.' is 46, ':' is 58, '8' is 56
    assert_eq!(ip_port_to_token("1:8"), Ok(495856));
    assert_eq!(ip_port_to_token("1.1"), Ok(494649));
    match ip_port_to_token("0.0.0.0:8080") {
        Err(digits) => assert_eq!(digits, "484648464846485856485648"),
        Ok(_) => panic!("too long for a usize"),
    }
    assert!(ip_port_to_token("").is_err());
}

#[test]
fn check_leaves_a_clean_port_list_unchanged() {
    let mut c = config("a", &["443", "80", "0", "65535"]);
    c.check();
    assert_eq!(c.ports, strs(&["443", "80", "0", "65535"]));
}
