use localhost::number::{decimal_chars, parse_bounded, parse_u16, parse_usize};
use localhost::text::{
    append_chars, chars_of, ends_with_exec, eq_chars, find, is_whitespace, join_lines_from,
    join_sep_from, matches_at_exec, replace_all_exec, replace_first_exec, slice_of,
    split_on_char, split_on_str, split_once_exec, split_whitespace, starts_with_exec,
    string_of, to_ascii_uppercase, trim_chars,
};

fn cs(s: &str) -> Vec<char> {
    s.chars().collect()
}

fn text(v: &Vec<char>) -> String {
    v.iter().collect()
}

fn texts(v: &Vec<Vec<char>>) -> Vec<String> {
    v.iter().map(|p| p.iter().collect()).collect()
}

#[test]
fn parse_u16_reads_ports() {
    assert_eq!(parse_u16(&cs("8080")), Some(8080));
    assert_eq!(parse_u16(&cs("0")), Some(0));
    assert_eq!(parse_u16(&cs("65535")), Some(65535));
    assert_eq!(parse_u16(&cs("+80")), Some(80));
    assert_eq!(parse_u16(&cs("007")), Some(7));
}

#[test]
fn parse_u16_refuses_what_from_str_refuses() {
    assert_eq!(parse_u16(&cs("65536")), None);
    assert_eq!(parse_u16(&cs("")), None);
    assert_eq!(parse_u16(&cs("+")), None);
    assert_eq!(parse_u16(&cs("-1")), None);
    assert_eq!(parse_u16(&cs("12a")), None);
    assert_eq!(parse_u16(&cs(" 80")), None);
    assert_eq!(parse_u16(&cs("++1")), None);
}

#[test]
fn parse_bounded_respects_the_bound() {
    assert_eq!(parse_bounded(&cs("100"), 100), Some(100));
    assert_eq!(parse_bounded(&cs("101"), 100), None);
    assert_eq!(parse_usize(&cs("123456789")), Some(123456789));
    let max = usize::MAX.to_string();
    assert_eq!(parse_usize(&cs(&max)), Some(usize::MAX));
    let over = format!("{}0", max);
    assert_eq!(parse_usize(&cs(&over)), None);
}

#[test]
fn decimal_chars_renders_like_to_string() {
    assert_eq!(text(&decimal_chars(0)), "0");
    assert_eq!(text(&decimal_chars(7)), "7");
    assert_eq!(text(&decimal_chars(1234)), "1234");
    assert_eq!(text(&decimal_chars(u64::MAX)), u64::MAX.to_string());
}

#[test]
fn rendering_then_parsing_gives_the_number_back() {
    for n in [0u64, 9, 10, 80, 443, 8080, 65535] {
        assert_eq!(parse_u16(&decimal_chars(n)), Some(n as u16));
        assert_eq!(parse_usize(&decimal_chars(n)), Some(n as usize));
    }
}

#[test]
fn chars_and_strings_round_trip() {
    assert_eq!(chars_of("héllo"), cs("héllo"));
    assert_eq!(string_of(&cs("héllo")), "héllo");
    assert_eq!(string_of(&Vec::new()), "");
}

#[test]
fn whitespace_is_unicode_white_space() {
    assert!(is_whitespace(' '));
    assert!(is_whitespace('\t'));
    assert!(is_whitespace('\r'));
    assert!(is_whitespace('\u{a0}'));
    assert!(!is_whitespace('a'));
    assert!(!is_whitespace('_'));
}

#[test]
fn trim_and_slices() {
    assert_eq!(text(&trim_chars(&cs("  a b \t\r\n"))), "a b");
    assert_eq!(text(&trim_chars(&cs("   "))), "");
    assert_eq!(text(&slice_of(&cs("abcdef"), 1, 4)), "bcd");
}

#[test]
fn splitting_at_a_char_keeps_empty_pieces() {
    assert_eq!(texts(&split_on_char(&cs("a,b,,c"), ',')), vec!["a", "b", "", "c"]);
    assert_eq!(texts(&split_on_char(&cs(""), ',')), vec![""]);
    assert_eq!(texts(&split_on_char(&cs("/uploads"), '/')), vec!["", "uploads"]);
}

#[test]
fn splitting_at_whitespace_drops_empty_pieces() {
    assert_eq!(
        texts(&split_whitespace(&cs("  GET   /index.html\tHTTP/1.1 "))),
        vec!["GET", "/index.html", "HTTP/1.1"]
    );
    assert!(split_whitespace(&cs(" \t ")).is_empty());
}

#[test]
fn finding_text() {
    assert_eq!(find(&cs("hello world"), &cs("o w")), Some(4));
    assert_eq!(find(&cs("hello world"), &cs("o")), Some(4));
    assert_eq!(find(&cs("abc"), &cs("x")), None);
    assert_eq!(find(&cs("abc"), &cs("")), Some(0));
    assert!(matches_at_exec(&cs("abcd"), &cs("cd"), 2));
    assert!(!matches_at_exec(&cs("abcd"), &cs("cd"), 1));
    assert!(starts_with_exec(&cs("/path"), &cs("/")));
    assert!(!starts_with_exec(&cs("path"), &cs("/")));
    assert!(ends_with_exec(&cs("dir/"), &cs("/")));
    assert!(!ends_with_exec(&cs("file"), &cs("/")));
    assert!(eq_chars(&cs("GET"), &cs("GET")));
    assert!(!eq_chars(&cs("GET"), &cs("get")));
}

#[test]
fn splitting_at_text() {
    assert_eq!(texts(&split_on_str(&cs("a; b; c"), &cs("; "))), vec!["a", "b", "c"]);
    assert_eq!(texts(&split_on_str(&cs("abc"), &cs("; "))), vec!["abc"]);
    assert_eq!(texts(&split_once_exec(&cs("Host: a: b"), &cs(": "))), vec!["Host", "a: b"]);
    assert_eq!(texts(&split_once_exec(&cs("no separator"), &cs(": "))), vec!["no separator"]);
}

#[test]
fn replacing_text() {
    assert_eq!(text(&replace_all_exec(&cs("a  b c"), &cs(" "), &cs("_"))), "a__b_c");
    assert_eq!(text(&replace_all_exec(&cs("a___b"), &cs("__"), &cs("_"))), "a__b");
    assert_eq!(
        text(&replace_first_exec(&cs("/uploads/uploads/x"), &cs("uploads/"), &cs(""))),
        "/uploads/x"
    );
    assert_eq!(text(&replace_first_exec(&cs("abc"), &cs("x"), &cs("y"))), "abc");
}

#[test]
fn upper_case_and_joins() {
    assert_eq!(text(&to_ascii_uppercase(&cs("http/1.1 é"))), "HTTP/1.1 é");
    let lines = vec![cs("a"), cs("b"), cs("c")];
    assert_eq!(text(&join_lines_from(&lines, 0)), "a\nb\nc");
    assert_eq!(text(&join_lines_from(&lines, 1)), "b\nc");
    assert_eq!(text(&join_lines_from(&lines, 3)), "");
    let parts = vec![cs(""), cs("cgi"), cs("x"), cs("y")];
    assert_eq!(text(&join_sep_from(&parts, 2, '/')), "x/y");
    let mut r = cs("ab");
    append_chars(&mut r, &cs("cd"));
    assert_eq!(text(&r), "abcd");
}
