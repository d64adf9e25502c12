use jaringan::proxy::{extract_host, parse_routes};

#[test]
fn routes_by_host_header() {
    let routes = parse_routes(&[
        "search.simonharms.xyz=127.0.0.1:9001".into(),
        "jrg.simonharms.xyz=127.0.0.1:9002".into(),
    ]);
    assert_eq!(routes.get("search.simonharms.xyz"), Some(&"127.0.0.1:9001".into()));
    assert_eq!(routes.get("jrg.simonharms.xyz"), Some(&"127.0.0.1:9002".into()));
    assert!(routes.get("other.example.com").is_none());
}

#[test]
fn routes_are_case_insensitive() {
    let routes = parse_routes(&["Search.SimonHarms.XYZ=127.0.0.1:9001".into()]);
    assert!(routes.contains_key("search.simonharms.xyz"));
    assert!(!routes.contains_key("SEARCH.SIMONHARMS.XYZ"));
}

#[test]
fn malformed_routes_are_skipped() {
    let routes = parse_routes(&["valid.example=127.0.0.1:9001".into(), "no-equals-sign".into()]);
    assert_eq!(routes.len(), 1);
    assert!(routes.contains_key("valid.example"));
}

#[test]
fn host_extraction_strips_port() {
    assert_eq!(extract_host(b"GET / JRG/0.1\r\nHost: example.com:7070\r\n\r\n"), Some("example.com".into()));
}

#[test]
fn host_extraction_works_without_port() {
    assert_eq!(extract_host(b"GET / JRG/0.1\r\nHost: example.com\r\n\r\n"), Some("example.com".into()));
}

#[test]
fn host_extraction_is_case_insensitive() {
    assert_eq!(extract_host(b"GET / JRG/0.1\r\nhost: example.com\r\n\r\n"), Some("example.com".into()));
}

#[test]
fn later_routes_replace_earlier_ones() {
    let routes = parse_routes(&[" a.example = 1 ".into(), "".into(), "A.EXAMPLE=2".into()]);
    assert_eq!(routes.len(), 1);
    assert_eq!(routes.get("a.example"), Some(&"2".to_string()));
}

#[test]
fn host_extraction_stops_at_the_blank_line_and_rejects_bad_utf8() {
    assert_eq!(extract_host(b"GET / JRG/0.1\r\n\r\nHost: late.example\r\n"), None);
    assert_eq!(extract_host(&[0xff, 0xfe]), None);
    assert_eq!(extract_host(b"X\nHost: [::1]:80\n"), Some("[::1]".into()));
}

#[test]
fn only_a_port_is_stripped_from_the_host() {
    assert_eq!(extract_host(b"GET / JRG/0.1\r\nHost: [::1]\r\n\r\n"), Some("[::1]".into()));
    assert_eq!(extract_host(b"GET / JRG/0.1\r\nHost: [::1]:7070\r\n\r\n"), Some("[::1]".into()));
    assert_eq!(extract_host(b"GET / JRG/0.1\r\nHost: example.com:http\r\n\r\n"), Some("example.com:http".into()));
}
