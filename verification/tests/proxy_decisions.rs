use jaringan::proxy::{
    backend_unreachable, body_limit, error_response, parse_content_length, parse_routes, route_request, ProxyDecision,
};

fn reject(status: u16, reason: &str, message: &str) -> ProxyDecision {
    ProxyDecision::Reject { status, reason: reason.to_string(), message: message.to_string() }
}

fn forward(backend: &str) -> ProxyDecision {
    ProxyDecision::Forward { backend: backend.to_string() }
}

#[test]
fn content_length_is_read_from_the_head() {
    assert_eq!(parse_content_length(b"POST / HTTP/1.1\r\nHost: a\r\ncontent-LENGTH: 12\r\n\r\n"), Some(12));
    assert_eq!(parse_content_length(b"GET / HTTP/1.1\r\nHost: a\r\n\r\nContent-Length: 5\r\n"), None);
    assert_eq!(parse_content_length(b"POST / HTTP/1.1\r\nContent-Length: x\r\nContent-Length: 3\r\n\r\n"), None);
    assert_eq!(parse_content_length(b"POST / \xff\r\nContent-Length: 3\r\n\r\n"), None);
}

#[test]
fn requests_are_routed_by_lower_cased_host() {
    let routes = parse_routes(&["search.example=127.0.0.1:9001".into()]);
    let head = b"GET / JRG/0.1\r\nHost: SEARCH.Example:7070\r\n\r\n";
    assert_eq!(route_request(head, 0, false, &routes, false, "127.0.0.1:7070"), forward("127.0.0.1:9001"));
    let other = b"GET / JRG/0.1\r\nHost: other.example\r\n\r\n";
    assert_eq!(
        route_request(other, 0, false, &routes, false, "127.0.0.1:7070"),
        reject(503, "Service Unavailable", "service not available")
    );
    assert_eq!(route_request(other, 0, false, &routes, true, "127.0.0.1:7070"), forward("127.0.0.1:7070"));
    assert_eq!(route_request(b"GET / JRG/0.1\r\n\r\n", 0, false, &routes, true, "d:1"), forward("d:1"));
}

#[test]
fn oversized_heads_and_short_bodies_are_refused() {
    let routes = parse_routes(&["a=127.0.0.1:1".into()]);
    let head = b"POST / HTTP/1.1\r\nHost: a\r\nContent-Length: 10\r\n\r\n";
    assert_eq!(
        route_request(head, 0, true, &routes, false, ""),
        reject(413, "Payload Too Large", "request head exceeds size limit")
    );
    assert_eq!(route_request(head, 9, false, &routes, false, ""), reject(400, "Bad Request", "incomplete request body"));
    assert_eq!(route_request(head, 10, false, &routes, false, ""), forward("127.0.0.1:1"));
    assert_eq!(backend_unreachable(), reject(502, "Bad Gateway", "service unavailable"));
}

#[test]
fn error_answers_and_body_limits() {
    assert_eq!(
        error_response(503, "Service Unavailable", "service not available"),
        "HTTP/1.1 503 Service Unavailable\r\nContent-Type: text/plain; charset=utf-8\r\nContent-Length: 21\r\nConnection: close\r\n\r\nservice not available"
    );
    let head = b"POST / HTTP/1.1\r\nContent-Length: 100\r\n\r\n";
    assert_eq!(body_limit(head, 1000), 100);
    assert_eq!(body_limit(head, 10), 40);
    assert_eq!(body_limit(b"GET / HTTP/1.1\r\n\r\n", 10), 0);
}
