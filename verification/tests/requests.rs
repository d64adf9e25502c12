use jaringan::jrg_url::JaringanUrl;
use jaringan::protocol::{Request, RequestMethod, WireError};
use jaringan::request_wire::{finish_request, read_request_head, write_request};

#[test]
fn requests_are_written_with_host_token_and_length() {
    let url = JaringanUrl::parse("jrg://example.org:7171/actions/search").unwrap();
    let get = Request::new(url.clone());
    assert_eq!(
        write_request(&get),
        "GET jrg://example.org:7171/actions/search JRG/0.1\nHost: example.org:7171\n\n"
    );
    let post = Request::post(url, "q=é".to_string()).with_action_token("t1".to_string());
    assert_eq!(
        write_request(&post),
        "POST jrg://example.org:7171/actions/search JRG/0.1\nHost: example.org:7171\nAction-Token: t1\nContent-Length: 4\n\nq=é"
    );
}

#[test]
fn request_heads_are_read_back() {
    let head = read_request_head(
        "POST /actions/search JRG/0.1\r\nHost: example.org\r\nAction-Token:  t1 \r\nContent-Length: 7\r\n",
    )
    .unwrap();
    assert_eq!(head.method, RequestMethod::Post);
    assert_eq!(head.url.as_str(), "jrg://example.org/actions/search");
    assert_eq!(head.action_token.as_deref(), Some("t1"));
    assert_eq!(head.content_length, 7);
    let request = finish_request(head, b"q=laksa").unwrap();
    assert_eq!(request.body, "q=laksa");

    let whole = read_request_head("GET jrg://other.example/x.jrg JRG/0.1\n").unwrap();
    assert_eq!(whole.url.host(), "other.example");
    assert_eq!(whole.content_length, 0);
}

#[test]
fn malformed_request_heads_are_refused() {
    assert!(matches!(read_request_head(""), Err(WireError::BadRequest)));
    assert!(matches!(read_request_head("PUT / JRG/0.1\nHost: h\n"), Err(WireError::BadRequest)));
    assert!(matches!(read_request_head("GET\n"), Err(WireError::BadRequest)));
    assert!(matches!(read_request_head("GET /x.jrg JRG/0.1\n"), Err(WireError::BadRequest)));
    assert!(matches!(
        read_request_head("GET /x.jrg JRG/0.1\nHost: h\nContent-Length: lots\n"),
        Err(WireError::BadRequest)
    ));
    assert!(matches!(
        read_request_head("GET /x.jrg JRG/0.1\nHost: h\nContent-Length: 99999999\n"),
        Err(WireError::PayloadTooLarge)
    ));
    assert!(matches!(read_request_head("GET https://h/ JRG/0.1\n"), Err(WireError::BadRequest)));
    assert!(matches!(read_request_head("GET jrg://[bad/x JRG/0.1\n"), Err(WireError::Url(_))));
    let head = read_request_head("GET /x.jrg JRG/0.1\nHost: h\n").unwrap();
    assert!(matches!(finish_request(head, &[0xff]), Err(WireError::BadRequest)));
}
