use jaringan::jrg_to_http::JrgToHttpResolver;
use jaringan::jrg_url::{JaringanUrl, UrlError};
use jaringan::protocol::{Request, RequestMethod};

#[test]
fn parses_jrg_urls() {
    let url = JaringanUrl::parse("jrg://example.org/docs/start").unwrap();

    assert_eq!(url.host(), "example.org");
    assert_eq!(url.path(), "/docs/start");
}

#[test]
fn rejects_other_schemes() {
    let error = JaringanUrl::parse("https://example.org").unwrap_err();

    assert!(matches!(error, UrlError::UnsupportedScheme(scheme) if scheme == "https"));
}

#[test]
fn rejects_legacy_jar_scheme() {
    let error = JaringanUrl::parse("jar://example.org/docs/start").unwrap_err();

    assert!(matches!(error, UrlError::UnsupportedScheme(scheme) if scheme == "jar"));
}

#[test]
fn supports_query_strings_and_fragments() {
    let url = JaringanUrl::parse("jrg://example.org/search.jrg?q=terminal#results").unwrap();

    assert_eq!(url.host(), "example.org");
    assert_eq!(url.path(), "/search.jrg");
    assert_eq!(url.query(), Some("q=terminal"));
    assert_eq!(url.fragment(), Some("results"));
}

#[test]
fn resolves_relative_links_like_html_anchors() {
    let base = JaringanUrl::parse("jrg://example.org/docs/start.jrg?old=1#top").unwrap();

    assert_eq!(
        base.resolve("guide/intro.jrg?mode=ai#install").unwrap().as_str(),
        "jrg://example.org/docs/guide/intro.jrg?mode=ai#install"
    );
    assert_eq!(base.resolve("../about.jrg").unwrap().as_str(), "jrg://example.org/about.jrg");
    assert_eq!(
        base.resolve("#section-two").unwrap().as_str(),
        "jrg://example.org/docs/start.jrg?old=1#section-two"
    );
}

#[test]
fn test_is_gateway_url() {
    let http_url = JaringanUrl::parse("jrg://http/example.com").unwrap();
    assert!(JrgToHttpResolver::is_gateway_url(&http_url));

    let https_url = JaringanUrl::parse("jrg://https.example.com/page").unwrap();
    assert!(JrgToHttpResolver::is_gateway_url(&https_url));
}

#[test]
fn test_extract_http_url_basic() {
    let url = JaringanUrl::parse("jrg://http/example.com").unwrap();
    assert_eq!(JrgToHttpResolver::extract_http_url(&url).unwrap(), "http://example.com");

    let url = JaringanUrl::parse("jrg://https.example.com/page").unwrap();
    assert_eq!(JrgToHttpResolver::extract_http_url(&url).unwrap(), "https://example.com/page");
}

#[test]
fn test_extract_http_url_preserves_port() {
    let url = JaringanUrl::parse("jrg://https.example.com:8443/path").unwrap();
    assert_eq!(
        JrgToHttpResolver::extract_http_url(&url).unwrap(),
        "https://example.com:8443/path"
    );

    let url = JaringanUrl::parse("jrg://http.localhost:8080/api").unwrap();
    assert_eq!(JrgToHttpResolver::extract_http_url(&url).unwrap(), "http://localhost:8080/api");

    let url = JaringanUrl::parse("jrg://https.example.com/page").unwrap();
    assert_eq!(JrgToHttpResolver::extract_http_url(&url).unwrap(), "https://example.com/page");
}

#[test]
fn non_gateway_hosts_are_refused_by_the_gateway() {
    let url = JaringanUrl::parse("jrg://example.org/x").unwrap();
    assert!(!JrgToHttpResolver::is_gateway_url(&url));
    let err = JrgToHttpResolver::extract_http_url(&url).unwrap_err();
    assert_eq!(
        format!("{:?}", err),
        "Config(\"cannot extract HTTP URL from JRG URL: jrg://example.org/x\")"
    );
}

#[test]
fn url_parts_give_authority_and_request_target() {
    let url = JaringanUrl::parse("jrg://example.org:7171/a/b?x=1#f").unwrap();
    assert_eq!(url.port(), Some(7171));
    assert_eq!(url.port_or_default(), 7171);
    assert_eq!(url.authority(), "example.org:7171");
    assert_eq!(url.request_target(), "/a/b?x=1#f");
    let plain = JaringanUrl::parse("jrg://example.org").unwrap();
    assert_eq!(plain.port(), None);
    assert_eq!(plain.port_or_default(), 7070);
    assert_eq!(plain.authority(), "example.org");
}

#[test]
fn malformed_and_hostless_urls_are_refused() {
    assert!(matches!(JaringanUrl::parse("not a url"), Err(UrlError::Parse(_))));
    assert!(matches!(JaringanUrl::parse("jrg:only-a-path"), Err(UrlError::MissingHost)));
}

#[test]
fn requests_carry_method_body_and_token() {
    let url = JaringanUrl::parse("jrg://example.org/form").unwrap();
    let get = Request::new(url.clone());
    assert_eq!(get.method, RequestMethod::Get);
    assert_eq!(get.body, "");
    let post = Request::post(url, "q=1".to_string()).with_action_token("tok".to_string());
    assert_eq!(post.method, RequestMethod::Post);
    assert_eq!(post.body, "q=1");
    assert_eq!(post.action_token.as_deref(), Some("tok"));
}
