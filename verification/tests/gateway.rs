use jaringan::gateway::{
    html_escape, jrg_response_to_http_response, urlencode, HttpToJrgGateway, HttpToJrgGatewayConfig,
    JrgToHttpResolverConfig,
};
use jaringan::jrg_to_http::JrgToHttpResolver;
use jaringan::protocol::{RequestMethod, Response, ResponseTag, StatusCode};
use jaringan::gateway::http_method_to_jrg;
use std::collections::HashMap;

#[test]
fn test_build_jrg_url() {
    let config = HttpToJrgGatewayConfig {
        jrg_host: "127.0.0.1:7070".to_string(),
        ..Default::default()
    };

    let url = HttpToJrgGateway::build_jrg_url("jrg://example.org/page.jrg", &config).unwrap();
    assert_eq!(url, "jrg://example.org/page.jrg");

    let url = HttpToJrgGateway::build_jrg_url("docs/page.jrg", &config).unwrap();
    assert_eq!(url, "jrg://127.0.0.1:7070/docs/page.jrg");
}

#[test]
fn test_urlencode() {
    assert_eq!(urlencode("hello world"), "hello+world");
    assert_eq!(urlencode("a/b?c"), "a%2Fb%3Fc");
    assert_eq!(urlencode("simple"), "simple");
}

#[test]
fn test_config_default_streaming_enabled() {
    let config = HttpToJrgGatewayConfig::default();
    assert!(config.enable_streaming);
}

#[test]
fn test_config_streaming_can_be_disabled() {
    let config = HttpToJrgGatewayConfig {
        enable_streaming: false,
        ..Default::default()
    };
    assert!(!config.enable_streaming);
}

#[test]
fn test_cache_defaults() {
    let config = HttpToJrgGatewayConfig::default();
    assert_eq!(config.cache_ttl_secs, 60);
    assert_eq!(config.cache_max_entries, 128);
}

#[test]
fn test_cache_configurable_ttl() {
    let config = HttpToJrgGatewayConfig {
        cache_ttl_secs: 300,
        cache_max_entries: 64,
        ..Default::default()
    };
    assert_eq!(config.cache_ttl_secs, 300);
    assert_eq!(config.cache_max_entries, 64);
}

#[test]
fn test_config_default_danger_accept_invalid_certs() {
    let config = JrgToHttpResolverConfig::default();
    assert!(!config.danger_accept_invalid_certs);
}

#[test]
fn test_config_additional_headers_default_empty() {
    let config = JrgToHttpResolverConfig::default();
    assert!(config.additional_headers.is_empty());
}

#[test]
fn test_response_tag_content_type() {
    let response = Response::page(StatusCode::Success, "hello".to_string())
        .with_tag(ResponseTag::ContentType { value: "text/html; charset=utf-8".to_string() });
    assert!(response.tags.iter().any(|t| matches!(
        t,
        ResponseTag::ContentType { value } if value == "text/html; charset=utf-8"
    )));
}

#[test]
fn test_html_escape() {
    assert_eq!(html_escape("<script>"), "&lt;script&gt;");
    assert_eq!(html_escape("a & b"), "a &amp; b");
    assert_eq!(html_escape(""), "");
}

#[test]
fn html_escape_covers_quotes() {
    assert_eq!(html_escape("\"it's\""), "&quot;it&#39;s&quot;");
}

#[test]
fn urlencode_writes_utf8_bytes_in_upper_case_hex() {
    assert_eq!(urlencode("é~"), "%C3%A9~");
}

#[test]
fn leading_slashes_are_dropped_before_building_urls() {
    let config = HttpToJrgGatewayConfig::default();
    assert_eq!(
        HttpToJrgGateway::build_jrg_url("//jrg://x/y", &config).unwrap(),
        "jrg://x/y"
    );
    assert_eq!(HttpToJrgGateway::build_jrg_url("/", &config).unwrap(), "jrg://127.0.0.1:7070/");
}

#[test]
fn jrg_responses_become_http_parts() {
    let response = Response::text(StatusCode::SeeOther, "moved".to_string())
        .with_tag(ResponseTag::Redirect { target: "/x".into() })
        .with_tag(ResponseTag::Stream)
        .with_tag(ResponseTag::Key { key_id: "id".into(), key_base64: "AA==".into() });
    let (status, reason, headers, body) = jrg_response_to_http_response(response);
    assert_eq!(status, 303);
    assert_eq!(reason, "See Other");
    assert_eq!(
        headers,
        vec![
            ("Content-Type".to_string(), "text/plain; charset=utf-8".to_string()),
            ("Location".to_string(), "/x".to_string()),
            ("X-JRG-Stream".to_string(), "true".to_string()),
            ("X-JRG-Key".to_string(), "id ed25519:AA==".to_string()),
        ]
    );
    assert_eq!(body, "moved");
}

#[test]
fn test_strip_html_tags_basic() {
    let html = "<html><body><h1>Hello</h1><p>World</p></body></html>";
    assert_eq!(JrgToHttpResolver::strip_html_tags(html), "Hello World");

    let html_script = "<html><script>alert('xss');</script><p>Content</p></html>";
    assert_eq!(JrgToHttpResolver::strip_html_tags(html_script), "Content");
}

#[test]
fn test_strip_html_br_tag() {
    let html = "Line1<br>Line2";
    assert_eq!(JrgToHttpResolver::strip_html_tags(html), "Line1\nLine2");

    let html = "A<br/>B";
    assert_eq!(JrgToHttpResolver::strip_html_tags(html), "A\nB");

    let html = "X<br />Y";
    assert_eq!(JrgToHttpResolver::strip_html_tags(html), "X\nY");
}

#[test]
fn test_strip_html_img_alt() {
    let html = "Before <img src=\"foo.jpg\" alt=\"A photo\"> after";
    assert_eq!(JrgToHttpResolver::strip_html_tags(html), "Before A photo after");

    let html = "Text <img src=\"bar.png\"> more";
    assert_eq!(JrgToHttpResolver::strip_html_tags(html), "Text more");
}

#[test]
fn test_strip_html_anchor() {
    let html = "Visit <a href=\"https://example.com\">Example</a> now";
    assert_eq!(
        JrgToHttpResolver::strip_html_tags(html),
        "Visit Example (https://example.com) now"
    );

    let html = "<a>plain</a> link";
    assert_eq!(JrgToHttpResolver::strip_html_tags(html), "plain link");

    let html = "<a href=\"u1\">one</a> and <a href=\"u2\">two</a>";
    let result = JrgToHttpResolver::strip_html_tags(html);
    assert!(result.contains("one (u1)"));
    assert!(result.contains("two (u2)"));
}

#[test]
fn test_strip_html_line_breaks_preserved() {
    let html = "<p>Para one</p><p>Para two</p>";
    let result = JrgToHttpResolver::strip_html_tags(html);
    assert!(result.contains("Para one"));
    assert!(result.contains("Para two"));
}

#[test]
fn test_strip_html_complex() {
    let html = r#"<html>
<body>
<h1>Title</h1>
<p>Hello<br>World</p>
<img src="pic.jpg" alt="A nice picture">
Visit <a href="https://example.com">Example Site</a> for more.
<script>alert('hidden');</script>
</body>
</html>"#;
    let result = JrgToHttpResolver::strip_html_tags(html);
    assert!(result.contains("Title"));
    assert!(result.contains("Hello"));
    assert!(result.contains("World"));
    assert!(result.contains("A nice picture"));
    assert!(result.contains("Example Site (https://example.com)"));
    assert!(!result.contains("alert"));
    assert!(!result.contains("hidden"));
}

#[test]
fn test_http_to_jrg_body_html() {
    let result = JrgToHttpResolver::http_to_jrg_body("text/html", "<h1>Hello</h1>");
    assert!(result.starts_with("# Web Page"));
    assert!(result.contains("Hello"));
}

#[test]
fn test_http_to_jrg_body_json() {
    let result = JrgToHttpResolver::http_to_jrg_body("application/json", "{\"key\": \"value\"}");
    assert!(result.starts_with("# JSON Response"));
    assert!(result.contains("key"));
}

#[test]
fn test_http_to_jrg_body_plain_text() {
    let result = JrgToHttpResolver::http_to_jrg_body("text/plain", "Hello world");
    assert!(result.starts_with("# Text Response"));
    assert!(result.contains("Hello world"));
}

#[test]
fn test_config_custom_danger_accept_invalid_certs() {
    let config = JrgToHttpResolverConfig {
        danger_accept_invalid_certs: true,
        ..Default::default()
    };
    assert!(config.danger_accept_invalid_certs);

    let resolver = JrgToHttpResolver::new(config);
    let _ = resolver;
}

#[test]
fn test_config_additional_headers_custom() {
    let mut headers = HashMap::new();
    headers.insert("Accept".to_string(), "application/json".to_string());
    headers.insert("X-Custom".to_string(), "test-value".to_string());

    let config = JrgToHttpResolverConfig {
        additional_headers: headers,
        timeout_secs: 1,
        ..Default::default()
    };
    assert_eq!(config.additional_headers.len(), 2);
    assert_eq!(config.additional_headers.get("Accept").unwrap(), "application/json");
    assert_eq!(config.additional_headers.get("X-Custom").unwrap(), "test-value");

    let _resolver = JrgToHttpResolver::new(config);
}

#[test]
fn http_body_other_types_keep_their_content_type() {
    let result = JrgToHttpResolver::http_to_jrg_body("Image/PNG", "raw");
    assert_eq!(result, "raw\n\n---\n\nContent-Type: Image/PNG");
    let html = JrgToHttpResolver::http_to_jrg_body("TEXT/HTML; charset=utf-8", "<b>x</b>");
    assert_eq!(html, "# Web Page\n\nx\n\n---\n\n> Fetched via JRG→HTTP gateway");
}

#[test]
fn strip_html_keeps_unclosed_link_text_and_skips_styles() {
    assert_eq!(
        JrgToHttpResolver::strip_html_tags("<style>p{}</style>go <a href=\"x\">there"),
        "go there (x)"
    );
    assert_eq!(JrgToHttpResolver::strip_html_tags("a \t\t b\n\n c"), "a b\n\n c");
}

#[test]
fn tag_helpers_read_names_and_attributes() {
    assert!(JrgToHttpResolver::is_tag(b"<BR/>", b"br"));
    assert!(!JrgToHttpResolver::is_tag(b"<bra>", b"br"));
    assert_eq!(JrgToHttpResolver::find_tag_end(b"<a x>y"), Some(4));
    assert_eq!(JrgToHttpResolver::find_tag_end(b"<a x"), None);
    assert_eq!(
        JrgToHttpResolver::extract_attr(b"<img alt=\"hi\" src=\"p\">", "src"),
        Some("p".to_string())
    );
    assert_eq!(JrgToHttpResolver::extract_attr(b"<img alt=hi>", "alt"), None);
}

#[test]
fn writing_http_methods_become_posts() {
    for m in ["POST", "PUT", "DELETE", "PATCH"] {
        assert_eq!(http_method_to_jrg(m), RequestMethod::Post);
    }
    for m in ["GET", "HEAD", "OPTIONS", "post", "TRACE"] {
        assert_eq!(http_method_to_jrg(m), RequestMethod::Get);
    }
}

#[test]
fn stripping_keeps_unicode_text() {
    assert_eq!(JrgToHttpResolver::strip_html_tags("<p>café</p>"), "café");
    assert_eq!(JrgToHttpResolver::strip_html_tags("<a href=\"/ü\">naïve</a>"), "naïve (/ü)");
}
