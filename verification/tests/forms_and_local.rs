use jaringan::document::{Block, Input};
use jaringan::forms::{
    form_value, input_payload_from_blocks, payload_value, percent_decode, percent_encode,
    target_with_payload,
};
use jaringan::jrg_url::JaringanUrl;
use jaringan::local_resolver::{resolve_in_root, FetchStep, FileRead, LocalFileResolver};
use jaringan::paths::PathPart;
use jaringan::protocol::{ContentType, Request, ResolveError, ResponseTag, StatusCode};

#[test]
fn percent_encoding_keeps_unreserved_bytes() {
    assert_eq!(percent_encode("nasi goreng"), "nasi%20goreng");
    assert_eq!(percent_encode("a-b.c_d~e/é"), "a-b.c_d~e%2F%C3%A9");
    assert_eq!(percent_decode("nasi%20goreng"), "nasi goreng");
    assert_eq!(percent_decode("%C3%A9%zz%4"), "é%zz%4");
    assert_eq!(percent_decode("%+f"), "\u{f}");
    assert_eq!(percent_decode(&percent_encode("x y/ü")), "x y/ü");
}

#[test]
fn form_values_are_found_and_decoded() {
    assert_eq!(form_value("a=1&q=laksa%20x&q=2", "q"), Some("laksa x".to_string()));
    assert_eq!(form_value("a=1&b", "b"), None);
    assert_eq!(payload_value("q%31=v&x=y", "q1"), Some("v".to_string()));
    assert_eq!(payload_value("x=y", "q"), None);
}

#[test]
fn targets_take_the_payload_as_a_query() {
    assert_eq!(target_with_payload("/search", ""), "/search");
    assert_eq!(target_with_payload("/search", "q=1"), "/search?q=1");
    assert_eq!(target_with_payload("/search?x=2", "q=1"), "/search?x=2&q=1");
}

#[test]
fn inputs_make_the_action_payload() {
    let blocks = vec![
        Block::Paragraph("hi".to_string()),
        Block::Input(Input {
            name: "q".to_string(),
            label: "Query".to_string(),
            value: "nasi goreng".to_string(),
            placeholder: None,
        }),
        Block::Input(Input {
            name: "n&m".to_string(),
            label: "N".to_string(),
            value: String::new(),
            placeholder: None,
        }),
    ];
    assert_eq!(input_payload_from_blocks(&blocks), "q=nasi%20goreng&n%26m=");
}

fn request(method_post: bool, url: &str, body: &str, token: Option<&str>) -> Request {
    let u = JaringanUrl::parse(url).unwrap();
    let r = if method_post { Request::post(u, body.to_string()) } else { Request::new(u) };
    match token {
        Some(t) => r.with_action_token(t.to_string()),
        None => r,
    }
}

#[test]
fn local_resolver_plans_actions_keys_and_pages() {
    let resolver = LocalFileResolver::new("/srv/site".to_string());
    assert_eq!(resolver.root(), "/srv/site");

    match resolver.plan(&request(true, "jrg://localhost/actions/search", "q=laksa", None)) {
        FetchStep::Respond(r) => {
            assert_eq!(r.status, StatusCode::Forbidden);
            assert_eq!(r.body, "missing or invalid action capability token");
        }
        _ => panic!("expected a refusal"),
    }
    match resolver.plan(&request(true, "jrg://localhost/actions/search", "q=laksa", Some("demo-search"))) {
        FetchStep::RecordAction { dir, log_path, line } => {
            assert_eq!(dir, "/srv/site");
            assert_eq!(log_path, "/srv/site/.jrg-actions.log");
            assert_eq!(line, "POST /actions/search q=laksa");
        }
        _ => panic!("expected an action"),
    }
    match resolver.plan(&request(false, "jrg://localhost/notes.txt", "", None)) {
        FetchStep::Respond(r) => {
            assert_eq!(r.status, StatusCode::NotFound);
            assert_eq!(r.body, "/notes.txt is not a .jrg document path");
        }
        _ => panic!("expected not found"),
    }
    match resolver.plan(&request(false, "jrg://localhost/../secret.jrg", "", None)) {
        FetchStep::ReadPage { path } => assert!(!path.contains("..")),
        FetchStep::Respond(r) => assert_eq!(r.status, StatusCode::NotFound),
        _ => panic!("unexpected step"),
    }
    match resolver.plan(&request(false, "jrg://localhost/docs/", "", None)) {
        FetchStep::ReadPage { path } => assert_eq!(path, "/srv/site/docs/index.jrg"),
        _ => panic!("expected a page read"),
    }
    match resolver.plan(&request(false, "jrg://localhost/.well-known/key", "", None)) {
        FetchStep::Respond(r) => assert_eq!(r.status, StatusCode::NotFound),
        _ => panic!("expected not found"),
    }
    let keyed = LocalFileResolver::new_with_key("/srv/site".to_string(), "k1".to_string(), "QUJD".to_string());
    match keyed.plan(&request(false, "jrg://localhost/.well-known/key", "", None)) {
        FetchStep::Respond(r) => {
            assert_eq!(r.status, StatusCode::Success);
            assert!(r.body.starts_with("# Server Key\n"));
            assert!(r.body.contains("k1 ed25519:QUJD"));
        }
        _ => panic!("expected the key page"),
    }
}

#[test]
fn local_resolver_answers_from_file_reads() {
    let resolver = LocalFileResolver::new_with_key(
        "/srv/site".to_string(),
        "k1".to_string(),
        "QUJD".to_string(),
    );
    let req = request(false, "jrg://localhost/index.jrg", "", None);
    let page = resolver
        .page_response(&req, "/srv/site/index.jrg".to_string(), FileRead::Found("# Home\n".to_string()))
        .unwrap();
    assert_eq!(page.status, StatusCode::Success);
    assert_eq!(page.content_type, ContentType::JaringanPage);
    assert_eq!(page.body, "# Home\n");
    assert_eq!(
        page.tags,
        vec![ResponseTag::Key { key_id: "k1".to_string(), key_base64: "QUJD".to_string() }]
    );
    let missing = resolver.page_response(&req, "/srv/site/index.jrg".to_string(), FileRead::NotFound).unwrap();
    assert_eq!(missing.status, StatusCode::NotFound);
    assert_eq!(missing.body, "Jaringan page not found: /index.jrg");
    let failed = resolver.page_response(&req, "p".to_string(), FileRead::Failed("denied".to_string()));
    assert_eq!(failed, Err(ResolveError::Read { path: "p".to_string(), message: "denied".to_string() }));

    let key = resolver.key_response();
    assert_eq!(key.status, StatusCode::Success);
    assert!(key.body.contains("k1 ed25519:QUJD"));
    let action = LocalFileResolver::action_response(&request(true, "jrg://localhost/actions/search", "q=laksa", None));
    assert_eq!(
        action.body,
        "# Search Results\n\nDemo action received query: laksa\n\n=> /action-form.jrg Back to form\n"
    );
}

#[test]
fn paths_that_leave_the_folder_are_refused() {
    let inside = [PathPart::Normal("docs".to_string()), PathPart::Normal("a.jrg".to_string())];
    assert_eq!(resolve_in_root("/srv/site", "docs/a.jrg", &inside), Some("/srv/site/docs/a.jrg".to_string()));
    let up = [PathPart::Normal("docs".to_string()), PathPart::ParentDir];
    assert_eq!(resolve_in_root("/srv/site", "docs/..", &up), None);
    assert_eq!(resolve_in_root("/srv/site", "/etc", &[PathPart::RootDir, PathPart::Normal("etc".to_string())]), None);
}
