use jaringan::auth::{
    auth_action_url, auth_form_body, auth_form_heading, auth_form_help, auth_page_url, auth_service, auth_target,
    auth_web_gateway_url, auth_web_host, auth_web_page_url,
    token_folder_for, AuthTarget,
};
use jaringan::{ActionMethod, Block, Button, Document, Input};

fn jrg(host: &str, port: u16) -> AuthTarget {
    AuthTarget::Jrg { host: host.to_string(), port }
}

fn same(a: &AuthTarget, b: &AuthTarget) -> bool {
    match (a, b) {
        (AuthTarget::Jrg { host: h1, port: p1 }, AuthTarget::Jrg { host: h2, port: p2 }) => h1 == h2 && p1 == p2,
        (AuthTarget::Http { base: b1 }, AuthTarget::Http { base: b2 }) => b1 == b2,
        _ => false,
    }
}

#[test]
fn service_names_give_host_and_port() {
    assert!(same(&auth_target("localhost"), &jrg("127.0.0.1", 7070)));
    assert!(same(&auth_target("localhost:7072"), &jrg("127.0.0.1", 7072)));
    assert!(same(&auth_target("example.org:+81"), &jrg("example.org", 81)));
    assert!(same(&auth_target("example.org:port"), &jrg("example.org", 7070)));
    assert!(same(&auth_target("example.org:99999"), &jrg("example.org", 7070)));
    assert!(same(&auth_target("a:90:extra"), &jrg("a", 90)));
}

#[test]
fn web_services_keep_their_base_without_trailing_slashes() {
    assert!(same(&auth_target("https://example.org//"), &AuthTarget::Http { base: "https://example.org".to_string() }));
    assert!(same(&auth_target("http://h:80"), &AuthTarget::Http { base: "http://h:80".to_string() }));
}

#[test]
fn page_and_action_addresses() {
    assert_eq!(auth_page_url("127.0.0.1", 7070, "register.jrg"), "jrg://127.0.0.1:7070/register.jrg");
    assert_eq!(auth_action_url("127.0.0.1", 7070, "register.jrg"), "jrg://127.0.0.1:7070/actions/register");
    assert_eq!(auth_action_url("h", 1, "login"), "jrg://h:1/actions/login");
    assert_eq!(auth_form_heading("h", 7071, "register.jrg"), "Form fields on h:7071/register.jrg:");
    assert_eq!(auth_form_heading("h", 7071, "other.jrg"), "Form fields on h:7071/login.jrg:");
}

#[test]
fn form_body_keeps_only_named_fields() {
    let fields = vec!["user=ana".to_string(), "broken".to_string(), "pass=a=b".to_string()];
    assert_eq!(auth_form_body(&fields), "user=ana&pass=a=b");
    assert_eq!(auth_form_body(&[]), "");
}

fn form_page() -> Document {
    Document::new(vec![
        Block::Paragraph("Sign up".into()),
        Block::Input(Input { name: "user".into(), label: "User".into(), value: String::new(), placeholder: None }),
        Block::Input(Input {
            name: "pass".into(),
            label: "Password".into(),
            value: String::new(),
            placeholder: Some("secret".into()),
        }),
        Block::Button(Button {
            id: "go".into(),
            label: "Go".into(),
            target: "register".into(),
            method: ActionMethod::Post,
            confirm: None,
            auth: None,
        }),
        Block::Button(Button {
            id: "go2".into(),
            label: "Go".into(),
            target: "register".into(),
            method: ActionMethod::Post,
            confirm: None,
            auth: Some("microblog".into()),
        }),
    ])
}

#[test]
fn form_help_lists_inputs_and_an_example() {
    let lines = auth_form_help("Form fields on h:1/register.jrg:", &form_page(), "h:1");
    assert_eq!(
        lines,
        vec![
            "Form fields on h:1/register.jrg:".to_string(),
            "  - User (name=user)".to_string(),
            "  - Password (name=pass, placeholder=secret)".to_string(),
            String::new(),
            "Use -f name=value to fill fields and submit, e.g.:".to_string(),
            "  jaringan auth register h:1 -f user='<value>'".to_string(),
        ]
    );
}

#[test]
fn form_help_without_inputs_says_so() {
    let lines = auth_form_help("Head", &Document::new(vec![]), "s");
    assert_eq!(
        lines,
        vec![
            "Head".to_string(),
            "  (no input fields found — try with -f name=value pairs)".to_string(),
            String::new(),
            "Use -f name=value to fill fields and submit, e.g.:".to_string(),
        ]
    );
}

#[test]
fn first_button_with_auth_names_the_service() {
    assert_eq!(auth_service(&form_page()), Some("microblog".to_string()));
    assert_eq!(auth_service(&Document::new(vec![])), None);
}

#[test]
fn token_folders_match_by_name_or_prefix() {
    assert!(token_folder_for("microblog", "microblog"));
    assert!(token_folder_for("microblog.localhost:7072", "microblog"));
    assert!(token_folder_for("microblog:7072", "microblog"));
    assert!(!token_folder_for("microblogger", "microblog"));
}

#[test]
fn web_service_addresses() {
    assert_eq!(auth_web_page_url("https://blog.example", "login.jrg"), "https://blog.example/login.jrg");
    assert_eq!(auth_web_host("https://blog.example"), "blog.example");
    assert_eq!(auth_web_host("http://http://x.org"), "x.org");
    assert_eq!(auth_web_host("x.org"), "x.org");
    assert_eq!(auth_web_gateway_url("http://blog.example:8080", "register.jrg"), "jrg://https.blog.example:8080/register.jrg");
}
