use jaringan::render::{inline_to_plain, parse_inline_markup, render_plain, render_plain_with_options, InlineSpan, RenderOptions};
use jaringan::{parse_document, ActionMethod, Block, Button, Document, Input, Link, Table};

#[test]
fn test_parse_inline_markup_plain_text() {
    let spans = parse_inline_markup("hello world");
    assert_eq!(spans, vec![InlineSpan::Text("hello world".to_string())]);
}

#[test]
fn test_parse_inline_markup_bold() {
    let spans = parse_inline_markup("**bold**");
    assert_eq!(spans, vec![InlineSpan::Bold("bold".to_string())]);
}

#[test]
fn test_parse_inline_markup_italic() {
    let spans = parse_inline_markup("*italic*");
    assert_eq!(spans, vec![InlineSpan::Italic("italic".to_string())]);
}

#[test]
fn test_parse_inline_markup_code() {
    let spans = parse_inline_markup("`code`");
    assert_eq!(spans, vec![InlineSpan::Code("code".to_string())]);
}

#[test]
fn test_parse_inline_markup_link() {
    let spans = parse_inline_markup("[label](url)");
    assert_eq!(
        spans,
        vec![InlineSpan::Link {
            label: "label".to_string(),
            target: "url".to_string(),
        }]
    );
}

#[test]
fn test_parse_inline_markup_mixed() {
    let spans = parse_inline_markup("**bold** and *italic* and `code`");
    assert_eq!(spans.len(), 5);
    assert_eq!(spans[0], InlineSpan::Bold("bold".to_string()));
    assert_eq!(spans[1], InlineSpan::Text(" and ".to_string()));
    assert_eq!(spans[2], InlineSpan::Italic("italic".to_string()));
    assert_eq!(spans[3], InlineSpan::Text(" and ".to_string()));
    assert_eq!(spans[4], InlineSpan::Code("code".to_string()));
}

#[test]
fn test_parse_inline_markup_link_in_text() {
    let spans = parse_inline_markup("visit [example](https://example.com) now");
    assert_eq!(spans.len(), 3);
    assert_eq!(spans[0], InlineSpan::Text("visit ".to_string()));
    assert_eq!(
        spans[1],
        InlineSpan::Link {
            label: "example".to_string(),
            target: "https://example.com".to_string(),
        }
    );
    assert_eq!(spans[2], InlineSpan::Text(" now".to_string()));
}

#[test]
fn test_inline_to_plain_strips_markers() {
    let spans = parse_inline_markup("**bold** and *italic* and `code`");
    let plain = inline_to_plain(&spans);
    assert_eq!(plain, "bold and italic and code");
}

#[test]
fn test_inline_to_plain_shows_link_url() {
    let spans = parse_inline_markup("try [Jaringan](https://jaringan.dev)");
    let plain = inline_to_plain(&spans);
    assert_eq!(plain, "try Jaringan (https://jaringan.dev)");
}

#[test]
fn test_unmatched_markers_render_as_literal() {
    let spans = parse_inline_markup("*unmatched");
    assert_eq!(spans.len(), 2);
    assert_eq!(spans[0], InlineSpan::Text("*".to_string()));
    assert_eq!(spans[1], InlineSpan::Text("unmatched".to_string()));

    let spans = parse_inline_markup("**partial");
    assert_eq!(spans, vec![InlineSpan::Text("**".to_string()), InlineSpan::Text("partial".to_string())]);
}

#[test]
fn test_empty_bold_does_not_parse() {
    let spans = parse_inline_markup("****");
    assert!(spans.iter().all(|s| matches!(s, InlineSpan::Text(_))));
}

#[test]
fn test_parse_inline_markup_empty() {
    assert!(parse_inline_markup("").is_empty());
}

// ── Legacy plain render tests ───────────────────────────────────────

#[test]
fn renders_plain_text_with_numbered_links() {
    let doc = parse_document("# Hello\n\nWelcome.\n\n=> jrg://example/about About\n").unwrap();
    let rendered = render_plain(&doc);

    assert!(rendered.contains("# Hello"));
    assert!(rendered.contains("Welcome."));
    assert!(rendered.contains("[1] About <jrg://example/about>"));
}

#[test]
fn renders_buttons_and_images_as_terminal_native_controls() {
    let doc = parse_document(
        "# Rich\n\n! save label=\"Save\" target=\"save\"\n@ ./cover.png alt=\"Cover\"\n",
    )
    .unwrap();
    let rendered = render_plain(&doc);

    assert!(rendered.contains("[button] Save"));
    assert!(rendered.contains("[image] Cover <./cover.png>"));
}

#[test]
fn renders_tables_quotes_lists_and_rules_as_plain_text() {
    let doc = parse_document(
        "# Layout\n\n> Polished terminal pages.\n\n- Tables\n- Quotes\n\n---\n\n| Name | Role |\n| --- | --- |\n| Simon | Builder |\n",
    )
    .unwrap();
    let rendered = render_plain(&doc);

    assert!(rendered.contains("> Polished terminal pages."));
    assert!(rendered.contains("• Tables"));
    assert!(rendered.contains("────────────────"));
    assert!(rendered.contains("| Name  | Role    |"));
    assert!(rendered.contains("| Simon | Builder |"));
}

#[test]
fn renders_every_block_kind_exactly() {
    let doc = Document::new(vec![
        Block::Heading { level: 2, text: "A *b*".into() },
        Block::Link(Link { target: "t1".into(), label: "one".into() }),
        Block::Input(Input { name: "q".into(), label: "Q".into(), value: String::new(), placeholder: Some("type".into()) }),
        Block::Button(Button { id: "b".into(), label: "Go".into(), target: "/go".into(), method: ActionMethod::Get, confirm: None, auth: None }),
        Block::Link(Link { target: "t2".into(), label: "two".into() }),
        Block::Preformatted { code: "x = 1".into(), language: None },
        Block::Script { wasm: vec![], label: None },
        Block::Table(Table { headers: vec!["é".into()], rows: vec![vec!["ab".into(), "c".into()]] }),
    ]);
    assert_eq!(
        render_plain(&doc),
        "## A b\n\n[1] one <t1>\n[input] Q (q) = type\n[button] Go <GET /go>\n[2] two <t2>\n```\nx = 1\n```\n\n| é  |   |\n├────┼───┤\n| ab | c |"
    );
    assert_eq!(
        render_plain_with_options(&Document::new(vec![Block::Link(Link { target: "t".into(), label: "l".into() })]), RenderOptions { show_link_targets: false }),
        "[1] l"
    );
}

#[test]
fn highlighted_code_keeps_its_text() {
    let doc = parse_document("```rust\nfn main() {}\n```\n").unwrap();
    let rendered = render_plain(&doc);
    assert!(rendered.starts_with("```rust\n"));
    assert!(rendered.contains("main"));
    assert!(rendered.ends_with("```"));
}

fn markup_of(spans: &[InlineSpan]) -> String {
    let mut out = String::new();
    for span in spans {
        match span {
            InlineSpan::Text(t) => out.push_str(t),
            InlineSpan::Bold(t) => out.push_str(&format!("**{t}**")),
            InlineSpan::Italic(t) => out.push_str(&format!("*{t}*")),
            InlineSpan::Code(t) => out.push_str(&format!("`{t}`")),
            InlineSpan::Link { label, target } => out.push_str(&format!("[{label}]({target})")),
        }
    }
    out
}

#[test]
fn inline_spans_write_back_to_the_text() {
    for text in [
        "plain café text",
        "a **b** *c* `d` [e](f) end",
        "unmatched * and ** and ` and [x",
        "**** * * [a] (b) [c](d",
    ] {
        assert_eq!(markup_of(&parse_inline_markup(text)), text);
    }
}

#[test]
fn a_page_of_links_renders_numbered_lines() {
    let doc = Document::new(vec![
        Block::Link(Link { target: "a.jrg".into(), label: "First".into() }),
        Block::Link(Link { target: "b.jrg".into(), label: "Second".into() }),
    ]);
    assert_eq!(render_plain(&doc), "[1] First <a.jrg>\n[2] Second <b.jrg>");
    assert_eq!(
        render_plain_with_options(&doc, RenderOptions { show_link_targets: false }),
        "[1] First\n[2] Second"
    );
}
