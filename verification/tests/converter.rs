use jaringan::converter::{jrg_to_md, md_to_jrg};

#[test]
fn md_to_jrg_basic_link() {
    let input = "[Example](https://example.com)";
    let result = md_to_jrg(input).unwrap();
    assert_eq!(result, "=> https://example.com Example\n");
}

#[test]
fn md_to_jrg_frontmatter() {
    let input = "---\ntitle: My Page\nauthor: Alice\n---\n\n# Hello";
    let result = md_to_jrg(input).unwrap();
    assert!(result.starts_with("~~~~~\n"));
    assert!(result.contains("title: My Page"));
    assert!(result.contains("author: Alice"));
    assert!(result.ends_with("# Hello\n"));
}

#[test]
fn md_to_jrg_image() {
    let input = "![Logo](logo.png)";
    let result = md_to_jrg(input).unwrap();
    assert_eq!(result, "@logo.png alt=\"Logo\"\n");
}

#[test]
fn jrg_to_md_basic_link() {
    let input = "=> https://example.com Example";
    let result = jrg_to_md(input).unwrap();
    assert_eq!(result.trim(), "[Example](https://example.com)");
}

#[test]
fn jrg_to_md_image() {
    let input = "@logo.png alt=\"Logo\"";
    let result = jrg_to_md(input).unwrap();
    assert_eq!(result.trim(), "![Logo](logo.png)");
}

#[test]
fn jrg_to_md_input() {
    let input = "?name label=\"Name\"";
    let result = jrg_to_md(input).unwrap();
    // Should become an HTML comment annotation for input
    assert!(result.contains("<!-- input:?name"));
    assert!(result.contains("label=\"Name\""));
    assert!(result.contains("-->"));
}

#[test]
fn roundtrip_preserves_content() {
    let md = "# Hello\n\nThis is a paragraph.\n\n[Example](https://example.com)\n";
    // Convert MD → JRG
    let jrg = md_to_jrg(md).unwrap();
    // Convert JRG → MD
    let result = jrg_to_md(&jrg).unwrap();
    // Both should contain the heading and link
    assert!(result.contains("# Hello"));
    assert!(result.contains("This is a paragraph."));
    assert!(result.contains("[Example](https://example.com)"));
}

#[test]
fn empty_input() {
    assert_eq!(md_to_jrg("").unwrap(), "");
    assert_eq!(jrg_to_md("").unwrap(), "");
}

#[test]
fn md_to_jrg_html_comment_stripped() {
    let input = "Hello <!-- comment --> World";
    let result = md_to_jrg(input).unwrap();
    assert_eq!(result.trim(), "Hello  World"); // comment removed, surrounding whitespace remains
}

#[test]
fn md_to_jrg_bold_italic_preserved() {
    let input = "**bold** and *italic* and `code`";
    let result = md_to_jrg(input).unwrap();
    // Bold, italic, and inline code should be preserved as-is
    assert!(result.contains("**bold**"));
    assert!(result.contains("*italic*"));
    assert!(result.contains("`code`"));
}

#[test]
fn jrg_to_md_button() {
    let input = "!btn1 label=\"Click Me\" target=\"jrg://action\" method=\"POST\" confirm=\"Are you sure?\"";
    let result = jrg_to_md(input).unwrap();
    // Should render as HTML comment annotation for button
    assert!(result.contains("<!-- button:!btn1"));
    assert!(result.contains("label=\"Click Me\""));
    assert!(result.contains("-->"));
}

#[test]
fn md_to_jrg_multiple_links() {
    let input = "See [Google](https://google.com) and [Bing](https://bing.com)";
    let result = md_to_jrg(input).unwrap();
    assert!(result.contains("=> https://google.com Google"));
    assert!(result.contains("=> https://bing.com Bing"));
}

#[test]
fn jrg_to_md_heading_and_paragraph() {
    let input = "# Hello\n\nThis is a paragraph.\n";
    let result = jrg_to_md(input).unwrap();
    assert!(result.contains("# Hello"));
    assert!(result.contains("This is a paragraph."));
}

#[test]
fn markdown_text_keeps_unicode() {
    assert_eq!(jaringan::converter::md_to_jrg("café").unwrap(), "café\n");
}
