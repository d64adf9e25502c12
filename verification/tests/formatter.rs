use jaringan::formatter::{FormatOptions, JrgFormatter};
use jaringan::lint::LintLevel;
use jaringan::{parse_document, ActionMethod, Block, Button, Document, Image, Input, Link, Table};

#[test]
fn format_empty_document() {
    let doc = Document::new(vec![]);
    let fmt = JrgFormatter::new(FormatOptions::default());
    let result = fmt.format_document(&doc);
    // Empty doc + trailing_newline = just a newline
    assert_eq!(result, "\n");
}

#[test]
fn format_heading() {
    let doc = Document::new(vec![Block::Heading {
        level: 1,
        text: "Hello".into(),
    }]);
    let fmt = JrgFormatter::new(FormatOptions::default());
    let result = fmt.format_document(&doc);
    assert!(result.starts_with("# Hello\n"));
}

#[test]
fn format_paragraph() {
    let doc = Document::new(vec![Block::Paragraph("This is a paragraph.".into())]);
    let fmt = JrgFormatter::new(FormatOptions::default());
    let result = fmt.format_document(&doc);
    assert_eq!(result, "This is a paragraph.\n");
}

#[test]
fn format_heading_and_paragraph() {
    let doc = Document::new(vec![
        Block::Heading {
            level: 1,
            text: "Title".into(),
        },
        Block::Paragraph("Some content here.".into()),
    ]);
    let fmt = JrgFormatter::new(FormatOptions::default());
    let result = fmt.format_document(&doc);
    assert_eq!(result, "# Title\n\nSome content here.\n");
}

#[test]
fn format_link_with_label() {
    let doc = Document::new(vec![Block::Link(Link {
        target: "jrg://example/page".into(),
        label: "Example Page".into(),
    })]);
    let fmt = JrgFormatter::new(FormatOptions::default());
    let result = fmt.format_document(&doc);
    assert_eq!(result, "=> jrg://example/page Example Page\n");
}

#[test]
fn format_link_short_form() {
    let doc = Document::new(vec![Block::Link(Link {
        target: "jrg://example/page".into(),
        label: "jrg://example/page".into(),
    })]);
    let fmt = JrgFormatter::new(FormatOptions::default());
    let result = fmt.format_document(&doc);
    // No label when it matches target
    assert_eq!(result, "=> jrg://example/page\n");
}

#[test]
fn format_input() {
    let doc = Document::new(vec![Block::Input(Input {
        name: "email".into(),
        label: "Email Address".into(),
        value: String::new(),
        placeholder: Some("you@example.com".into()),
    })]);
    let fmt = JrgFormatter::new(FormatOptions::default());
    let result = fmt.format_document(&doc);
    assert_eq!(
        result,
        "?email label=\"Email Address\" placeholder=\"you@example.com\"\n"
    );
}

#[test]
fn format_button() {
    let doc = Document::new(vec![Block::Button(Button {
        id: "btn1".into(),
        label: "Click Me".into(),
        target: "jrg://action".into(),
        method: ActionMethod::Post,
        confirm: Some("Are you sure?".into()),
        auth: None,
    })]);
    let fmt = JrgFormatter::new(FormatOptions::default());
    let result = fmt.format_document(&doc);
    assert_eq!(
        result,
        "!btn1 label=\"Click Me\" target=\"jrg://action\" method=\"POST\" confirm=\"Are you sure?\"\n"
    );
}

#[test]
fn format_image() {
    let doc = Document::new(vec![Block::Image(Image {
        source: "https://example.com/photo.jpg".into(),
        alt: "A photo".into(),
    })]);
    let fmt = JrgFormatter::new(FormatOptions::default());
    let result = fmt.format_document(&doc);
    assert_eq!(result, "@https://example.com/photo.jpg alt=\"A photo\"\n");
}

#[test]
fn format_image_no_alt() {
    let doc = Document::new(vec![Block::Image(Image {
        source: "https://example.com/photo.jpg".into(),
        alt: "https://example.com/photo.jpg".into(),
    })]);
    let fmt = JrgFormatter::new(FormatOptions::default());
    let result = fmt.format_document(&doc);
    assert_eq!(result, "@https://example.com/photo.jpg\n");
}

#[test]
fn format_quote() {
    let doc = Document::new(vec![Block::Quote("This is a quote.".into())]);
    let fmt = JrgFormatter::new(FormatOptions::default());
    let result = fmt.format_document(&doc);
    assert_eq!(result, "> This is a quote.\n");
}

#[test]
fn format_quote_multiline() {
    let doc = Document::new(vec![Block::Quote("Line one\nLine two".into())]);
    let fmt = JrgFormatter::new(FormatOptions::default());
    let result = fmt.format_document(&doc);
    assert_eq!(result, "> Line one\n> Line two\n");
}

#[test]
fn format_list() {
    let doc = Document::new(vec![Block::List(vec!["Item one".into(), "Item two".into()])]);
    let fmt = JrgFormatter::new(FormatOptions::default());
    let result = fmt.format_document(&doc);
    assert_eq!(result, "- Item one\n- Item two\n");
}

#[test]
fn format_rule() {
    let doc = Document::new(vec![Block::Rule]);
    let fmt = JrgFormatter::new(FormatOptions::default());
    let result = fmt.format_document(&doc);
    assert_eq!(result, "---\n");
}

#[test]
fn format_table() {
    let doc = Document::new(vec![Block::Table(Table {
        headers: vec!["Name".into(), "Age".into()],
        rows: vec![
            vec!["Alice".into(), "30".into()],
            vec!["Bob".into(), "25".into()],
        ],
    })]);
    let fmt = JrgFormatter::new(FormatOptions::default());
    let result = fmt.format_document(&doc);
    assert_eq!(
        result,
        "| Name | Age |\n| ---- | --- |\n| Alice | 30 |\n| Bob | 25 |\n"
    );
}

#[test]
fn format_preformatted() {
    let doc = Document::new(vec![Block::Preformatted {
        code: "fn main() {\n    println!(\"hello\");\n}".into(),
        language: Some("rust".into()),
    }]);
    let fmt = JrgFormatter::new(FormatOptions::default());
    let result = fmt.format_document(&doc);
    assert_eq!(
        result,
        "```rust\nfn main() {\n    println!(\"hello\");\n}\n```\n"
    );
}

#[test]
fn format_preformatted_no_language() {
    let doc = Document::new(vec![Block::Preformatted {
        code: "plain text".into(),
        language: None,
    }]);
    let fmt = JrgFormatter::new(FormatOptions::default());
    let result = fmt.format_document(&doc);
    assert_eq!(result, "```\nplain text\n```\n");
}

#[test]
fn format_with_metadata() {
    let doc = Document::with_metadata(
        vec![Block::Heading {
            level: 1,
            text: "Page".into(),
        }],
        Some("title: My Page\nsigned-by: alice\n".into()),
    );
    let fmt = JrgFormatter::new(FormatOptions::default());
    let result = fmt.format_document(&doc);

    assert!(result.contains("~~~~~"));
    assert!(result.contains("title: My Page"));
    assert!(result.contains("signed-by: alice"));
}

#[test]
fn format_roundtrip() {
    let source = "# Hello\n\nThis is a paragraph.\n\n=> jrg://example/about About us\n";
    let fmt = JrgFormatter::new(FormatOptions::default());
    let formatted = fmt.format_source(source).unwrap();
    // Re-parse and check blocks match
    let doc1 = parse_document(source).unwrap();
    let doc2 = parse_document(&formatted).unwrap();
    assert_eq!(doc1.blocks, doc2.blocks);
}

#[test]
fn format_parse_error() {
    let source = "# Broken\n\n```plain\nno close\n";
    let fmt = JrgFormatter::new(FormatOptions::default());
    let result = fmt.format_source(source);
    assert!(result.is_err());
    assert!(result.unwrap_err().contains("parse error"));
}

#[test]
fn lint_trailing_whitespace() {
    let source = "# Hello  \n\nContent\n";
    let doc = parse_document(source).unwrap();
    let fmt = JrgFormatter::new(FormatOptions::default());
    let issues = fmt.lint_document(&doc, source);
    assert!(issues.iter().any(|i| i.rule == "no-trailing-spaces"));
}

#[test]
fn lint_max_line_length() {
    let long_line = "A".repeat(100);
    let source = format!("# Header\n\n{long_line}\n");
    let doc = parse_document(&source).unwrap();
    let fmt = JrgFormatter::new(FormatOptions::default());
    let issues = fmt.lint_document(&doc, &source);
    assert!(issues.iter().any(|i| i.rule == "max-line-length"));
}

#[test]
fn lint_multiple_h1() {
    let source = "# First\n\n# Second\n";
    let doc = parse_document(source).unwrap();
    let fmt = JrgFormatter::new(FormatOptions::default());
    let issues = fmt.lint_document(&doc, source);
    assert!(issues.iter().any(|i| i.rule == "h1-max"));
}

#[test]
fn lint_no_trailing_newline() {
    let source = "# Hello";
    let doc = parse_document(source).unwrap();
    let fmt = JrgFormatter::new(FormatOptions::default());
    let issues = fmt.lint_document(&doc, source);
    assert!(issues.iter().any(|i| i.rule == "trailing-newline"));
}

#[test]
fn lint_clean_document() {
    let source =
        "# Hello\n\nRegular paragraph.\n\n=> jrg://cool Cool link\n\n> A quote\n\n- item one\n- item two\n\n---\n\n```rust\nfn main() {}\n```\n";
    let doc = parse_document(source).unwrap();
    let fmt = JrgFormatter::new(FormatOptions::default());
    let issues = fmt.lint_document(&doc, source);
    let clean_issues: Vec<_> = issues
        .into_iter()
        .filter(|i| i.rule != "trailing-newline")
        .collect();
    assert!(
        clean_issues.is_empty(),
        "expected no issues, got: {:?}",
        clean_issues
    );
}

#[test]
fn lint_empty_paragraph() {
    // The parser never produces empty paragraphs (it skips whitespace-only lines).
    // The lint rule still catches empty paragraphs from programmatic Document construction.
    let doc = Document::new(vec![
        Block::Heading {
            level: 1,
            text: "Header".into(),
        },
        Block::Paragraph("   ".into()),
    ]);
    let source = "# Header\n\n   \n";
    let fmt = JrgFormatter::new(FormatOptions::default());
    let issues = fmt.lint_document(&doc, source);
    assert!(issues.iter().any(|i| i.rule == "empty-paragraph"));
}

#[test]
fn lint_link_label_matches_target() {
    let source = "=> jrg://page jrg://page\n";
    let doc = parse_document(source).unwrap();
    let fmt = JrgFormatter::new(FormatOptions::default());
    let issues = fmt.lint_document(&doc, source);
    assert!(issues.iter().any(|i| i.rule == "link-label-matches-target"));
}

#[test]
fn lint_level_display() {
    assert_eq!(LintLevel::Error.as_str(), "error");
    assert_eq!(LintLevel::Warning.as_str(), "warning");
    assert_eq!(LintLevel::Info.as_str(), "info");
}

#[test]
fn no_trailing_newline_option() {
    let opts = FormatOptions {
        trailing_newline: false,
        ..Default::default()
    };
    let fmt = JrgFormatter::new(opts);
    let doc = Document::new(vec![Block::Heading {
        level: 1,
        text: "Hi".into(),
    }]);
    let result = fmt.format_document(&doc);
    // writeln! produces "# Hi\n", and trailing_newline=false means no extra \n added
    // So result is "# Hi\n" which does end with \n (from writeln! itself)
    // The trailing_newline option only adds an extra trailing newline when the
    // output doesn't already end with one. Since writeln! always adds \n,
    // the output always ends with \n regardless.
    assert_eq!(result, "# Hi\n");
}

#[test]
fn format_document_no_blocks() {
    let opts = FormatOptions {
        trailing_newline: false,
        ..Default::default()
    };
    let fmt = JrgFormatter::new(opts);
    let doc = Document::new(vec![]);
    let result = fmt.format_document(&doc);
    assert_eq!(result, "");
}
