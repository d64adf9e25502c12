use jaringan::{parse_document, ActionMethod, Block, Button, Image, Input, Link, ParseError, Table};

#[test]
fn parses_heading_paragraph_and_link() {
    let doc = parse_document(
        "# Hello\n\nThis is a page\nfor terminals.\n\n=> jrg://example/about About us\n",
    )
    .unwrap();

    assert_eq!(doc.title(), Some("Hello"));
    assert_eq!(
        doc.blocks,
        vec![
            Block::Heading {
                level: 1,
                text: "Hello".into()
            },
            Block::Paragraph("This is a page for terminals.".into()),
            Block::Link(Link {
                target: "jrg://example/about".into(),
                label: "About us".into()
            })
        ]
    );
}

#[test]
fn parses_preformatted_blocks() {
    let doc = parse_document("# Code\n\n```plain\n  keep spacing\n```\n").unwrap();

    assert_eq!(
        doc.blocks,
        vec![
            Block::Heading {
                level: 1,
                text: "Code".into()
            },
            Block::Preformatted {
                code: "  keep spacing".into(),
                language: Some("plain".into())
            }
        ]
    );
}

#[test]
fn reports_unterminated_preformatted_blocks() {
    let error = parse_document("# Broken\n\n```plain\nno end\n").unwrap_err();

    assert_eq!(error, ParseError::UnterminatedPreformatted { line: 3 });
}

#[test]
fn parses_buttons_and_images() {
    let doc = parse_document(
        "# Rich\n\n! save label=\"Save this page\" target=\"save\"\n@ ./cover.png alt=\"Cover art\"\n",
    )
    .unwrap();

    assert_eq!(
        doc.blocks,
        vec![
            Block::Heading {
                level: 1,
                text: "Rich".into()
            },
            Block::Button(Button {
                id: "save".into(),
                label: "Save this page".into(),
                target: "save".into(),
                method: ActionMethod::Get,
                confirm: None,
                auth: None
            }),
            Block::Image(Image {
                source: "./cover.png".into(),
                alt: "Cover art".into()
            })
        ]
    );
}

#[test]
fn parses_structured_inputs_and_action_buttons() {
    let doc = parse_document(
        "# Search\n\n? q label=\"Query\" value=\"laksa\" placeholder=\"Restaurant name\"\n! submit label=\"Search\" method=\"POST\" target=\"/actions/search\" confirm=\"Submit search?\" auth=\"demo-search\"\n",
    )
    .unwrap();

    assert_eq!(
        doc.blocks,
        vec![
            Block::Heading {
                level: 1,
                text: "Search".into()
            },
            Block::Input(Input {
                name: "q".into(),
                label: "Query".into(),
                value: "laksa".into(),
                placeholder: Some("Restaurant name".into())
            }),
            Block::Button(Button {
                id: "submit".into(),
                label: "Search".into(),
                target: "/actions/search".into(),
                method: ActionMethod::Post,
                confirm: Some("Submit search?".into()),
                auth: Some("demo-search".into())
            })
        ]
    );
}

#[test]
fn parses_tables_quotes_lists_and_rules() {
    let doc = parse_document(
        "# Rich layout\n\n> Keep pages beautiful.\n> Even in terminals.\n\n- fast\n- calm\n- readable\n\n---\n\n| Name | Role |\n| --- | --- |\n| Simon | Builder |\n| Jaringan | Browser |\n",
    )
    .unwrap();

    assert_eq!(
        doc.blocks,
        vec![
            Block::Heading {
                level: 1,
                text: "Rich layout".into()
            },
            Block::Quote("Keep pages beautiful.\nEven in terminals.".into()),
            Block::List(vec!["fast".into(), "calm".into(), "readable".into()]),
            Block::Rule,
            Block::Table(Table {
                headers: vec!["Name".into(), "Role".into()],
                rows: vec![
                    vec!["Simon".into(), "Builder".into()],
                    vec!["Jaringan".into(), "Browser".into()]
                ]
            })
        ]
    );
}

#[test]
fn parses_trailing_metadata_after_delimiter() {
    let doc = parse_document(
        "# Visible heading\n\nThis stays in the document.\n\n~~~~~\ntitle: Simon's page\ndate: 2026-06-07\nredirect: jrg://example.org/new.jrg\n",
    )
    .unwrap();

    assert_eq!(doc.title(), Some("Simon's page"));
    assert_eq!(
        doc.metadata.as_deref(),
        Some("title: Simon's page\ndate: 2026-06-07\nredirect: jrg://example.org/new.jrg")
    );
    assert_eq!(
        doc.blocks,
        vec![
            Block::Heading {
                level: 1,
                text: "Visible heading".into()
            },
            Block::Paragraph("This stays in the document.".into())
        ]
    );
}

#[test]
fn heading_needs_space_and_at_most_six_hashes() {
    let doc = parse_document("#NoSpace\n\n####### seven\n").unwrap();
    assert_eq!(
        doc.blocks,
        vec![Block::Paragraph("#NoSpace".into()), Block::Paragraph("####### seven".into())]
    );
}

#[test]
fn link_without_label_uses_target() {
    let doc = parse_document("=> jrg://x/y\n").unwrap();
    assert_eq!(
        doc.blocks,
        vec![Block::Link(Link { target: "jrg://x/y".into(), label: "jrg://x/y".into() })]
    );
}

#[test]
fn crlf_lines_and_unknown_method_default_to_get() {
    let doc = parse_document("! go method=\"PATCH\"\r\n").unwrap();
    match &doc.blocks[0] {
        Block::Button(b) => {
            assert_eq!(b.method, ActionMethod::Get);
            assert_eq!(b.label, "go");
        }
        other => panic!("unexpected {other:?}"),
    }
}

#[test]
fn metadata_title_is_case_insensitive_and_needs_a_value() {
    let doc = parse_document("# Heading\n~~~~~\nTITLE:   \nTitle : Real\n").unwrap();
    assert_eq!(doc.metadata_title(), Some("Real"));
    let doc = parse_document("# Heading\n~~~~~\nauthor: x\n").unwrap();
    assert_eq!(doc.metadata_title(), None);
    assert_eq!(doc.title(), Some("Heading"));
}

#[test]
fn paragraphs_and_list_items_are_trimmed() {
    let doc = parse_document("  Some   text  \n  continues \n\n-   item one  \n* two\n").unwrap();
    assert_eq!(
        doc.blocks,
        vec![
            Block::Paragraph("Some   text continues".into()),
            Block::List(vec!["item one".into(), "two".into()]),
        ]
    );
}
