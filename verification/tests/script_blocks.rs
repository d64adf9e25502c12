use jaringan::script::{blocks_to_script_blocks, script_blocks_to_blocks, ScriptBlock};
use jaringan::{ActionMethod, Block, Button, Image, Input, Link, Table};

#[test]
fn blocks_convert_back_and_forth() {
    let original = vec![
        Block::Heading { level: 1, text: "Test".into() },
        Block::Paragraph("Content".into()),
        Block::Link(Link { target: "jrg://test".into(), label: "Test Link".into() }),
        Block::Image(Image { source: "img.png".into(), alt: "An image".into() }),
        Block::Quote("Cited text".into()),
        Block::List(vec!["one".into(), "two".into()]),
        Block::Table(Table {
            headers: vec!["A".into()],
            rows: vec![vec!["1".into()]],
        }),
        Block::Preformatted { code: "code".into(), language: None },
    ];

    let script_blocks = blocks_to_script_blocks(&original);
    let back = script_blocks_to_blocks(&script_blocks);

    assert_eq!(original.len(), back.len());
    for (a, b) in original.iter().zip(back.iter()) {
        assert_eq!(format!("{a:?}"), format!("{b:?}"));
    }
}

#[test]
fn controls_and_rules_are_shown_as_text() {
    let blocks = vec![
        Block::Input(Input { name: "q".into(), label: "Query".into(), value: "laksa".into(), placeholder: None }),
        Block::Button(Button {
            id: "go".into(),
            label: "Go".into(),
            target: "/search".into(),
            method: ActionMethod::Post,
            confirm: None,
            auth: None,
        }),
        Block::Rule,
        Block::Script { wasm: vec![0, 97], label: Some("x".into()) },
    ];
    let sb = blocks_to_script_blocks(&blocks);
    assert!(matches!(&sb[0], ScriptBlock::Paragraph { text } if text == "Query: laksa"));
    assert!(matches!(&sb[1], ScriptBlock::Paragraph { text } if text == "◉ Go -> /search"));
    assert!(matches!(&sb[2], ScriptBlock::List { items, ordered: false } if items == &vec!["───────────────".to_string()]));
    assert!(matches!(&sb[3], ScriptBlock::Paragraph { text } if text == "[script block]"));
    let back = script_blocks_to_blocks(&[ScriptBlock::Image { url: "u".into(), alt: None }]);
    assert_eq!(back, vec![Block::Image(Image { source: "u".into(), alt: String::new() })]);
}
