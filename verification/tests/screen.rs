use jaringan::browser::FindState;
use jaringan::navigation::PageLocation;
use jaringan::page::{collect_items, LoadedPage};
use jaringan::parse_document;
use jaringan::screen::{browser_lines, line_texts, FindMark, ItemKind, Role, StyledLine, StyledSpan};
use jaringan::signature::SignatureStatus;

fn page(source: &str) -> LoadedPage {
    let document = parse_document(source).unwrap();
    LoadedPage {
        location: PageLocation::File("/tmp/site/index.jrg".to_string()),
        items: collect_items(&document),
        document,
        signature_status: SignatureStatus::Unsigned,
        raw_body: Some(source.to_string()),
        content_type: "jrg".to_string(),
        body_size: source.len(),
        load_time_ms: 0,
    }
}

fn s(text: &str, role: Role, selected: bool) -> StyledSpan {
    StyledSpan { text: text.to_string(), role, selected }
}

fn no_find() -> FindState {
    FindState { query: String::new(), matches: vec![], match_idx: 0 }
}

#[test]
fn pages_are_shown_as_tagged_lines() {
    let p = page("# Hi\n\nSee [a](/a) now\n\n=> /b B\n");
    let lines = browser_lines(&p, 1, &no_find(), false);
    let line = |spans: Vec<StyledSpan>| StyledLine { spans, mark: FindMark::NoMatch };
    assert_eq!(
        lines,
        vec![
            line(vec![s("# Hi", Role::Heading(1), false)]),
            line(vec![]),
            line(vec![
                s("See ", Role::Text, false),
                s("a", Role::InlineLink, false),
                s(" now", Role::Text, false),
            ]),
            line(vec![]),
            line(vec![
                s("\u{276f} ", Role::Item(ItemKind::Link), true),
                s("\u{21b3} B", Role::Item(ItemKind::Link), true),
                s("  ", Role::Item(ItemKind::Link), true),
                s("/b", Role::ItemTarget(ItemKind::Link), true),
            ]),
        ]
    );
}

#[test]
fn find_matches_mark_their_lines() {
    let p = page("alpha\n\nbeta\n\ngamma\n");
    let f = FindState { query: "a".to_string(), matches: vec![0, 2, 4], match_idx: 1 };
    let marks: Vec<FindMark> = browser_lines(&p, 0, &f, false).iter().map(|l| l.mark).collect();
    assert_eq!(
        marks,
        vec![FindMark::Match, FindMark::NoMatch, FindMark::Current, FindMark::NoMatch, FindMark::Match, FindMark::NoMatch]
    );
}

#[test]
fn source_view_shows_the_raw_body() {
    let p = page("# Hi\n");
    let lines = browser_lines(&p, 0, &no_find(), true);
    assert_eq!(lines.len(), 3);
    assert_eq!(lines[0].spans[0].text, "── Source view ──");
    assert_eq!(lines[2].spans, vec![s("# Hi", Role::Source, false)]);
}

#[test]
fn code_quotes_lists_and_rules_have_their_borders() {
    let p = page("> q1\n\n- x\n\n---\n\n```\nc\n```\n");
    let texts: Vec<String> = browser_lines(&p, 0, &no_find(), false)
        .iter()
        .map(|l| l.spans.iter().map(|s| s.text.clone()).collect::<String>())
        .collect();
    assert_eq!(
        texts,
        vec![
            "┃ q1".to_string(),
            String::new(),
            "  ◆ x".to_string(),
            String::new(),
            format!("  {}", "─".repeat(48)),
            String::new(),
            "╭─".to_string(),
            "│ c".to_string(),
            "╰─".to_string(),
            String::new(),
        ]
    );
}

#[test]
fn shown_lines_give_their_texts() {
    let p = page("# Hi\n\n=> /b B\n");
    let lines = browser_lines(&p, 5, &no_find(), false);
    let texts = line_texts(&lines);
    assert_eq!(texts.len(), lines.len());
    assert_eq!(texts[0], "# Hi");
    assert_eq!(texts[1], "");
    assert!(texts[2].contains('B'));
}
