use jaringan::config::Config;
use jaringan::document::{ActionMethod, Block, Image, Input, Link, Table};
use jaringan::encryption::parse_32_byte_hex_key;
use jaringan::jrg_url::JaringanUrl;
use jaringan::navigation::{BrowserState, PageLocation};
use jaringan::page::{
    block_line_count, clamp_selection, collect_items, compute_find_matches, document_from_response,
    edit_selected_input, ensure_port, extract_inline_links, filename_from_url, input_payload,
    input_status, is_renderable_content_type, local_result_target, local_search_results_document,
    browser_table_row, browser_table_separator, md_to_jrg_blocks, network_error_page,
    parse_start_location, redirect_target, render_browser_table, table_column_widths,
    split_inline_spans, welcome_document, extract_selected_text, InlineSpan, InputEdit,
    InteractiveItem, LoadedPage, TextSelectPos, plan_button, finish_button, ButtonAction, ButtonStep,
    directory_page, image_source, local_image_status, DirEntryInfo, ImageSource,
};
use jaringan::parse_document;
use jaringan::protocol::{Response, ResponseTag, StatusCode};
use jaringan::search::SearchIndex;
use jaringan::signature::SignatureStatus;

fn page_of(document: jaringan::Document) -> LoadedPage {
    LoadedPage {
        location: PageLocation::File("/tmp/tools.jrg".to_string()),
        items: collect_items(&document),
        document,
        signature_status: SignatureStatus::Unsigned,
        raw_body: None,
        content_type: String::new(),
        body_size: 0,
        load_time_ms: 0,
    }
}

#[test]
fn edited_inputs_are_collected_into_action_payload() {
    let document = parse_document(
        "# Tools\n\n? q label=\"Query\" value=\"laksa\"\n! search label=\"Search\" method=\"POST\" target=\"/actions/search\"\n",
    )
    .unwrap();
    let mut page = page_of(document);
    let mut state = BrowserState::new(page.location.clone(), Config::default());

    for _ in 0..5 {
        edit_selected_input(&mut state, &mut page, InputEdit::Backspace);
    }
    for ch in "nasi goreng".chars() {
        edit_selected_input(&mut state, &mut page, InputEdit::Append(ch));
    }

    assert_eq!(input_payload(&page), "q=nasi%20goreng");
    assert_eq!(state.status, "Updated q = nasi goreng");
}

#[test]
fn editing_without_a_selected_input_changes_nothing() {
    let document = parse_document("# Tools\n\n=> /docs Docs\n? q value=\"x\"\n").unwrap();
    let mut page = page_of(document);
    let mut state = BrowserState::new(page.location.clone(), Config::default());
    state.selected = 0;
    edit_selected_input(&mut state, &mut page, InputEdit::Append('y'));
    assert_eq!(input_payload(&page), "q=x");
    assert_eq!(state.status, BrowserState::new(page.location.clone(), Config::default()).status);
    state.selected = 1;
    edit_selected_input(&mut state, &mut page, InputEdit::Append('y'));
    assert_eq!(input_payload(&page), "q=xy");
}

#[test]
fn markdown_files_become_headings_lists_and_paragraphs() {
    let blocks = md_to_jrg_blocks("# Title\nfirst line\nsecond line\n\n- one\n* two\n+ three\nafter\n\n### Small\n## Mid\n");
    assert_eq!(
        blocks,
        vec![
            Block::Heading { level: 1, text: "Title".to_string() },
            Block::Paragraph("first line second line".to_string()),
            Block::List(vec!["one".to_string(), "two".to_string(), "three".to_string()]),
            Block::Paragraph("after".to_string()),
            Block::Heading { level: 3, text: "Small".to_string() },
            Block::Heading { level: 2, text: "Mid".to_string() },
        ]
    );
    assert_eq!(md_to_jrg_blocks(""), Vec::<Block>::new());
    assert_eq!(md_to_jrg_blocks("#nospace"), vec![Block::Paragraph("#nospace".to_string())]);
}

#[test]
fn inline_links_are_split_out_of_paragraph_text() {
    assert_eq!(
        split_inline_spans("See [docs](/docs) and [](empty) now"),
        vec![
            InlineSpan::Text("See ".to_string()),
            InlineSpan::Link { label: "docs".to_string(), target: "/docs".to_string() },
            InlineSpan::Text(" and [](empty) now".to_string()),
        ]
    );
    assert_eq!(split_inline_spans(""), Vec::<InlineSpan>::new());
    assert_eq!(
        extract_inline_links("[a](1)[b](2) [c]"),
        vec![("a".to_string(), "1".to_string()), ("b".to_string(), "2".to_string())]
    );
}

#[test]
fn items_include_paragraph_links_in_page_order() {
    let document = parse_document("Read [guide](/guide) first.\n\n=> /about About\n? q label=\"Q\"\n").unwrap();
    let items = collect_items(&document);
    assert_eq!(items.len(), 3);
    assert!(matches!(&items[0], InteractiveItem::Link { label, target } if label == "guide" && target == "/guide"));
    assert!(matches!(&items[1], InteractiveItem::Link { label, target } if label == "About" && target == "/about"));
    assert!(matches!(&items[2], InteractiveItem::Input(input) if input.name == "q"));
}

#[test]
fn blocks_take_their_lines_and_a_blank() {
    assert_eq!(block_line_count(&Block::Heading { level: 1, text: "T".to_string() }), 2);
    assert_eq!(block_line_count(&Block::Paragraph("a\nb\nc".to_string())), 4);
    assert_eq!(block_line_count(&Block::Paragraph(String::new())), 2);
    assert_eq!(block_line_count(&Block::List(vec!["x".to_string(), "y".to_string()])), 3);
    assert_eq!(block_line_count(&Block::Preformatted { code: "a\nb".to_string(), language: None }), 5);
    assert_eq!(block_line_count(&Block::Rule), 2);
    assert_eq!(block_line_count(&Block::Script { wasm: vec![0, 1], label: None }), 0);
}

#[test]
fn input_status_falls_back_to_placeholder() {
    let input = Input {
        name: "q".to_string(),
        label: "Query".to_string(),
        value: String::new(),
        placeholder: Some("search".to_string()),
    };
    assert_eq!(input_status(&input), "Input q = search");
    let filled = Input { value: "laksa".to_string(), ..input };
    assert_eq!(input_status(&filled), "Input q = laksa");
}

#[test]
fn selection_is_clamped_to_the_items() {
    let mut state = BrowserState::new(PageLocation::File("/tmp/a.jrg".to_string()), Config::default());
    state.selected = 9;
    clamp_selection(&mut state, 3);
    assert_eq!(state.selected, 2);
    clamp_selection(&mut state, 0);
    assert_eq!(state.selected, 0);
    state.selected = 1;
    clamp_selection(&mut state, 5);
    assert_eq!(state.selected, 1);
}

#[test]
fn redirect_target_is_the_first_redirect_tag() {
    let response = Response::page(StatusCode::Found, String::new())
        .with_tag(ResponseTag::Stream)
        .with_tag(ResponseTag::Redirect { target: "/next".to_string() })
        .with_tag(ResponseTag::Redirect { target: "/later".to_string() });
    assert_eq!(redirect_target(&response), Some("/next"));
    let plain = Response::page(StatusCode::Success, String::new());
    assert_eq!(redirect_target(&plain), None);
}

#[test]
fn network_error_page_shows_the_message() {
    let url = JaringanUrl::parse("jrg://127.0.0.1:1/missing.jrg").unwrap();
    let page = network_error_page(url.clone(), "connection refused".to_string());
    assert_eq!(page.location, PageLocation::Network(url));
    assert_eq!(
        page.document.blocks,
        vec![
            Block::Heading { level: 1, text: "Network error".to_string() },
            Block::Preformatted { code: "connection refused".to_string(), language: None },
        ]
    );
    assert_eq!(page.content_type, "error");
    assert!(page.items.is_empty());
}

#[test]
fn responses_that_are_not_pages_are_shown_as_text() {
    let missing = Response::text(StatusCode::NotFound, "no such page".to_string());
    let doc = document_from_response(&missing).unwrap();
    assert_eq!(
        doc.blocks,
        vec![Block::Preformatted { code: "JRG/0.1 404 Not Found\n\nno such page".to_string(), language: None }]
    );
    let ok = Response::text(StatusCode::Success, "hello".to_string());
    assert_eq!(
        document_from_response(&ok).unwrap().blocks,
        vec![Block::Preformatted { code: "hello".to_string(), language: None }]
    );
    let page = Response::page(StatusCode::Success, "# Home\n".to_string());
    assert_eq!(
        document_from_response(&page).unwrap().blocks,
        vec![Block::Heading { level: 1, text: "Home".to_string() }]
    );
}

#[test]
fn start_locations_are_told_apart_by_scheme() {
    assert_eq!(
        parse_start_location("jrg://example.org/index.jrg").unwrap(),
        PageLocation::Network(JaringanUrl::parse("jrg://example.org/index.jrg").unwrap())
    );
    assert_eq!(
        parse_start_location("https://example.org").unwrap(),
        PageLocation::Web("https://example.org".to_string())
    );
    assert_eq!(parse_start_location("site/index.jrg").unwrap(), PageLocation::File("site/index.jrg".to_string()));
}

#[test]
fn addresses_get_the_default_port() {
    assert_eq!(ensure_port("localhost"), "localhost:7070");
    assert_eq!(ensure_port("example.org/"), "example.org:7070");
    assert_eq!(ensure_port("127.0.0.1:9000"), "127.0.0.1:9000");
    assert_eq!(ensure_port("[::1]"), "[::1]:7070");
    assert_eq!(ensure_port("[::1]:8080"), "[::1]:8080");
}

#[test]
fn download_names_come_from_the_url_path() {
    assert_eq!(filename_from_url("https://example.org/files/report.pdf?x=1"), "report.pdf");
    assert_eq!(filename_from_url("https://example.org/"), "download");
    assert_eq!(filename_from_url("https://example.org/a/.."), "download");
    assert_eq!(filename_from_url("plain"), "plain");
}

#[test]
fn renderable_content_types() {
    assert!(is_renderable_content_type("text/jrg"));
    assert!(is_renderable_content_type("application/json"));
    assert!(is_renderable_content_type("directory"));
    assert!(is_renderable_content_type(""));
    assert!(is_renderable_content_type("error"));
    assert!(!is_renderable_content_type("image/png"));
    assert!(!is_renderable_content_type("application/pdf"));
}

#[test]
fn local_results_lose_their_local_prefix() {
    assert_eq!(local_result_target("jrg://local/docs/a.jrg"), "docs/a.jrg");
    assert_eq!(local_result_target("jrg://remote/a.jrg"), "jrg://remote/a.jrg");
}

#[test]
fn empty_local_search_says_nothing_was_found() {
    let index = SearchIndex::default();
    let doc = local_search_results_document(&index, "laksa");
    assert_eq!(
        doc.blocks,
        vec![
            Block::Heading { level: 1, text: "Search results for laksa".to_string() },
            Block::Paragraph("No results found.".to_string()),
        ]
    );
}

#[test]
fn find_matches_ignore_case() {
    let lines = vec!["Hello World".to_string(), "nothing".to_string(), "WORLDS apart".to_string()];
    assert_eq!(compute_find_matches(&lines, "world"), vec![0, 2]);
    assert_eq!(compute_find_matches(&lines, ""), Vec::<usize>::new());
    assert_eq!(compute_find_matches(&lines, "zzz"), Vec::<usize>::new());
}

#[test]
fn hex_keys_are_read_pair_by_pair() {
    let text = format!("  {}  ", "0f".repeat(32));
    assert_eq!(parse_32_byte_hex_key(&text).unwrap(), [0x0f; 32]);
    assert_eq!(
        parse_32_byte_hex_key(&"+f".repeat(32)).unwrap_err(),
        "invalid hex byte `+f` in JARINGAN_ENCRYPTION_KEY_HEX"
    );
    assert_eq!(
        parse_32_byte_hex_key(&"+0".repeat(32)).unwrap_err(),
        "invalid hex byte `+0` in JARINGAN_ENCRYPTION_KEY_HEX"
    );
    assert_eq!(
        parse_32_byte_hex_key("abc").unwrap_err(),
        "JARINGAN_ENCRYPTION_KEY_HEX must be exactly 64 hex characters"
    );
    let bad = format!("zz{}", "00".repeat(31));
    assert_eq!(
        parse_32_byte_hex_key(&bad).unwrap_err(),
        "invalid hex byte `zz` in JARINGAN_ENCRYPTION_KEY_HEX"
    );
    let split = format!("0{}{}", "é", "0".repeat(61));
    assert_eq!(parse_32_byte_hex_key(&split).unwrap_err(), "encryption key contains invalid UTF-8");
}

#[test]
fn welcome_page_opens_with_its_heading() {
    let doc = welcome_document();
    assert_eq!(doc.blocks[0], Block::Heading { level: 1, text: "Welcome to Jaringan".to_string() });
    assert_eq!(doc.blocks.len(), 13);
    assert_eq!(
        doc.blocks[3],
        Block::Link(Link { target: ".".to_string(), label: "Browse .jrg files in current directory".to_string() })
    );
}

fn fruit_table() -> Table {
    Table {
        headers: vec!["Name".to_string(), "Qty".to_string()],
        rows: vec![
            vec!["Apple".to_string(), "3".to_string()],
            vec!["Banana\nRipe".to_string(), "12".to_string()],
        ],
    }
}

#[test]
fn table_columns_fit_their_widest_line() {
    assert_eq!(table_column_widths(&fruit_table()), vec![6, 3]);
    let wide = Table { headers: vec!["h".to_string()], rows: vec![vec!["x".repeat(45)]] };
    assert_eq!(table_column_widths(&wide), vec![40]);
    let empty = Table { headers: vec![], rows: vec![] };
    assert_eq!(table_column_widths(&empty), Vec::<usize>::new());
}

#[test]
fn tables_are_drawn_line_by_line() {
    assert_eq!(
        render_browser_table(&fruit_table()),
        vec![
            "  │ Name   │ Qty │".to_string(),
            "  ├────────┼─────┤".to_string(),
            "  │ Apple  │ 3   │".to_string(),
            "  │ Banana │ 12  │".to_string(),
            "  ├┄┄┄┄┄┄┄┄┼┄┄┄┄┄┤".to_string(),
            "  │ Ripe   │     │".to_string(),
        ]
    );
    assert_eq!(render_browser_table(&Table { headers: vec![], rows: vec![] }), Vec::<String>::new());
}

#[test]
fn wide_cells_are_cut_with_an_ellipsis() {
    let row = vec!["abcdef".to_string()];
    assert_eq!(browser_table_row(&row, &[4]), "  │ abc… │");
    assert_eq!(browser_table_row(&[], &[2]), "  │    │");
    assert_eq!(browser_table_separator(&[1]), "  ├───┤");
}

#[test]
fn selected_text_spans_rows_and_clips_columns() {
    let lines = vec!["hello world".to_string(), "second line".to_string(), "third".to_string()];
    let a = TextSelectPos { row: 0, col: 6 };
    let b = TextSelectPos { row: 2, col: 3 };
    assert_eq!(extract_selected_text(&lines, a, b), "world\nsecond line\nthi");
    assert_eq!(extract_selected_text(&lines, b, a), "world\nsecond line\nthi");
    assert_eq!(
        extract_selected_text(&lines, TextSelectPos { row: 1, col: 7 }, TextSelectPos { row: 1, col: 2 }),
        "cond "
    );
    assert_eq!(
        extract_selected_text(&lines, TextSelectPos { row: 1, col: 0 }, TextSelectPos { row: 5, col: 2 }),
        "second line\nthird\n"
    );
}

fn spell(spans: &[InlineSpan]) -> String {
    spans
        .iter()
        .map(|s| match s {
            InlineSpan::Text(t) => t.clone(),
            InlineSpan::Link { label, target } => format!("[{label}]({target})"),
        })
        .collect()
}

#[test]
fn inline_spans_spell_the_text_again() {
    for text in ["a [b](c) d", "[x](y)", "no links", "[](z) [q]( ) [r](s)", ""] {
        assert_eq!(spell(&split_inline_spans(text)), text);
    }
}

#[test]
fn markdown_never_shows_empty_blocks() {
    for source in ["\n\n\n", "- \n\n* x\n", "   \n# \n", "a\n\n\nb"] {
        for block in md_to_jrg_blocks(source) {
            match block {
                Block::List(items) => assert!(!items.is_empty()),
                Block::Paragraph(text) => assert!(!text.is_empty()),
                _ => {}
            }
        }
    }
}

#[test]
fn backspace_undoes_a_typed_character() {
    let document = parse_document("? q value=\"abc\"\n").unwrap();
    let mut page = page_of(document);
    let mut state = BrowserState::new(page.location.clone(), Config::default());
    edit_selected_input(&mut state, &mut page, InputEdit::Append('z'));
    assert_eq!(input_payload(&page), "q=abcz");
    edit_selected_input(&mut state, &mut page, InputEdit::Backspace);
    assert_eq!(input_payload(&page), "q=abc");
}

fn action(target: &str, method: ActionMethod, confirm: Option<&str>, label: &str) -> ButtonAction {
    ButtonAction {
        id: "go".to_string(),
        label: label.to_string(),
        target: target.to_string(),
        method,
        confirm: confirm.map(str::to_string),
        auth: None,
    }
}

fn form_page(location: PageLocation) -> LoadedPage {
    let document = parse_document("? q value=\"laksa\"\n").unwrap();
    let mut page = page_of(document);
    page.location = location;
    page
}

#[test]
fn buttons_with_a_prompt_ask_before_they_act() {
    let page = form_page(PageLocation::File("/tmp/site/tools.jrg".to_string()));
    let mut state = BrowserState::new(page.location.clone(), Config::default());
    let a = action("/actions/search", ActionMethod::Post, Some("Really?"), "Go");
    assert!(matches!(plan_button(&mut state, &page, &a), ButtonStep::AskConfirm));
    assert_eq!(state.status, "Really? Press Enter again to confirm.");
    match plan_button(&mut state, &page, &a) {
        ButtonStep::PostLocal { url, payload, auth } => {
            assert_eq!(url.as_str(), "jrg://localhost/actions/search");
            assert_eq!(payload, "q=laksa");
            assert_eq!(auth, None);
        }
        other => panic!("unexpected step {other:?}"),
    }
    assert!(state.pending_confirmation.is_none());
}

#[test]
fn button_steps_follow_the_page_and_method() {
    let file = form_page(PageLocation::File("/tmp/site/tools.jrg".to_string()));
    let mut state = BrowserState::new(file.location.clone(), Config::default());
    match plan_button(&mut state, &file, &action("./submit", ActionMethod::Post, None, "Go")) {
        ButtonStep::PostLocal { url, .. } => assert_eq!(url.as_str(), "jrg://localhost/submit"),
        other => panic!("unexpected step {other:?}"),
    }
    match plan_button(&mut state, &file, &action("/search", ActionMethod::Get, None, "Go")) {
        ButtonStep::SearchLocal { query } => assert_eq!(query, "laksa"),
        other => panic!("unexpected step {other:?}"),
    }
    let net = form_page(PageLocation::Network(JaringanUrl::parse("jrg://example.org/forms/index.jrg").unwrap()));
    match plan_button(&mut state, &net, &action("submit", ActionMethod::Post, None, "Go")) {
        ButtonStep::PostNetwork { url, payload, .. } => {
            assert_eq!(url.as_str(), "jrg://example.org/forms/submit");
            assert_eq!(payload, "q=laksa");
        }
        other => panic!("unexpected step {other:?}"),
    }
    assert!(matches!(plan_button(&mut state, &net, &action("/go", ActionMethod::Get, None, "")), ButtonStep::Confirmed));
    assert_eq!(state.status, "Confirmed GET action: /go?q=laksa (unnamed action)");
}

#[test]
fn finished_actions_show_their_answer() {
    let mut page = form_page(PageLocation::File("/tmp/site/tools.jrg".to_string()));
    let mut state = BrowserState::new(page.location.clone(), Config::default());
    let a = action("/search", ActionMethod::Get, None, "Find");
    let step = plan_button(&mut state, &page, &a);
    let answer = parse_document("# Results\n\n=> /a.jrg A\n").unwrap();
    finish_button(&mut state, &mut page, &step, &a, answer);
    assert_eq!(state.status, "Searched local index for: laksa");
    assert_eq!(page.location, PageLocation::File("/tmp/site/tools.jrg".to_string()));
    assert_eq!(page.items.len(), 1);
    assert_eq!(page.content_type, "jrg");

    let mut net = form_page(PageLocation::Network(JaringanUrl::parse("jrg://example.org/forms/index.jrg").unwrap()));
    let post = action("submit", ActionMethod::Post, None, "Send");
    let step = plan_button(&mut state, &net, &post);
    finish_button(&mut state, &mut net, &step, &post, parse_document("# Thanks\n").unwrap());
    assert_eq!(state.status, "Submitted POST action: submit?q=laksa");
    assert_eq!(net.location, PageLocation::Network(JaringanUrl::parse("jrg://example.org/forms/submit").unwrap()));
    assert_eq!(state.current, net.location);
}

#[test]
fn block_summaries_name_the_kind_and_text() {
    let (kind, text) = jaringan::page::block_summary(&Block::Heading { level: 2, text: "Intro".to_string() });
    assert_eq!(kind, "heading");
    assert_eq!(text, Some("Intro".to_string()));
    let (kind, text) = jaringan::page::block_summary(&Block::Rule);
    assert_eq!(kind, "rule");
    assert_eq!(text, None);
}

fn entry(name: &str, is_dir: bool) -> DirEntryInfo {
    DirEntryInfo { name: name.to_string(), is_dir }
}

#[test]
fn directory_pages_list_pages_and_folders_in_name_order() {
    let entries = vec![
        entry("b.jrg", false),
        entry("notes.txt", false),
        entry("a.jrg", false),
        entry("sub", true),
        entry(".jrg", false),
        entry("x.tar.jrg", false),
    ];
    let page = directory_page("/tmp/site", &entries);
    let link = |target: &str, label: &str| Block::Link(Link { target: target.to_string(), label: label.to_string() });
    assert_eq!(
        page.document.blocks,
        vec![
            Block::Heading { level: 1, text: "Directory: /tmp/site".to_string() },
            Block::Paragraph("Found 3 .jrg files".to_string()),
            link("a.jrg", "a"),
            link("b.jrg", "b"),
            link("sub", "Directory: sub/"),
            link("x.tar.jrg", "x.tar"),
        ]
    );
    assert_eq!(page.location, PageLocation::File("/tmp/site".to_string()));
    assert_eq!(page.content_type, "dir");
    assert_eq!(page.items.len(), 4);
}

#[test]
fn empty_directories_say_so() {
    let page = directory_page("/tmp/empty", &[entry("readme.md", false)]);
    assert_eq!(
        page.document.blocks,
        vec![
            Block::Heading { level: 1, text: "Directory: /tmp/empty".to_string() },
            Block::Paragraph("Found 0 .jrg files".to_string()),
            Block::Paragraph(
                "No .jrg files found. Run `jaringan-browser init` or create .jrg files manually.".to_string()
            ),
        ]
    );
}

#[test]
fn images_are_found_by_where_the_page_is() {
    let img = |source: &str| Image { source: source.to_string(), alt: "pic".to_string() };
    let file = PageLocation::File("/tmp/site/page.jrg".to_string());
    assert_eq!(
        image_source(&file, &img("https://example.org/a.png")),
        ImageSource::Remote("https://example.org/a.png".to_string())
    );
    assert_eq!(image_source(&file, &img("a.png")), ImageSource::Local("/tmp/site/a.png".to_string()));
    let net = PageLocation::Network(JaringanUrl::parse("jrg://example.org/page.jrg").unwrap());
    assert_eq!(
        image_source(&net, &img("a.png")),
        ImageSource::Network("Network image reference: a.png".to_string())
    );
    assert_eq!(local_image_status("/tmp/a.png", true), "Local image available: /tmp/a.png");
    assert_eq!(local_image_status("/tmp/a.png", false), "Image missing: /tmp/a.png");
}
