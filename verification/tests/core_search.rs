use jaringan::parse_document;
use jaringan::search::{SearchEntry, SearchIndex, SearchLink};

#[test]
fn search_index_extracts_titles_headings_links_and_metadata() {
    let document = parse_document(
        "# Laksa guide\n\n## Penang stalls\n\n=> food/penang.jrg Penang food map\n\n~~~~~\ntitle: Street Food Index\ntags: laksa, hawker\n",
    )
    .unwrap();

    let entry = SearchEntry::from_document("jrg://local/laksa.jrg", &document);

    assert_eq!(entry.url, "jrg://local/laksa.jrg");
    assert_eq!(entry.title, "Street Food Index");
    assert_eq!(entry.headings, vec!["Laksa guide", "Penang stalls"]);
    assert_eq!(
        entry.links,
        vec![SearchLink {
            target: "food/penang.jrg".into(),
            label: "Penang food map".into(),
        }]
    );
    assert_eq!(
        entry.metadata.as_deref(),
        Some("title: Street Food Index\ntags: laksa, hawker")
    );
    assert!(entry.search_text().contains("hawker"));
}

#[test]
fn search_index_returns_ranked_case_insensitive_matches() {
    let mut index = SearchIndex::default();
    index.add(SearchEntry {
        url: "jrg://local/penang.jrg".into(),
        title: "Penang Laksa".into(),
        headings: vec!["Hawker guide".into()],
        links: Vec::new(),
        metadata: None,
        body: String::new(),
    });
    index.add(SearchEntry {
        url: "jrg://local/coffee.jrg".into(),
        title: "Coffee".into(),
        headings: vec!["Laksa nearby".into()],
        links: Vec::new(),
        metadata: Some("tags: cafe".into()),
        body: String::new(),
    });

    let results = index.search("laksa");

    assert_eq!(results.len(), 2);
    assert_eq!(results[0].entry.url, "jrg://local/penang.jrg");
    assert!(results[0].score > results[1].score);
    assert_eq!(results[0].snippet, "Penang Laksa");
}

#[test]
fn search_requires_all_query_tokens_and_snippets_matching_body_text() {
    let document = parse_document(
        "# Food notes\n\nThe best evening laksa stall is beside the blue market.\nCoffee appears elsewhere.\n",
    )
    .unwrap();
    let mut index = SearchIndex::default();
    index.add(SearchEntry::from_document("jrg://local/food.jrg", &document));

    assert!(index.search("laksa satay").is_empty());
    let results = index.search("evening laksa");

    assert_eq!(results.len(), 1);
    assert_eq!(
        results[0].snippet,
        "The best evening laksa stall is beside the blue market."
    );
}

#[test]
fn search_index_serializes_and_loads_from_text() {
    let mut index = SearchIndex::default();
    index.add(SearchEntry {
        url: "jrg://local/penang.jrg".into(),
        title: "Penang Laksa".into(),
        headings: vec!["Hawker guide".into()],
        links: vec![SearchLink {
            target: "../index.jrg".into(),
            label: "Back home".into(),
        }],
        metadata: Some("tags: laksa, hawker".into()),
        body: "A body with tabs\tand newlines\ninside.".into(),
    });

    let encoded = index.to_index_text();
    let decoded = SearchIndex::from_index_text(&encoded).unwrap();

    assert_eq!(decoded.entries(), index.entries());
    assert_eq!(decoded.search("hawker")[0].entry.title, "Penang Laksa");
}

#[test]
fn index_text_escapes_fields_exactly() {
    let mut index = SearchIndex::default();
    index.add(SearchEntry {
        url: "u\\1".into(),
        title: "T".into(),
        headings: vec!["a".into(), "b\u{1f}".into()],
        links: vec![SearchLink { target: "x".into(), label: "y\t".into() }],
        metadata: None,
        body: "line1\nline2".into(),
    });
    assert_eq!(
        index.to_index_text(),
        "JRG-SEARCH/0.1\nu\\\\1\tT\ta\u{1f}b\\u001f\tx\u{1e}y\\t\t\tline1\\nline2\n"
    );
}

#[test]
fn index_text_errors_name_the_problem() {
    assert_eq!(SearchIndex::from_index_text("").unwrap_err(), "empty search index");
    assert_eq!(
        SearchIndex::from_index_text("OTHER/1\n").unwrap_err(),
        "unsupported search index header: OTHER/1"
    );
    assert_eq!(
        SearchIndex::from_index_text("JRG-SEARCH/0.1\na\tb\n").unwrap_err(),
        "bad search index entry at line 2: expected 6 fields"
    );
    assert_eq!(
        SearchIndex::from_index_text("JRG-SEARCH/0.1\n\n\nu\tt\t\tnolabel\t\tb\n").unwrap_err(),
        "bad link field at line 4"
    );
    assert_eq!(
        SearchIndex::from_index_text("JRG-SEARCH/0.1\nu\\q\tt\t\t\t\tb\n").unwrap_err(),
        "unsupported escape: \\q"
    );
    assert_eq!(
        SearchIndex::from_index_text("JRG-SEARCH/0.1\nu\\u00\tt\t\t\t\tb\n").unwrap_err(),
        "unsupported escape: \\u00"
    );
    assert_eq!(
        SearchIndex::from_index_text("JRG-SEARCH/0.1\nu\\\tt\t\t\t\tb\n").unwrap_err(),
        "trailing escape in search index field"
    );
}

#[test]
fn blank_lines_in_index_text_hold_no_entry() {
    let idx = SearchIndex::from_index_text("JRG-SEARCH/0.1\n   \nu\tt\th\t\tm\tb\n").unwrap();
    assert_eq!(idx.entries().len(), 1);
    assert_eq!(idx.entries()[0].headings, vec!["h".to_string()]);
    assert_eq!(idx.entries()[0].metadata.as_deref(), Some("m"));
}

#[test]
fn search_orders_equal_scores_by_title_then_url() {
    let mut index = SearchIndex::default();
    for (url, title) in [("jrg://b", "Same"), ("jrg://a", "Same"), ("jrg://c", "Alpha")] {
        index.add(SearchEntry {
            url: url.into(),
            title: title.into(),
            headings: Vec::new(),
            links: Vec::new(),
            metadata: None,
            body: "shared word".into(),
        });
    }
    let results = index.search("WORD");
    let urls: Vec<&str> = results.iter().map(|r| r.entry.url.as_str()).collect();
    assert_eq!(urls, vec!["jrg://c", "jrg://a", "jrg://b"]);
    assert_eq!(results[0].score, 1);
    assert_eq!(results[0].snippet, "shared word");
}

#[test]
fn search_scores_every_matching_field_and_ignores_punctuation_only_queries() {
    let mut index = SearchIndex::default();
    index.add(SearchEntry {
        url: "jrg://x".into(),
        title: "Laksa".into(),
        headings: vec!["laksa".into()],
        links: vec![SearchLink { target: "laksa.jrg".into(), label: "Laksa".into() }],
        metadata: Some("laksa. more laksa".into()),
        body: "LAKSA".into(),
    });
    let results = index.search("laksa!");
    assert_eq!(results.len(), 1);
    assert_eq!(results[0].score, 10 + 5 + 3 + 3 + 1 + 1 + 1);
    assert!(index.search("?!").is_empty());
}

#[test]
fn search_text_joins_all_parts() {
    let e = SearchEntry {
        url: "u".into(),
        title: "T".into(),
        headings: vec!["h1".into(), "h2".into()],
        links: vec![SearchLink { target: "t".into(), label: "l".into() }],
        metadata: None,
        body: "b".into(),
    };
    assert_eq!(e.search_text(), "T h1 h2 l t  b");
}

#[test]
fn a_query_of_punctuation_finds_nothing() {
    let mut index = SearchIndex::default();
    index.add(SearchEntry {
        url: "jrg://local/p.jrg".into(),
        title: "Penang -- Laksa!".into(),
        headings: vec!["?!".into()],
        links: Vec::new(),
        metadata: None,
        body: "... --- !!!".into(),
    });
    assert!(index.search("--- !?.").is_empty());
    assert_eq!(index.search("LAKSA").len(), 1);
}

#[test]
fn equal_scores_are_ordered_by_title_then_url() {
    let mut index = SearchIndex::default();
    for (url, title) in [("jrg://local/c.jrg", "Beta noodles"), ("jrg://local/b.jrg", "Alpha noodles"), ("jrg://local/a.jrg", "Alpha noodles")] {
        index.add(SearchEntry {
            url: url.into(),
            title: title.into(),
            headings: Vec::new(),
            links: Vec::new(),
            metadata: None,
            body: String::new(),
        });
    }
    let urls: Vec<&str> = index.search("noodles").iter().map(|r| r.entry.url.as_str()).collect();
    assert_eq!(urls, vec!["jrg://local/a.jrg", "jrg://local/b.jrg", "jrg://local/c.jrg"]);
}
