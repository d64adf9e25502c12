use jaringan::browser::{
    bookmark_at, bookmarks_path, cache_filename_for_url, config_path, history_path, record_visit,
    remove_bookmark, tabs_path, web_to_jrg_url, Bookmark, HistoryEntry,
};
use jaringan::config::Config;
use jaringan::session::SessionState;

#[test]
fn converts_web_to_jrg_urls() {
    assert_eq!(web_to_jrg_url("https://example.com/page"), "jrg://https.example.com/page");
    assert_eq!(web_to_jrg_url("http://example.com"), "jrg://http/example.com");
}

#[test]
fn web_urls_without_a_scheme_go_over_https() {
    assert_eq!(web_to_jrg_url("example.com"), "jrg://https.example.com");
}

#[test]
fn cache_names_are_lower_case_with_single_separators() {
    assert_eq!(cache_filename_for_url("https://Example.com/a//b?c=1"), "https_example_com_a_b_c_1");
    assert_eq!(cache_filename_for_url("__x__"), "x");
    assert_eq!(cache_filename_for_url("é"), "");
}

#[test]
fn history_keeps_one_visit_per_url_and_the_last_two_hundred() {
    let mut entries: Vec<HistoryEntry> = Vec::new();
    record_visit(&mut entries, "jrg://a", "A", 1);
    record_visit(&mut entries, "jrg://b", "B", 2);
    record_visit(&mut entries, "jrg://a", "A again", 3);
    assert_eq!(entries.len(), 2);
    assert_eq!(entries[0].url, "jrg://b");
    assert_eq!(entries[1].title, "A again");
    assert_eq!(entries[1].visited_at, 3);
    for i in 0..250u64 {
        record_visit(&mut entries, &format!("jrg://n{i}"), "n", i);
    }
    assert_eq!(entries.len(), 200);
    assert_eq!(entries[0].url, "jrg://n50");
    assert_eq!(entries[199].url, "jrg://n249");
}

#[test]
fn bookmarks_replace_and_remove_by_url() {
    let mut bs: Vec<Bookmark> = Vec::new();
    bookmark_at(&mut bs, "One".into(), "jrg://1".into(), 10);
    bookmark_at(&mut bs, "Two".into(), "jrg://2".into(), 11);
    bookmark_at(&mut bs, "Uno".into(), "jrg://1".into(), 12);
    assert_eq!(bs.len(), 2);
    assert_eq!(bs[1].name, "Uno");
    remove_bookmark(&mut bs, "jrg://2");
    assert_eq!(bs.len(), 1);
    assert_eq!(bs[0].url, "jrg://1");
}

#[test]
fn storage_paths_join_the_directory() {
    assert_eq!(history_path("/data/jaringan"), "/data/jaringan/history.json");
    assert_eq!(bookmarks_path("/data/"), "/data/bookmarks.json");
    assert_eq!(tabs_path(""), "tabs.json");
    assert_eq!(config_path("/home/u/.config/jaringan"), "/home/u/.config/jaringan/browser.yaml");
}

#[test]
fn default_config_matches_documented_values() {
    let c = Config::default();
    assert_eq!(c.history_limit, 200);
    assert!(c.live_reload && c.enable_mouse);
    assert_eq!(c.keybindings.source_view, "Ctrl+\\");
    assert_eq!(c.keybindings.plugin_reload, "Ctrl+Shift+R");
    assert_eq!(c.gateway.timeout_secs, 30);
    assert_eq!(c.ai.model, "gpt-4o-mini");
}

#[test]
fn sessions_parse_fetched_pages() {
    let mut s = SessionState::start("jrg://x/", "# Hi\n").unwrap();
    assert_eq!(s.url, "jrg://x/");
    assert_eq!(s.document().title(), Some("Hi"));
    let err = s.refresh("```\nopen").unwrap_err();
    assert_eq!(err, "Parse failed: unterminated preformatted block starting at line 1");
    assert_eq!(s.blocks.len(), 1);
}
