use jaringan::browser::{BrowserMode, Overlay};
use jaringan::config::Config;
use jaringan::jrg_url::JaringanUrl;
use jaringan::navigation::{
    go_back, go_forward, navigate_to, resolve_target, scroll_down, scroll_page_down,
    scroll_page_up, scroll_to_bottom, scroll_up, selection_down, selection_last, selection_up,
    toggle_mode, toggle_overlay, BrowserState, PageLocation,
};

#[test]
fn resolves_relative_jrg_links_against_current_file() {
    let current = PageLocation::File("/tmp/site/index.jrg".to_string());
    assert_eq!(
        resolve_target(&current, "about/team.jrg"),
        PageLocation::File("/tmp/site/about/team.jrg".to_string())
    );
}

#[test]
fn resolves_jrg_protocol_links_as_network_locations() {
    let current =
        PageLocation::Network(JaringanUrl::parse("jrg://example.org/docs/start.jrg").unwrap());
    assert_eq!(
        resolve_target(&current, "guide/intro.jrg?mode=ai#install"),
        PageLocation::Network(
            JaringanUrl::parse("jrg://example.org/docs/guide/intro.jrg?mode=ai#install").unwrap()
        )
    );
    assert_eq!(
        resolve_target(&current, "jrg://other.example/home.jrg"),
        PageLocation::Network(JaringanUrl::parse("jrg://other.example/home.jrg").unwrap())
    );
}

#[test]
fn resolves_web_urls_as_web_locations() {
    let current = PageLocation::File("/tmp/site/index.jrg".to_string());
    assert_eq!(
        resolve_target(&current, "https://example.com/page"),
        PageLocation::Web("https://example.com/page".to_owned())
    );
}

#[test]
fn records_back_history_and_returns_to_previous_page() {
    let home = PageLocation::File("/tmp/site/index.jrg".to_string());
    let about = PageLocation::File("/tmp/site/about.jrg".to_string());
    let mut state = BrowserState::new(home.clone(), Config::default());
    navigate_to(&mut state, about.clone());
    assert_eq!(state.current, about);
    assert_eq!(state.back_stack, vec![home.clone()]);
    assert!(go_back(&mut state));
    assert_eq!(state.current, home);
}

#[test]
fn records_forward_history_when_going_back_and_forward() {
    let home = PageLocation::File("/tmp/site/index.jrg".to_string());
    let about = PageLocation::File("/tmp/site/about.jrg".to_string());
    let mut state = BrowserState::new(home.clone(), Config::default());
    navigate_to(&mut state, about.clone());
    assert!(go_back(&mut state));
    assert_eq!(state.current, home);
    assert_eq!(state.forward_stack, vec![about.clone()]);
    assert!(go_forward(&mut state));
    assert_eq!(state.current, about);
    assert_eq!(state.back_stack, vec![home]);
}

#[test]
fn back_and_forward_without_history_change_nothing_but_status() {
    let home = PageLocation::Web("https://example.com".to_string());
    let mut state = BrowserState::new(home.clone(), Config::default());
    assert!(!go_back(&mut state));
    assert_eq!(state.status, "No back history");
    assert!(!go_forward(&mut state));
    assert_eq!(state.status, "No forward history");
    assert_eq!(state.current, home);
}

#[test]
fn navigating_clears_forward_history() {
    let a = PageLocation::Web("https://a.example".to_string());
    let b = PageLocation::Web("https://b.example".to_string());
    let c = PageLocation::Web("https://c.example".to_string());
    let mut state = BrowserState::new(a.clone(), Config::default());
    navigate_to(&mut state, b.clone());
    assert!(go_back(&mut state));
    navigate_to(&mut state, c.clone());
    assert!(state.forward_stack.is_empty());
    assert_eq!(state.back_stack, vec![a]);
    assert_eq!(state.status, "Loaded");
}

#[test]
fn unsupported_targets_and_unknown_bases() {
    let web = PageLocation::Web("https://example.com".to_string());
    assert_eq!(
        resolve_target(&web, "relative.jrg"),
        PageLocation::Unsupported("relative.jrg".to_string())
    );
    assert_eq!(
        resolve_target(&web, "jrg:no-host"),
        PageLocation::Unsupported("jrg:no-host".to_string())
    );
    assert_eq!(
        resolve_target(&web, "www.example.com"),
        PageLocation::Web("www.example.com".to_string())
    );
}

#[test]
fn selection_and_scrolling_stay_in_bounds() {
    let mut state = BrowserState::new(PageLocation::Web("w".to_string()), Config::default());
    selection_down(&mut state, 3);
    selection_down(&mut state, 3);
    selection_down(&mut state, 3);
    assert_eq!(state.selected, 2);
    selection_up(&mut state);
    assert_eq!(state.selected, 1);
    selection_last(&mut state, 0);
    assert_eq!(state.selected, 0);
    selection_up(&mut state);
    assert_eq!(state.selected, 0);

    scroll_down(&mut state, 10, 8);
    scroll_down(&mut state, 10, 8);
    scroll_down(&mut state, 10, 8);
    assert_eq!(state.scroll_offset, 2);
    scroll_up(&mut state);
    assert_eq!(state.scroll_offset, 1);
    scroll_page_down(&mut state, 100, 30);
    assert_eq!(state.scroll_offset, 31);
    scroll_page_up(&mut state, 100, 30);
    assert_eq!(state.scroll_offset, 1);
    scroll_to_bottom(&mut state, 100, 30);
    assert_eq!(state.scroll_offset, 70);
}

#[test]
fn modes_and_overlays_toggle() {
    let mut state = BrowserState::new(PageLocation::Web("w".to_string()), Config::default());
    assert_eq!(state.mode, BrowserMode::Selection);
    toggle_mode(&mut state);
    assert_eq!(state.mode, BrowserMode::Scroll);
    assert_eq!(state.status, "Scroll mode");
    state.overlay_selected = 4;
    toggle_overlay(&mut state, Overlay::Help);
    assert_eq!(state.overlay, Some(Overlay::Help));
    assert_eq!(state.overlay_selected, 0);
    toggle_overlay(&mut state, Overlay::Help);
    assert_eq!(state.overlay, None);
}

#[test]
fn bookmarking_the_current_page_toggles() {
    let mut state =
        BrowserState::new(PageLocation::Web("https://example.com".to_string()), Config::default());
    state.toggle_bookmark_current("Example");
    assert_eq!(state.bookmarks.len(), 1);
    assert_eq!(state.bookmarks[0].url, "https://example.com");
    assert_eq!(state.status, "Bookmarked: Example");
    state.toggle_bookmark_current("Example");
    assert!(state.bookmarks.is_empty());
    assert_eq!(state.status, "Bookmark removed: https://example.com");
    state.record_current("Example");
    assert_eq!(state.history.len(), 1);
    assert_eq!(state.history[0].title, "Example");
}
