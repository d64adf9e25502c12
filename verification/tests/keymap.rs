use jaringan::browser::Overlay;
use jaringan::config::Config;
use jaringan::keymap::{copy_status, handle_key, plugin_reload_status, KeyAction, KeyInput};
use jaringan::navigation::{navigate_to, BrowserState, PageLocation};
use jaringan::page::{collect_items, ButtonStep, LoadedPage};
use jaringan::parse_document;
use jaringan::signature::SignatureStatus;
use jaringan::tabs::TabCommand;

fn page(source: &str) -> LoadedPage {
    let document = parse_document(source).unwrap();
    LoadedPage {
        location: PageLocation::File("/tmp/site/index.jrg".to_string()),
        items: collect_items(&document),
        document,
        signature_status: SignatureStatus::Unsigned,
        raw_body: None,
        content_type: "jrg".to_string(),
        body_size: 0,
        load_time_ms: 0,
    }
}

fn key(state: &mut BrowserState, page: &mut LoadedPage, k: KeyInput) -> KeyAction {
    handle_key(state, page, k, 2, 0, &[], 10)
}

#[test]
fn tab_keys_ask_for_tab_commands() {
    let mut p = page("# Home\n");
    let mut s = BrowserState::new(p.location.clone(), Config::default());
    assert!(matches!(key(&mut s, &mut p, KeyInput::Ctrl('t')), KeyAction::NewTab));
    assert!(matches!(key(&mut s, &mut p, KeyInput::Ctrl('w')), KeyAction::Tab(TabCommand::Close)));
    assert!(matches!(key(&mut s, &mut p, KeyInput::Alt('2')), KeyAction::Tab(TabCommand::Jump(1))));
    assert!(matches!(key(&mut s, &mut p, KeyInput::CtrlShiftRight), KeyAction::Tab(TabCommand::MoveRight)));
    assert!(matches!(key(&mut s, &mut p, KeyInput::CtrlShiftLeft), KeyAction::Nothing));
    assert!(matches!(key(&mut s, &mut p, KeyInput::Char('q')), KeyAction::Quit));
}

#[test]
fn keys_move_the_selection_and_open_links() {
    let mut p = page("=> a.jrg A\n=> b.jrg B\n");
    let mut s = BrowserState::new(p.location.clone(), Config::default());
    key(&mut s, &mut p, KeyInput::Char('j'));
    assert_eq!(s.selected, 1);
    key(&mut s, &mut p, KeyInput::Down);
    assert_eq!(s.selected, 1);
    key(&mut s, &mut p, KeyInput::Up);
    assert_eq!(s.selected, 0);
    match key(&mut s, &mut p, KeyInput::Enter) {
        KeyAction::Open(l) => assert_eq!(l, PageLocation::File("/tmp/site/a.jrg".to_string())),
        other => panic!("unexpected {other:?}"),
    }
}

#[test]
fn back_shows_the_previous_page() {
    let mut p = page("# Home\n");
    let mut s = BrowserState::new(p.location.clone(), Config::default());
    navigate_to(&mut s, PageLocation::File("/tmp/site/a.jrg".to_string()));
    match key(&mut s, &mut p, KeyInput::Char('b')) {
        KeyAction::Show(l) => assert_eq!(l, PageLocation::File("/tmp/site/index.jrg".to_string())),
        other => panic!("unexpected {other:?}"),
    }
    match key(&mut s, &mut p, KeyInput::Char('f')) {
        KeyAction::Show(l) => assert_eq!(l, PageLocation::File("/tmp/site/a.jrg".to_string())),
        other => panic!("unexpected {other:?}"),
    }
    assert!(matches!(key(&mut s, &mut p, KeyInput::Char('f')), KeyAction::Nothing));
}

#[test]
fn typing_fills_an_input_and_enter_presses_the_form_button() {
    let mut p = page("? q value=\"\"\n! go label=\"Go\" target=\"/search\"\n");
    let mut s = BrowserState::new(p.location.clone(), Config::default());
    for c in "laksa".chars() {
        key(&mut s, &mut p, KeyInput::Char(c));
    }
    assert_eq!(s.status, "Updated q = laksa");
    match key(&mut s, &mut p, KeyInput::Enter) {
        KeyAction::Button(ButtonStep::SearchLocal { query }) => assert_eq!(query, "laksa"),
        other => panic!("unexpected {other:?}"),
    }
    assert_eq!(s.status, "Submitting form from input q...");
}

#[test]
fn overlays_open_and_close_with_their_keys() {
    let mut p = page("# Home\n");
    let mut s = BrowserState::new(p.location.clone(), Config::default());
    key(&mut s, &mut p, KeyInput::Char('H'));
    assert_eq!(s.overlay, Some(Overlay::History));
    key(&mut s, &mut p, KeyInput::Char('q'));
    assert_eq!(s.overlay, None);
    assert_eq!(s.status, "Closed");
}

#[test]
fn find_typing_collects_matching_lines() {
    let mut p = page("# Home\n");
    let mut s = BrowserState::new(p.location.clone(), Config::default());
    let lines = vec!["Hello".to_string(), "world".to_string(), "WORLD wide".to_string()];
    handle_key(&mut s, &mut p, KeyInput::Ctrl('f'), 1, 0, &lines, 10);
    assert_eq!(s.overlay, Some(Overlay::Find));
    for c in "wor".chars() {
        handle_key(&mut s, &mut p, KeyInput::Char(c), 1, 0, &lines, 10);
    }
    assert_eq!(s.find_state.query, "wor");
    assert_eq!(s.find_state.matches, vec![1, 2]);
    handle_key(&mut s, &mut p, KeyInput::Backspace, 1, 0, &lines, 10);
    assert_eq!(s.find_state.query, "wo");
}

#[test]
fn source_view_clear_copy_and_plugin_keys() {
    let mut p = page("# Home\n");
    let mut s = BrowserState::new(p.location.clone(), Config::default());
    assert!(matches!(key(&mut s, &mut p, KeyInput::Ctrl('u')), KeyAction::Nothing));
    assert!(s.show_source);
    assert_eq!(s.status, "Source view");
    key(&mut s, &mut p, KeyInput::Ctrl('\\'));
    assert!(!s.show_source);
    assert_eq!(s.status, "Rendered view");
    assert!(matches!(key(&mut s, &mut p, KeyInput::Ctrl('l')), KeyAction::ClearScreen));
    match key(&mut s, &mut p, KeyInput::Char('y')) {
        KeyAction::CopyUrl(u) => assert_eq!(u, "/tmp/site/index.jrg"),
        other => panic!("unexpected {other:?}"),
    }
    assert!(matches!(key(&mut s, &mut p, KeyInput::Ctrl('R')), KeyAction::ReloadPlugins));
    assert_eq!(copy_status("jrg://a/", true), "Copied URL to clipboard");
    assert_eq!(copy_status("jrg://a/", false), "Copy not available: jrg://a/");
    assert_eq!(plugin_reload_status(Ok(3)), "Reloaded 3 plugin(s)");
    assert_eq!(plugin_reload_status(Err("bad".to_string())), "Plugin reload failed: bad");
}

#[test]
fn ctrl_enter_opens_the_selection_in_a_new_tab() {
    let mut p = page("=> a.jrg A\n");
    let mut s = BrowserState::new(p.location.clone(), Config::default());
    match key(&mut s, &mut p, KeyInput::CtrlEnter) {
        KeyAction::OpenInNewTab(l) => assert_eq!(l, PageLocation::File("/tmp/site/a.jrg".to_string())),
        other => panic!("unexpected {other:?}"),
    }
    let mut empty = page("# Nothing to select\n");
    let mut s2 = BrowserState::new(empty.location.clone(), Config::default());
    assert!(matches!(key(&mut s2, &mut empty, KeyInput::CtrlEnter), KeyAction::Nothing));
    assert_eq!(s2.status, "No selectable item");
}
