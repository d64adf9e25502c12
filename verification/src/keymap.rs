//! What each key does in the browser: tab keys, the open overlay's keys,
//! typing into a selected input, moving, scrolling, following links and
//! pressing buttons. Loading pages, drawing and the clipboard are left to
//! the caller, which is told what to do.

use vstd::prelude::*;
use crate::text;
use crate::browser::{BrowserMode, FindState, Overlay};
use crate::document::Image;
use crate::navigation::{
    bookmark_toggled, display_of, go_back, go_forward, max_offset, mode_status, nav_back, nav_forward,
    nav_of, resolve_target, scroll_down, scroll_page_down, scroll_page_up, scroll_to_bottom, scroll_up,
    selection_down, selection_first, selection_last, selection_up, switch_mode, target_location,
    toggle_mode, toggle_overlay, BrowserState, LocationV, PageLocation,
};
use crate::page::{
    button_planned, compute_find_matches, edit_selected_input, input_edited, input_status,
    input_status_text, matching_lines, parse_start_location, plan_button, selected_input_name,
    start_location, strings_view, ButtonAction, ButtonStep, InputEdit, InteractiveItem, LoadedPage,
};
use crate::tabs::TabCommand;

verus! {

broadcast use vstd::string::group_string_axioms;

/// A key as the browser reads it.
#[derive(Debug, Clone, Copy, PartialEq, Eq, Structural)]
pub enum KeyInput {
    Char(char),
    Ctrl(char),
    Alt(char),
    Enter,
    Esc,
    Backspace,
    Tab,
    CtrlTab,
    CtrlBackTab,
    Up,
    Down,
    Left,
    Right,
    CtrlShiftLeft,
    CtrlShiftRight,
    PageUp,
    PageDown,
    Home,
    End,
    CtrlEnter,
}

/// What the caller does after a key.
#[derive(Debug)]
pub enum KeyAction {
    Nothing,
    Quit,
    /// Load this location and go to it (a new step in the history).
    Open(PageLocation),
    /// Load the location the browser has moved back or forward to.
    Show(PageLocation),
    Reload,
    Tab(TabCommand),
    NewTab,
    Button(ButtonStep),
    /// Show this image.
    Image(Image),
    /// Clear and redraw the terminal.
    ClearScreen,
    /// Put this address on the clipboard (then see `copy_status`).
    CopyUrl(String),
    /// Load the plugins again (then see `plugin_reload_status`).
    ReloadPlugins,
    /// Load this location in a new tab behind the current one.
    OpenInNewTab(PageLocation),
}

/// Which binding a key takes.
pub ghost enum Binding {
    NewTab,
    TabCmd(TabCommand),
    Ignore,
    CloseOverlay,
    OverlayDown,
    OverlayUp,
    OverlayOpen,
    FindType(char),
    FindBackspace,
    Quit,
    Edit(InputEdit),
    ToggleMode,
    SwitchMode(BrowserMode),
    ToggleOverlay(Overlay),
    Find,
    Down,
    Up,
    PageDown,
    PageUp,
    First,
    Last,
    Bottom,
    Bookmark,
    Activate,
    Back,
    Forward,
    Reload,
    CopyUrl,
    ToggleSource,
    ClearScreen,
    NewTabItem,
    ReloadPlugins,
}

/// The character a key types, whatever its modifier.
pub open spec fn typed(k: KeyInput) -> Option<char> {
    match k {
        KeyInput::Char(c) => Some(c),
        KeyInput::Ctrl(c) => Some(c),
        KeyInput::Alt(c) => Some(c),
        _ => None,
    }
}

/// The binding the keys of an open overlay give.
pub open spec fn overlay_binding(k: KeyInput, o: Overlay) -> Binding {
    let find = o == Overlay::Find;
    if !find && (k == KeyInput::Esc || typed(k) == Some('q') || typed(k) == Some('h') || typed(k) == Some('?')) {
        Binding::CloseOverlay
    } else if !find && (k == KeyInput::Down || typed(k) == Some('j')) {
        Binding::OverlayDown
    } else if !find && (k == KeyInput::Up || typed(k) == Some('k')) {
        Binding::OverlayUp
    } else if k == KeyInput::Enter {
        Binding::OverlayOpen
    } else if find && typed(k) is Some {
        Binding::FindType(typed(k)->0)
    } else if find && k == KeyInput::Backspace {
        Binding::FindBackspace
    } else {
        Binding::Ignore
    }
}

/// The binding of a key with no overlay open; `on_input` tells whether the
/// selection is on an input.
pub open spec fn main_binding(k: KeyInput, on_input: bool) -> Binding {
    let c = typed(k);
    if (c == Some('q') || k == KeyInput::Esc) && !on_input {
        Binding::Quit
    } else if c is Some && on_input {
        Binding::Edit(InputEdit::Append(c->0))
    } else if k == KeyInput::Backspace && on_input {
        Binding::Edit(InputEdit::Backspace)
    } else if k == KeyInput::Ctrl('f') {
        Binding::Find
    } else if k == KeyInput::Tab || k == KeyInput::CtrlTab {
        Binding::ToggleMode
    } else if c == Some('s') {
        Binding::SwitchMode(BrowserMode::Scroll)
    } else if c == Some('v') {
        Binding::SwitchMode(BrowserMode::Selection)
    } else if c == Some('?') || c == Some('h') {
        Binding::ToggleOverlay(Overlay::Help)
    } else if c == Some('H') {
        Binding::ToggleOverlay(Overlay::History)
    } else if c == Some('B') {
        Binding::ToggleOverlay(Overlay::Bookmarks)
    } else if c == Some('y') {
        Binding::CopyUrl
    } else if k == KeyInput::Ctrl('\\') || k == KeyInput::Ctrl('u') {
        Binding::ToggleSource
    } else if k == KeyInput::Down || c == Some('j') {
        Binding::Down
    } else if k == KeyInput::Up || c == Some('k') {
        Binding::Up
    } else if k == KeyInput::PageDown || c == Some(' ') {
        Binding::PageDown
    } else if k == KeyInput::PageUp {
        Binding::PageUp
    } else if k == KeyInput::Home {
        Binding::First
    } else if k == KeyInput::End {
        Binding::Last
    } else if c == Some('G') {
        Binding::Bottom
    } else if k == KeyInput::Ctrl('d') {
        Binding::Bookmark
    } else if k == KeyInput::Ctrl('i') {
        Binding::ToggleOverlay(Overlay::PageInfo)
    } else if k == KeyInput::Ctrl('l') {
        Binding::ClearScreen
    } else if k == KeyInput::CtrlEnter {
        Binding::NewTabItem
    } else if k == KeyInput::Enter {
        Binding::Activate
    } else if c == Some('b') || k == KeyInput::Backspace {
        Binding::Back
    } else if c == Some('f') && k != KeyInput::Ctrl('f') {
        Binding::Forward
    } else if c == Some('r') {
        Binding::Reload
    } else if k == KeyInput::Ctrl('R') {
        Binding::ReloadPlugins
    } else {
        Binding::Ignore
    }
}

/// The binding a key takes: tab keys first (closing, cycling and moving
/// tabs only where there is more than one, or room to move), then Alt and
/// a digit to jump to a tab, then the open overlay's keys, then the rest.
pub open spec fn binding(k: KeyInput, s: BrowserState, p: LoadedPage, tabs_len: usize, active: usize) -> Binding {
    if k == KeyInput::Ctrl('t') {
        Binding::NewTab
    } else if k == KeyInput::Ctrl('w') && tabs_len > 1 {
        Binding::TabCmd(TabCommand::Close)
    } else if k == KeyInput::CtrlTab && tabs_len > 1 {
        Binding::TabCmd(TabCommand::Next)
    } else if k == KeyInput::CtrlBackTab && tabs_len > 1 {
        Binding::TabCmd(TabCommand::Previous)
    } else if k == KeyInput::CtrlShiftLeft && active > 0 {
        Binding::TabCmd(TabCommand::MoveLeft)
    } else if k == KeyInput::CtrlShiftRight && active + 1 < tabs_len {
        Binding::TabCmd(TabCommand::MoveRight)
    } else if k matches KeyInput::Alt(d) && '1' <= d <= '9' {
        Binding::TabCmd(TabCommand::Jump((k->Alt_0 as u32 - '1' as u32) as usize))
    } else if k == KeyInput::Alt('0') {
        Binding::Ignore
    } else {
        match s.overlay {
            Some(o) => overlay_binding(k, o),
            None => main_binding(k, selected_input_name(p.items@, s.selected) is Some),
        }
    }
}

/// How many entries the open overlay lists.
pub open spec fn overlay_count(s: BrowserState) -> nat {
    match s.overlay {
        Some(Overlay::History) => s.history@.len(),
        Some(Overlay::Bookmarks) => s.bookmarks@.len(),
        _ => 0,
    }
}

/// The URL of the entry the open overlay's selection is on: history is
/// listed newest first.
pub open spec fn overlay_url(s: BrowserState) -> Option<Seq<char>> {
    match s.overlay {
        Some(Overlay::History) => {
            let n = s.history@.len() as int;
            let last = if n > 0 {
                n - 1
            } else {
                0
            };
            let idx = if last > s.overlay_selected {
                last - s.overlay_selected
            } else {
                0
            };
            if idx < n {
                Some(s.history@[idx].url@)
            } else {
                None
            }
        },
        Some(Overlay::Bookmarks) => if s.overlay_selected < s.bookmarks@.len() {
            Some(s.bookmarks@[s.overlay_selected as int].url@)
        } else {
            None
        },
        _ => None,
    }
}

/// The location a URL from a list opens; unsupported when it is not one.
pub open spec fn listed_location(u: Seq<char>) -> LocationV {
    match start_location(u) {
        Ok(l) => l,
        Err(_) => LocationV::Unsupported(u),
    }
}

/// The first button among the items, if any.
pub open spec fn first_button(items: Seq<InteractiveItem>) -> Option<ButtonAction>
    decreases items.len(),
{
    if items.len() == 0 {
        None
    } else {
        match items[0] {
            InteractiveItem::Button(b) => Some(b),
            _ => first_button(items.drop_first()),
        }
    }
}

/// What Enter does on the selected item: a link opens what it leads to
/// (or says it is unsupported), a button is pressed, an input presses the
/// page's first button (or shows the input), an image is shown.
pub open spec fn activated(s0: BrowserState, s1: BrowserState, p: LoadedPage, r: KeyAction) -> bool {
    if s0.selected >= p.items@.len() {
        r is Nothing && s1.status@ == "No selectable item"@
    } else {
        match p.items@[s0.selected as int] {
            InteractiveItem::Link { target, .. } => {
                let loc = target_location(p.location@, target@);
                if loc is Unsupported {
                    r is Nothing && s1.status@ == "Unsupported target for now: "@ + target@
                } else {
                    r matches KeyAction::Open(l) && l@ == loc
                }
            },
            InteractiveItem::Button(a) => r matches KeyAction::Button(st) && button_planned(s0, s1, p, a, st@),
            InteractiveItem::Input(i) => match first_button(p.items@) {
                Some(b) => r matches KeyAction::Button(st) && exists|m: BrowserState|
                    #[trigger] button_planned(m, s1, p, b, st@) && m == (BrowserState {
                        pending_confirmation: None,
                        status: m.status,
                        ..s0
                    }) && m.status@ == "Submitting form from input "@ + i.name@ + "..."@,
                None => r is Nothing && s1.status@ == input_status_text(i@) && s1.pending_confirmation is None,
            },
            InteractiveItem::Image(im) => r matches KeyAction::Image(x) && x@ == im@ && s1.pending_confirmation
                is None,
        }
    }
}

/// What opening the selected item in a new tab decides: a link whose
/// target can be loaded, or the current page for a button, goes to a new
/// tab; otherwise the status line says why not.
pub open spec fn new_tab_chosen(s0: BrowserState, s1: BrowserState, p: LoadedPage, r: KeyAction) -> bool {
    if s0.selected >= p.items@.len() {
        r is Nothing && s1 == (BrowserState { status: s1.status, ..s0 }) && s1.status@ == "No selectable item"@
    } else {
        match p.items@[s0.selected as int] {
            InteractiveItem::Link { target, .. } => {
                let loc = target_location(p.location@, target@);
                if loc is Unsupported {
                    r is Nothing && s1 == (BrowserState { status: s1.status, ..s0 }) && s1.status@
                        == "Unsupported target: "@ + target@
                } else {
                    r matches KeyAction::OpenInNewTab(l) && l@ == loc && s1 == s0
                }
            },
            InteractiveItem::Button(_) => r matches KeyAction::OpenInNewTab(l) && l@ == p.location@ && s1 == s0,
            _ => r is Nothing && s1 == (BrowserState { status: s1.status, ..s0 }) && s1.status@
                == "This item cannot be opened in a new tab"@,
        }
    }
}

pub open spec fn other_mode(m: BrowserMode) -> BrowserMode {
    match m {
        BrowserMode::Selection => BrowserMode::Scroll,
        BrowserMode::Scroll => BrowserMode::Selection,
    }
}

/// The title a bookmark of the page gets.
pub open spec fn bookmark_title(p: LoadedPage) -> Seq<char> {
    match p.document@.title() {
        Some(t) => t,
        None => "Untitled"@,
    }
}

/// Whether a character is a control character (`char::is_control`).
pub open spec fn control_char(c: char) -> bool {
    (c as u32) < 0x20 || (0x7f <= (c as u32) && (c as u32) <= 0x9f)
}

/// The lines that hold a find query, ignoring case; none for an empty one.
pub open spec fn found(lines: Seq<String>, q: Seq<char>) -> Seq<usize> {
    if q.len() == 0 {
        Seq::empty()
    } else {
        matching_lines(strings_view(lines).map_values(|l: Seq<char>| text::unicode_lower(l)), text::unicode_lower(q))
    }
}

/// The find state after its query becomes `q`.
pub open spec fn refound(s0: BrowserState, s1: BrowserState, lines: Seq<String>, q: Seq<char>) -> bool {
    &&& s1.find_state.query@ == q
    &&& s1.find_state.matches@ == found(lines, q)
    &&& s1.find_state.match_idx == 0
    &&& s1 == (BrowserState { find_state: s1.find_state, ..s0 })
}

/// Whether a location is one a page can be loaded from.
pub open spec fn loadable(l: LocationV) -> bool {
    !(l is Unsupported)
}

/// What a key does, binding by binding.
pub open spec fn key_effect(
    b: Binding,
    s0: BrowserState,
    p0: LoadedPage,
    s1: BrowserState,
    p1: LoadedPage,
    lines: Seq<String>,
    vh: u16,
    r: KeyAction,
) -> bool {
    let n = p0.items@.len();
    match b {
        Binding::NewTab => r is NewTab && s1 == s0 && p1 == p0,
        Binding::TabCmd(c) => r matches KeyAction::Tab(x) && x == c && s1 == s0 && p1 == p0,
        Binding::Ignore => r is Nothing && s1 == s0 && p1 == p0,
        Binding::Quit => r is Quit && s1 == s0 && p1 == p0,
        Binding::Reload => r is Reload && s1 == s0 && p1 == p0,
        Binding::CloseOverlay => r is Nothing && p1 == p0 && s1.status@ == "Closed"@ && s1 == (BrowserState {
            status: s1.status,
            overlay: None,
            ..s0
        }),
        Binding::OverlayDown => r is Nothing && p1 == p0 && s1 == (BrowserState {
            overlay_selected: if overlay_count(s0) == 0 {
                s0.overlay_selected
            } else if s0.overlay_selected + 1 < overlay_count(s0) {
                (s0.overlay_selected + 1) as usize
            } else {
                (overlay_count(s0) - 1) as usize
            },
            ..s0
        }),
        Binding::OverlayUp => r is Nothing && p1 == p0 && s1 == (BrowserState {
            overlay_selected: if s0.overlay_selected > 0 {
                (s0.overlay_selected - 1) as usize
            } else {
                0
            },
            ..s0
        }),
        Binding::OverlayOpen => p1 == p0 && match overlay_url(s0) {
            None => r is Nothing && s1 == s0,
            Some(u) => s1 == (BrowserState { overlay: None, ..s0 }) && if loadable(listed_location(u)) {
                r matches KeyAction::Open(l) && l@ == listed_location(u)
            } else {
                r is Nothing
            },
        },
        Binding::FindType(c) => r is Nothing && p1 == p0 && if control_char(c) {
            s1 == s0
        } else {
            refound(s0, s1, lines, s0.find_state.query@.push(c))
        },
        Binding::FindBackspace => r is Nothing && p1 == p0 && refound(
            s0,
            s1,
            lines,
            if s0.find_state.query@.len() > 0 {
                s0.find_state.query@.drop_last()
            } else {
                s0.find_state.query@
            },
        ),
        Binding::Edit(e) => r is Nothing && input_edited(s0, p0, s1, p1, e),
        Binding::ToggleMode => r is Nothing && p1 == p0 && s1.mode == other_mode(s0.mode) && s1.status@
            == mode_status(s1.mode) && nav_of(s1) == nav_of(s0),
        Binding::SwitchMode(m) => r is Nothing && p1 == p0 && s1.mode == m && s1.status@ == mode_status(m)
            && nav_of(s1) == nav_of(s0),
        Binding::ToggleOverlay(o) => r is Nothing && p1 == p0 && s1.overlay == Some(o) && s1.overlay_selected
            == 0 && nav_of(s1) == nav_of(s0),
        Binding::Find => r is Nothing && p1 == p0 && s1.overlay == Some(Overlay::Find) && s1.overlay_selected == 0
            && s1.find_state.query@.len() == 0 && s1.find_state.matches@.len() == 0
            && s1.find_state.match_idx == 0 && nav_of(s1) == nav_of(s0),
        Binding::Down => r is Nothing && p1 == p0 && nav_of(s1) == nav_of(s0) && match s0.mode {
            BrowserMode::Selection => s1.selected == if n == 0 {
                s0.selected as int
            } else if s0.selected + 1 < n {
                s0.selected + 1
            } else {
                n - 1
            },
            BrowserMode::Scroll => s1.scroll_offset == if s0.scroll_offset == u16::MAX {
                s0.scroll_offset
            } else if s0.scroll_offset + 1 < max_offset(lines.len() as usize, vh) {
                (s0.scroll_offset + 1) as u16
            } else {
                max_offset(lines.len() as usize, vh)
            },
        },
        Binding::Up => r is Nothing && p1 == p0 && nav_of(s1) == nav_of(s0) && match s0.mode {
            BrowserMode::Selection => s1.selected == if s0.selected > 0 {
                s0.selected - 1
            } else {
                0
            },
            BrowserMode::Scroll => s1.scroll_offset == if s0.scroll_offset > 0 {
                (s0.scroll_offset - 1) as u16
            } else {
                0
            },
        },
        Binding::PageDown => r is Nothing && p1 == p0 && nav_of(s1) == nav_of(s0) && match s0.mode {
            BrowserMode::Selection => s1.selected == if n == 0 {
                s0.selected as int
            } else if s0.selected + 1 < n {
                s0.selected + 1
            } else {
                n - 1
            },
            BrowserMode::Scroll => s1.scroll_offset == ({
                let s = if s0.scroll_offset + vh > u16::MAX {
                    u16::MAX as int
                } else {
                    s0.scroll_offset + vh
                };
                if s < max_offset(lines.len() as usize, vh) {
                    s as u16
                } else {
                    max_offset(lines.len() as usize, vh)
                }
            }),
        },
        Binding::PageUp => r is Nothing && p1 == p0 && nav_of(s1) == nav_of(s0) && match s0.mode {
            BrowserMode::Selection => s1.selected == if s0.selected > 0 {
                s0.selected - 1
            } else {
                0
            },
            BrowserMode::Scroll => s1.scroll_offset == if s0.scroll_offset > vh {
                (s0.scroll_offset - vh) as u16
            } else {
                0
            },
        },
        Binding::First => r is Nothing && p1 == p0 && s1.selected == 0 && nav_of(s1) == nav_of(s0),
        Binding::Last => r is Nothing && p1 == p0 && s1.selected == (if n > 0 {
            n - 1
        } else {
            0
        }) && nav_of(s1) == nav_of(s0),
        Binding::Bottom => r is Nothing && p1 == p0 && s1.scroll_offset == max_offset(lines.len() as usize, vh)
            && nav_of(s1) == nav_of(s0),
        Binding::Bookmark => r is Nothing && p1 == p0 && bookmark_toggled(s0, s1, bookmark_title(p0)),
        Binding::Activate => p1 == p0 && activated(s0, s1, p0, r),
        Binding::Back => p1 == p0 && nav_of(s1) == nav_back(nav_of(s0)) && if s0.back_stack@.len() > 0
            && loadable(s1.current@) {
            r matches KeyAction::Show(l) && l@ == s1.current@
        } else {
            r is Nothing
        },
        Binding::Forward => p1 == p0 && nav_of(s1) == nav_forward(nav_of(s0)) && if s0.forward_stack@.len() > 0
            && loadable(s1.current@) {
            r matches KeyAction::Show(l) && l@ == s1.current@
        } else {
            r is Nothing
        },
        Binding::CopyUrl => (r matches KeyAction::CopyUrl(u) && u@ == display_of(s0.current@)) && s1 == s0 && p1
            == p0,
        Binding::ToggleSource => r is Nothing && p1 == p0 && s1 == (BrowserState {
            show_source: !s0.show_source,
            status: s1.status,
            ..s0
        }) && s1.status@ == if s1.show_source {
            "Source view"@
        } else {
            "Rendered view"@
        },
        Binding::ClearScreen => r is ClearScreen && s1 == s0 && p1 == p0,
        Binding::ReloadPlugins => r is ReloadPlugins && s1 == s0 && p1 == p0,
        Binding::NewTabItem => p1 == p0 && new_tab_chosen(s0, s1, p0, r),
    }
}

fn typed_exec(k: KeyInput) -> (r: Option<char>)
    ensures
        r == typed(k),
{
    match k {
        KeyInput::Char(c) => Some(c),
        KeyInput::Ctrl(c) => Some(c),
        KeyInput::Alt(c) => Some(c),
        _ => None,
    }
}

fn is_control_exec(c: char) -> (r: bool)
    ensures
        r == control_char(c),
{
    let v = c as u32;
    v < 0x20 || (0x7f <= v && v <= 0x9f)
}

fn set_query(state: &mut BrowserState, lines: &[String], q: Vec<char>)
    ensures
        refound(*old(state), *final(state), lines@, q@),
{
    let qs = text::string_from(q.as_slice());
    let matches = compute_find_matches(lines, qs.as_str());
    if q.len() == 0 {
        assert(matches@ =~= found(lines@, q@));
    }
    state.find_state = FindState { query: qs, matches, match_idx: 0 };
}

/// The keys of an open overlay.
fn overlay_key(state: &mut BrowserState, page: &LoadedPage, key: KeyInput, lines: &[String]) -> (r: KeyAction)
    requires
        old(state).overlay is Some,
    ensures
        key_effect(overlay_binding(key, old(state).overlay->0), *old(state), *page, *final(state), *page, lines@, 0, r),
{
    let o = match state.overlay {
        Some(o) => o,
        None => {
            return KeyAction::Nothing;
        },
    };
    let find = match o {
        Overlay::Find => true,
        _ => false,
    };
    let c = typed_exec(key);
    if !find && (key == KeyInput::Esc || c == Some('q') || c == Some('h') || c == Some('?')) {
        state.overlay = None;
        state.status = String::from_str("Closed");
        return KeyAction::Nothing;
    }
    if !find && (key == KeyInput::Down || c == Some('j')) {
        let count = match o {
            Overlay::History => state.history.len(),
            Overlay::Bookmarks => state.bookmarks.len(),
            _ => 0,
        };
        if count > 0 {
            state.overlay_selected = if state.overlay_selected < count - 1 {
                state.overlay_selected + 1
            } else {
                count - 1
            };
        }
        return KeyAction::Nothing;
    }
    if !find && (key == KeyInput::Up || c == Some('k')) {
        if state.overlay_selected > 0 {
            state.overlay_selected = state.overlay_selected - 1;
        }
        return KeyAction::Nothing;
    }
    if key == KeyInput::Enter {
        let url: Option<String> = match o {
            Overlay::History => {
                let n = state.history.len();
                let last = if n > 0 { n - 1 } else { 0 };
                let idx = if last > state.overlay_selected { last - state.overlay_selected } else { 0 };
                if idx < n {
                    Some(state.history[idx].url.clone())
                } else {
                    None
                }
            },
            Overlay::Bookmarks => if state.overlay_selected < state.bookmarks.len() {
                Some(state.bookmarks[state.overlay_selected].url.clone())
            } else {
                None
            },
            _ => None,
        };
        match url {
            None => {
                return KeyAction::Nothing;
            },
            Some(u) => {
                state.overlay = None;
                let loc = match parse_start_location(u.as_str()) {
                    Ok(l) => l,
                    Err(_) => PageLocation::Unsupported(u.clone()),
                };
                return match loc {
                    PageLocation::Unsupported(_) => KeyAction::Nothing,
                    _ => KeyAction::Open(loc),
                };
            },
        }
    }
    if find {
        match c {
            Some(ch) => {
                if !is_control_exec(ch) {
                    let mut q = text::chars_of(state.find_state.query.as_str());
                    q.push(ch);
                    set_query(state, lines, q);
                }
                return KeyAction::Nothing;
            },
            None => {},
        }
        if key == KeyInput::Backspace {
            let mut q = text::chars_of(state.find_state.query.as_str());
            if q.len() > 0 {
                q.pop();
            }
            set_query(state, lines, q);
            return KeyAction::Nothing;
        }
    }
    KeyAction::Nothing
}

fn first_button_exec(items: &Vec<InteractiveItem>) -> (r: Option<usize>)
    ensures
        match first_button(items@) {
            Some(b) => r matches Some(i) && i < items@.len() && items@[i as int] == InteractiveItem::Button(b),
            None => r is None,
        },
{
    let mut i: usize = 0;
    assert(items@.skip(0) =~= items@);
    while i < items.len()
        invariant
            i <= items@.len(),
            first_button(items@.skip(i as int)) == first_button(items@),
        decreases items@.len() - i,
    {
        assert(items@.skip(i as int).drop_first() =~= items@.skip(i + 1));
        assert(items@.skip(i as int)[0] == items@[i as int]);
        match &items[i] {
            InteractiveItem::Button(_) => {
                return Some(i);
            },
            _ => {},
        }
        i = i + 1;
    }
    None
}

/// What Enter does on the selected item; see `activated`.
fn activate(state: &mut BrowserState, page: &LoadedPage) -> (r: KeyAction)
    ensures
        activated(*old(state), *final(state), *page, r),
{
    if state.selected >= page.items.len() {
        state.status = String::from_str("No selectable item");
        return KeyAction::Nothing;
    }
    match &page.items[state.selected] {
        InteractiveItem::Link { target, .. } => {
            let loc = resolve_target(&page.location, target.as_str());
            match loc {
                PageLocation::Unsupported(t) => {
                    let mut out = text::chars_of("Unsupported target for now: ");
                    text::push_str(&mut out, t.as_str());
                    proof {
                        reveal_strlit("Unsupported target for now: ");
                    }
                    state.status = text::string_from(out.as_slice());
                    KeyAction::Nothing
                },
                _ => KeyAction::Open(loc),
            }
        },
        InteractiveItem::Button(a) => {
            let st = plan_button(state, page, a);
            KeyAction::Button(st)
        },
        InteractiveItem::Input(i) => {
            state.pending_confirmation = None;
            match first_button_exec(&page.items) {
                Some(k) => {
                    let mut out = text::chars_of("Submitting form from input ");
                    text::push_str(&mut out, i.name.as_str());
                    text::push_str(&mut out, "...");
                    proof {
                        reveal_strlit("Submitting form from input ");
                        reveal_strlit("...");
                    }
                    state.status = text::string_from(out.as_slice());
                    let ghost m = *state;
                    match &page.items[k] {
                        InteractiveItem::Button(b) => {
                            let st = plan_button(state, page, b);
                            assert(button_planned(m, *state, *page, *b, st@));
                            KeyAction::Button(st)
                        },
                        _ => KeyAction::Nothing,
                    }
                },
                None => {
                    state.status = input_status(i);
                    KeyAction::Nothing
                },
            }
        },
        InteractiveItem::Image(im) => {
            state.pending_confirmation = None;
            KeyAction::Image(Image { source: im.source.clone(), alt: im.alt.clone() })
        },
    }
}

fn open_in_new_tab(state: &mut BrowserState, page: &LoadedPage) -> (r: KeyAction)
    ensures
        new_tab_chosen(*old(state), *final(state), *page, r),
{
    if state.selected >= page.items.len() {
        state.status = String::from_str("No selectable item");
        return KeyAction::Nothing;
    }
    match &page.items[state.selected] {
        InteractiveItem::Link { target, .. } => {
            let loc = resolve_target(&page.location, target.as_str());
            match loc {
                PageLocation::Unsupported(_) => {
                    let mut msg = text::chars_of("Unsupported target: ");
                    text::push_str(&mut msg, target.as_str());
                    state.status = text::string_from(msg.as_slice());
                    KeyAction::Nothing
                },
                _ => KeyAction::OpenInNewTab(loc),
            }
        },
        InteractiveItem::Button(_) => KeyAction::OpenInNewTab(page.location.duplicate()),
        _ => {
            state.status = String::from_str("This item cannot be opened in a new tab");
            KeyAction::Nothing
        },
    }
}

/// The status line after copying `url` to the clipboard, or failing to.
pub fn copy_status(url: &str, copied: bool) -> (r: String)
    ensures
        r@ == if copied {
            "Copied URL to clipboard"@
        } else {
            "Copy not available: "@ + url@
        },
{
    if copied {
        String::from_str("Copied URL to clipboard")
    } else {
        let mut msg = text::chars_of("Copy not available: ");
        text::push_str(&mut msg, url);
        text::string_from(msg.as_slice())
    }
}

/// The status line after loading the plugins again: how many there are,
/// or why it failed.
pub fn plugin_reload_status(result: Result<usize, String>) -> (r: String)
    ensures
        r@ == match result {
            Ok(n) => "Reloaded "@ + text::decimal(n as nat) + " plugin(s)"@,
            Err(e) => "Plugin reload failed: "@ + e@,
        },
{
    let mut msg: Vec<char>;
    match result {
        Ok(n) => {
            msg = text::chars_of("Reloaded ");
            text::push_decimal(&mut msg, n);
            text::push_str(&mut msg, " plugin(s)");
        },
        Err(e) => {
            msg = text::chars_of("Plugin reload failed: ");
            text::push_str(&mut msg, e.as_str());
        },
    }
    text::string_from(msg.as_slice())
}

fn on_input(page: &LoadedPage, selected: usize) -> (r: bool)
    ensures
        r == (selected_input_name(page.items@, selected) is Some),
{
    if selected < page.items.len() {
        match &page.items[selected] {
            InteractiveItem::Input(_) => true,
            _ => false,
        }
    } else {
        false
    }
}

/// The keys with no overlay open.
#[verifier::rlimit(60)]
fn main_key(
    state: &mut BrowserState,
    page: &mut LoadedPage,
    key: KeyInput,
    lines: &[String],
    viewport_height: u16,
) -> (r: KeyAction)
    requires
        old(state).overlay is None,
    ensures
        key_effect(
            main_binding(key, selected_input_name(old(page).items@, old(state).selected) is Some),
            *old(state),
            *old(page),
            *final(state),
            *final(page),
            lines@,
            viewport_height,
            r,
        ),
{
    let input = on_input(page, state.selected);
    let c = typed_exec(key);
    let n = page.items.len();
    if (c == Some('q') || key == KeyInput::Esc) && !input {
        return KeyAction::Quit;
    }
    if input {
        match c {
            Some(ch) => {
                edit_selected_input(state, page, InputEdit::Append(ch));
                return KeyAction::Nothing;
            },
            None => {},
        }
        if key == KeyInput::Backspace {
            edit_selected_input(state, page, InputEdit::Backspace);
            return KeyAction::Nothing;
        }
    }
    if key == KeyInput::Ctrl('f') {
        toggle_overlay(state, Overlay::Find);
        state.find_state = FindState { query: String::new(), matches: Vec::new(), match_idx: 0 };
        return KeyAction::Nothing;
    }
    if key == KeyInput::Tab || key == KeyInput::CtrlTab {
        toggle_mode(state);
        return KeyAction::Nothing;
    }
    if c == Some('s') {
        switch_mode(state, BrowserMode::Scroll);
        return KeyAction::Nothing;
    }
    if c == Some('v') {
        switch_mode(state, BrowserMode::Selection);
        return KeyAction::Nothing;
    }
    if c == Some('?') || c == Some('h') {
        toggle_overlay(state, Overlay::Help);
        return KeyAction::Nothing;
    }
    if c == Some('H') {
        toggle_overlay(state, Overlay::History);
        return KeyAction::Nothing;
    }
    if c == Some('B') {
        toggle_overlay(state, Overlay::Bookmarks);
        return KeyAction::Nothing;
    }
    if c == Some('y') {
        return KeyAction::CopyUrl(state.current.display_url());
    }
    if key == KeyInput::Ctrl('\\') || key == KeyInput::Ctrl('u') {
        state.show_source = !state.show_source;
        state.status = if state.show_source {
            String::from_str("Source view")
        } else {
            String::from_str("Rendered view")
        };
        return KeyAction::Nothing;
    }
    if key == KeyInput::Down || c == Some('j') {
        match state.mode {
            BrowserMode::Selection => selection_down(state, n),
            BrowserMode::Scroll => if state.scroll_offset < u16::MAX {
                scroll_down(state, lines.len(), viewport_height);
            },
        }
        return KeyAction::Nothing;
    }
    if key == KeyInput::Up || c == Some('k') {
        match state.mode {
            BrowserMode::Selection => selection_up(state),
            BrowserMode::Scroll => scroll_up(state),
        }
        return KeyAction::Nothing;
    }
    if key == KeyInput::PageDown || c == Some(' ') {
        match state.mode {
            BrowserMode::Selection => selection_down(state, n),
            BrowserMode::Scroll => scroll_page_down(state, lines.len(), viewport_height),
        }
        return KeyAction::Nothing;
    }
    if key == KeyInput::PageUp {
        match state.mode {
            BrowserMode::Selection => selection_up(state),
            BrowserMode::Scroll => scroll_page_up(state, lines.len(), viewport_height),
        }
        return KeyAction::Nothing;
    }
    if key == KeyInput::Home {
        selection_first(state);
        return KeyAction::Nothing;
    }
    if key == KeyInput::End {
        selection_last(state, n);
        return KeyAction::Nothing;
    }
    if c == Some('G') {
        scroll_to_bottom(state, lines.len(), viewport_height);
        return KeyAction::Nothing;
    }
    if key == KeyInput::Ctrl('d') {
        let title = match page.document.title() {
            Some(t) => t,
            None => "Untitled",
        };
        proof {
            reveal_strlit("Untitled");
        }
        state.toggle_bookmark_current(title);
        return KeyAction::Nothing;
    }
    if key == KeyInput::Ctrl('i') {
        toggle_overlay(state, Overlay::PageInfo);
        return KeyAction::Nothing;
    }
    if key == KeyInput::Ctrl('l') {
        return KeyAction::ClearScreen;
    }
    if key == KeyInput::CtrlEnter {
        return open_in_new_tab(state, page);
    }
    if key == KeyInput::Enter {
        return activate(state, page);
    }
    if c == Some('b') || key == KeyInput::Backspace {
        if go_back(state) {
            return match state.current {
                PageLocation::Unsupported(_) => KeyAction::Nothing,
                _ => KeyAction::Show(state.current.duplicate()),
            };
        }
        return KeyAction::Nothing;
    }
    if c == Some('f') && key != KeyInput::Ctrl('f') {
        if go_forward(state) {
            return match state.current {
                PageLocation::Unsupported(_) => KeyAction::Nothing,
                _ => KeyAction::Show(state.current.duplicate()),
            };
        }
        return KeyAction::Nothing;
    }
    if c == Some('r') {
        return KeyAction::Reload;
    }
    if key == KeyInput::Ctrl('R') {
        return KeyAction::ReloadPlugins;
    }
    KeyAction::Nothing
}

/// What a key does (see `binding` and `key_effect`). Tab commands are
/// returned for the caller, which holds the tabs, to apply with
/// `apply_tab_command`; `tabs_len` and `active` are its tab count and
/// active tab; `lines` are the texts of the page's shown lines, as
/// `screen::line_texts` gives them of `screen::browser_lines`.
pub fn handle_key(
    state: &mut BrowserState,
    page: &mut LoadedPage,
    key: KeyInput,
    tabs_len: usize,
    active: usize,
    lines: &[String],
    viewport_height: u16,
) -> (r: KeyAction)
    ensures
        key_effect(
            binding(key, *old(state), *old(page), tabs_len, active),
            *old(state),
            *old(page),
            *final(state),
            *final(page),
            lines@,
            viewport_height,
            r,
        ),
{
    if key == KeyInput::Ctrl('t') {
        return KeyAction::NewTab;
    }
    if key == KeyInput::Ctrl('w') && tabs_len > 1 {
        return KeyAction::Tab(TabCommand::Close);
    }
    if key == KeyInput::CtrlTab && tabs_len > 1 {
        return KeyAction::Tab(TabCommand::Next);
    }
    if key == KeyInput::CtrlBackTab && tabs_len > 1 {
        return KeyAction::Tab(TabCommand::Previous);
    }
    if key == KeyInput::CtrlShiftLeft && active > 0 {
        return KeyAction::Tab(TabCommand::MoveLeft);
    }
    if key == KeyInput::CtrlShiftRight && active < tabs_len && active + 1 < tabs_len {
        return KeyAction::Tab(TabCommand::MoveRight);
    }
    match key {
        KeyInput::Alt(d) => {
            if '1' <= d && d <= '9' {
                return KeyAction::Tab(TabCommand::Jump(((d as u32) - ('1' as u32)) as usize));
            }
            if d == '0' {
                return KeyAction::Nothing;
            }
        },
        _ => {},
    }
    match state.overlay {
        Some(_) => {
            let r = overlay_key(state, page, key, lines);
            r
        },
        None => main_key(state, page, key, lines, viewport_height),
    }
}

} // verus!
