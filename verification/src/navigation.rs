//! Where the browser is and how it moves: the current location, the back
//! and forward stacks, the selection, scrolling, overlays and modes.

use vstd::prelude::*;
use crate::text;
use crate::paths::{is_absolute_path, joined_path, parent_path, path_is_absolute, path_join, path_parent};
use crate::browser::{
    add_bookmark, bookmarks_view, history_view, record_history, other_bookmarks, visited,
    Bookmark, BookmarkV, BrowserMode, FindState, HistoryEntry, Overlay, ActionConfirmation,
};
use crate::config::Config;
use crate::jrg_url::{from_parsed, joined_url, parsed_url, url_result, JaringanUrl, JaringanUrlV, UrlError, UrlErrorV};

verus! {

broadcast use vstd::string::group_string_axioms;

/// A place a page can come from. A file is named by its path as text.
#[derive(Debug, Clone, PartialEq, Eq)]
pub enum PageLocation {
    File(String),
    Network(JaringanUrl),
    /// A web URL (`http://` or `https://`).
    Web(String),
    Unsupported(String),
}

pub ghost enum LocationV {
    File(Seq<char>),
    Network(JaringanUrlV),
    Web(Seq<char>),
    Unsupported(Seq<char>),
}

impl View for PageLocation {
    type V = LocationV;

    open spec fn view(&self) -> LocationV {
        match self {
            PageLocation::File(p) => LocationV::File(p@),
            PageLocation::Network(u) => LocationV::Network(u@),
            PageLocation::Web(w) => LocationV::Web(w@),
            PageLocation::Unsupported(t) => LocationV::Unsupported(t@),
        }
    }
}

pub open spec fn locations_view(v: Seq<PageLocation>) -> Seq<LocationV> {
    v.map_values(|l: PageLocation| l@)
}

/// The text a location is shown as.
pub open spec fn display_of(l: LocationV) -> Seq<char> {
    match l {
        LocationV::File(p) => p,
        LocationV::Network(u) => u.serialization,
        LocationV::Web(w) => w,
        LocationV::Unsupported(t) => t,
    }
}

impl PageLocation {
    /// A copy of this location.
    pub fn duplicate(&self) -> (r: PageLocation)
        ensures
            r@ == self@,
    {
        match self {
            PageLocation::File(p) => PageLocation::File(p.clone()),
            PageLocation::Network(u) => PageLocation::Network(u.duplicate()),
            PageLocation::Web(w) => PageLocation::Web(w.clone()),
            PageLocation::Unsupported(t) => PageLocation::Unsupported(t.clone()),
        }
    }

    pub fn display_url(&self) -> (r: String)
        ensures
            r@ == display_of(self@),
    {
        match self {
            PageLocation::File(p) => String::from_str(p.as_str()),
            PageLocation::Network(u) => String::from_str(u.as_str()),
            PageLocation::Web(w) => String::from_str(w.as_str()),
            PageLocation::Unsupported(t) => String::from_str(t.as_str()),
        }
    }
}

/// Everything the browser keeps about the tab it shows.
#[derive(Debug, Clone)]
pub struct BrowserState {
    pub current: PageLocation,
    pub mode: BrowserMode,
    pub selected: usize,
    pub scroll_offset: u16,
    pub back_stack: Vec<PageLocation>,
    pub forward_stack: Vec<PageLocation>,
    pub status: String,
    pub pending_confirmation: Option<ActionConfirmation>,
    pub overlay: Option<Overlay>,
    pub overlay_selected: usize,
    pub history: Vec<HistoryEntry>,
    pub bookmarks: Vec<Bookmark>,
    pub find_state: FindState,
    pub config: Config,
    /// Whether the page's source is shown in place of the page.
    pub show_source: bool,
}

/// Where a tab is, and where back and forward lead.
pub ghost struct NavV {
    pub current: LocationV,
    pub back: Seq<LocationV>,
    pub forward: Seq<LocationV>,
}

pub open spec fn nav_of(s: BrowserState) -> NavV {
    NavV {
        current: s.current@,
        back: locations_view(s.back_stack@),
        forward: locations_view(s.forward_stack@),
    }
}

/// Following a link: the current page goes on the back stack, and the
/// forward stack is emptied.
pub open spec fn nav_to(n: NavV, next: LocationV) -> NavV {
    NavV { current: next, back: n.back.push(n.current), forward: Seq::empty() }
}

/// Going back, where there is a page to go back to.
pub open spec fn nav_back(n: NavV) -> NavV {
    if n.back.len() == 0 {
        n
    } else {
        NavV { current: n.back.last(), back: n.back.drop_last(), forward: n.forward.push(n.current) }
    }
}

/// Going forward, where there is a page to go forward to.
pub open spec fn nav_forward(n: NavV) -> NavV {
    if n.forward.len() == 0 {
        n
    } else {
        NavV { current: n.forward.last(), back: n.back.push(n.current), forward: n.forward.drop_last() }
    }
}

/// Going back right after following a link returns to the page the link
/// was on, with the link's page the only one ahead.
pub proof fn lemma_back_after_navigate(n: NavV, next: LocationV)
    ensures
        nav_back(nav_to(n, next)) == (NavV { current: n.current, back: n.back, forward: seq![next] }),
{
    assert(n.back.push(n.current).drop_last() =~= n.back);
    assert(Seq::<LocationV>::empty().push(next) =~= seq![next]);
}

/// Going forward undoes going back.
pub proof fn lemma_forward_undoes_back(n: NavV)
    requires
        n.back.len() > 0,
    ensures
        nav_forward(nav_back(n)) == n,
{
    assert(n.forward.push(n.current).drop_last() =~= n.forward);
    assert(n.back.drop_last().push(n.back.last()) =~= n.back);
}

/// Going back undoes going forward.
pub proof fn lemma_back_undoes_forward(n: NavV)
    requires
        n.forward.len() > 0,
    ensures
        nav_back(nav_forward(n)) == n,
{
    assert(n.back.push(n.current).drop_last() =~= n.back);
    assert(n.forward.drop_last().push(n.forward.last()) =~= n.forward);
}

fn push_location(v: &mut Vec<PageLocation>, l: PageLocation)
    ensures
        locations_view(final(v)@) == locations_view(old(v)@).push(l@),
{
    v.push(l);
    assert(locations_view(v@) =~= locations_view(old(v)@).push(l@));
}

fn pop_location(v: &mut Vec<PageLocation>) -> (r: Option<PageLocation>)
    ensures
        old(v)@.len() == 0 ==> r is None && final(v)@ == old(v)@,
        old(v)@.len() > 0 ==> (r matches Some(l) && l@ == locations_view(old(v)@).last()
            && locations_view(final(v)@) == locations_view(old(v)@).drop_last()),
{
    let r = v.pop();
    proof {
        if old(v)@.len() > 0 {
            assert(locations_view(v@) =~= locations_view(old(v)@).drop_last());
        }
    }
    r
}

/// What toggling the current page's bookmark does: a bookmark for its
/// URL is removed, else one named `title` is added at some time.
pub open spec fn bookmark_toggled(s0: BrowserState, s1: BrowserState, title: Seq<char>) -> bool {
    let url = display_of(s0.current@);
    let before = bookmarks_view(s0.bookmarks@);
    if exists|i: int| 0 <= i < before.len() && before[i].url == url {
        &&& bookmarks_view(s1.bookmarks@) == other_bookmarks(before, url)
        &&& s1.status@ == "Bookmark removed: "@ + url
    } else {
        &&& exists|now: u64|
            bookmarks_view(s1.bookmarks@) == other_bookmarks(before, url).push(
                BookmarkV { name: title, url, created_at: now },
            )
        &&& s1.status@ == "Bookmarked: "@ + title
    }
}

impl BrowserState {
    /// A tab showing `current`, with no history or bookmarks yet; the
    /// saved ones are put in by whoever reads them.
    pub fn new(current: PageLocation, config: Config) -> (r: BrowserState)
        ensures
            r.current == current,
            r.config == config,
            r.mode == BrowserMode::Selection,
            r.selected == 0,
            r.scroll_offset == 0,
            r.back_stack@.len() == 0,
            r.forward_stack@.len() == 0,
            r.status@ == "Ready"@,
            r.pending_confirmation is None,
            r.overlay is None,
            r.overlay_selected == 0,
            r.history@.len() == 0,
            r.bookmarks@.len() == 0,
            r.find_state.query@.len() == 0,
            r.find_state.matches@.len() == 0,
            r.find_state.match_idx == 0,
            !r.show_source,
    {
        BrowserState {
            current,
            mode: BrowserMode::Selection,
            selected: 0,
            scroll_offset: 0,
            back_stack: Vec::new(),
            forward_stack: Vec::new(),
            status: String::from_str("Ready"),
            pending_confirmation: None,
            overlay: None,
            overlay_selected: 0,
            history: Vec::new(),
            bookmarks: Vec::new(),
            find_state: FindState { query: String::new(), matches: Vec::new(), match_idx: 0 },
            config,
            show_source: false,
        }
    }

    /// Records a visit to the current page now; saving the history is up
    /// to the caller.
    pub fn record_current(&mut self, title: &str)
        ensures
            exists|now: u64|
                history_view(final(self).history@) == visited(
                    history_view(old(self).history@),
                    display_of(old(self).current@),
                    title@,
                    now,
                ),
            final(self).current == old(self).current,
            final(self).bookmarks == old(self).bookmarks,
    {
        let url = self.current.display_url();
        record_history(&mut self.history, url.as_str(), title);
    }

    /// Removes the current page's bookmark, or bookmarks it under `title`
    /// now; saving is up to the caller.
    pub fn toggle_bookmark_current(&mut self, title: &str)
        ensures
            bookmark_toggled(*old(self), *final(self), title@),
            final(self).current == old(self).current,
    {
        let url = self.current.display_url();
        let ghost before = bookmarks_view(self.bookmarks@);
        let mut found = false;
        let mut i: usize = 0;
        while i < self.bookmarks.len()
            invariant
                i <= self.bookmarks@.len(),
                before == bookmarks_view(self.bookmarks@),
                found <==> exists|j: int| 0 <= j < i && before[j].url == url@,
            decreases self.bookmarks@.len() - i,
        {
            assert(before[i as int].url == self.bookmarks@[i as int].url@);
            if text::chars_eq(
                text::chars_of(self.bookmarks[i].url.as_str()).as_slice(),
                text::chars_of(url.as_str()).as_slice(),
            ) {
                found = true;
            }
            i = i + 1;
        }
        let mut status: Vec<char> = Vec::new();
        if found {
            crate::browser::remove_bookmark(&mut self.bookmarks, url.as_str());
            text::push_str(&mut status, "Bookmark removed: ");
            text::push_str(&mut status, url.as_str());
        } else {
            add_bookmark(&mut self.bookmarks, String::from_str(title), String::from_str(url.as_str()));
            text::push_str(&mut status, "Bookmarked: ");
            text::push_str(&mut status, title);
        }
        self.status = text::string_from(status.as_slice());
    }
}

/// Follows a link to `next`.
pub fn navigate_to(state: &mut BrowserState, next: PageLocation)
    ensures
        nav_of(*final(state)) == nav_to(nav_of(*old(state)), next@),
        final(state).selected == 0,
        final(state).scroll_offset == 0,
        final(state).overlay is None,
        final(state).status@ == "Loaded"@,
        final(state).mode == old(state).mode,
        *final(state) == (BrowserState {
            current: final(state).current,
            back_stack: final(state).back_stack,
            forward_stack: final(state).forward_stack,
            selected: 0,
            scroll_offset: 0,
            overlay: None,
            status: final(state).status,
            ..*old(state)
        }),
{
    let mut previous = next;
    std::mem::swap(&mut previous, &mut state.current);
    push_location(&mut state.back_stack, previous);
    state.forward_stack = Vec::new();
    assert(locations_view(state.forward_stack@) =~= Seq::<LocationV>::empty());
    state.selected = 0;
    state.scroll_offset = 0;
    state.overlay = None;
    state.status = String::from_str("Loaded");
}

/// Goes back a page, if there is one; says whether it did.
pub fn go_back(state: &mut BrowserState) -> (r: bool)
    ensures
        r == (old(state).back_stack@.len() > 0),
        nav_of(*final(state)) == nav_back(nav_of(*old(state))),
        r ==> final(state).selected == 0 && final(state).scroll_offset == 0 && final(state).overlay is None && final(state).status@ == "Back"@,
        !r ==> final(state).status@ == "No back history"@ && final(state).selected == old(state).selected && final(state).scroll_offset == old(state).scroll_offset && final(state).overlay
            == old(state).overlay,
{
    let previous = match pop_location(&mut state.back_stack) {
        Some(p) => p,
        None => {
            state.status = String::from_str("No back history");
            return false;
        },
    };
    let mut current = previous;
    std::mem::swap(&mut current, &mut state.current);
    push_location(&mut state.forward_stack, current);
    state.selected = 0;
    state.scroll_offset = 0;
    state.overlay = None;
    state.status = String::from_str("Back");
    true
}

/// Goes forward a page, if there is one; says whether it did.
pub fn go_forward(state: &mut BrowserState) -> (r: bool)
    ensures
        r == (old(state).forward_stack@.len() > 0),
        nav_of(*final(state)) == nav_forward(nav_of(*old(state))),
        r ==> final(state).selected == 0 && final(state).scroll_offset == 0 && final(state).overlay is None && final(state).status@ == "Forward"@,
        !r ==> final(state).status@ == "No forward history"@ && final(state).selected == old(state).selected && final(state).scroll_offset == old(state).scroll_offset && final(state).overlay
            == old(state).overlay,
{
    let next = match pop_location(&mut state.forward_stack) {
        Some(p) => p,
        None => {
            state.status = String::from_str("No forward history");
            return false;
        },
    };
    let mut current = next;
    std::mem::swap(&mut current, &mut state.current);
    push_location(&mut state.back_stack, current);
    state.selected = 0;
    state.scroll_offset = 0;
    state.overlay = None;
    state.status = String::from_str("Forward");
    true
}

pub open spec fn mode_status(m: BrowserMode) -> Seq<char> {
    match m {
        BrowserMode::Selection => "Selection mode"@,
        BrowserMode::Scroll => "Scroll mode"@,
    }
}

pub fn switch_mode(state: &mut BrowserState, mode: BrowserMode)
    ensures
        final(state).mode == mode,
        final(state).status@ == mode_status(mode),
        nav_of(*final(state)) == nav_of(*old(state)),
{
    state.mode = mode;
    state.status = match mode {
        BrowserMode::Selection => String::from_str("Selection mode"),
        BrowserMode::Scroll => String::from_str("Scroll mode"),
    };
}

pub fn toggle_mode(state: &mut BrowserState)
    ensures
        final(state).mode == match old(state).mode {
            BrowserMode::Selection => BrowserMode::Scroll,
            BrowserMode::Scroll => BrowserMode::Selection,
        },
        final(state).status@ == mode_status(final(state).mode),
        nav_of(*final(state)) == nav_of(*old(state)),
{
    let next = match state.mode {
        BrowserMode::Selection => BrowserMode::Scroll,
        BrowserMode::Scroll => BrowserMode::Selection,
    };
    switch_mode(state, next);
}

/// Moves the selection down one item, stopping at the last.
pub fn selection_down(state: &mut BrowserState, item_count: usize)
    ensures
        final(state).selected == if item_count == 0 {
            old(state).selected as int
        } else if old(state).selected + 1 < item_count {
            old(state).selected + 1
        } else {
            item_count - 1
        },
        nav_of(*final(state)) == nav_of(*old(state)),
{
    if item_count > 0 {
        state.selected = if state.selected < item_count - 1 {
            state.selected + 1
        } else {
            item_count - 1
        };
    }
}

/// Moves the selection up one item, stopping at the first.
pub fn selection_up(state: &mut BrowserState)
    ensures
        final(state).selected == if old(state).selected > 0 {
            old(state).selected - 1
        } else {
            0
        },
        nav_of(*final(state)) == nav_of(*old(state)),
{
    if state.selected > 0 {
        state.selected = state.selected - 1;
    }
}

pub fn selection_first(state: &mut BrowserState)
    ensures
        final(state).selected == 0,
        nav_of(*final(state)) == nav_of(*old(state)),
{
    state.selected = 0;
}

/// Selects the last item (the first, where there are none).
pub fn selection_last(state: &mut BrowserState, item_count: usize)
    ensures
        final(state).selected == if item_count > 0 {
            item_count - 1
        } else {
            0
        },
        nav_of(*final(state)) == nav_of(*old(state)),
{
    state.selected = if item_count > 0 {
        item_count - 1
    } else {
        0
    };
}

/// The furthest the page scrolls: the lines that do not fit, as a `u16`
/// (wrapping, as the conversion does).
pub open spec fn max_offset(line_count: usize, viewport_height: u16) -> u16 {
    (if line_count > viewport_height {
        line_count - viewport_height
    } else {
        0
    }) as u16
}

fn max_scroll_offset(line_count: usize, viewport_height: u16) -> (r: u16)
    ensures
        r == max_offset(line_count, viewport_height),
{
    let d: usize = if line_count > viewport_height as usize {
        line_count - viewport_height as usize
    } else {
        0
    };
    #[verifier::truncate]
    (d as u16)
}

/// Scrolls down one line, no further than the last screenful.
pub fn scroll_down(state: &mut BrowserState, line_count: usize, viewport_height: u16)
    requires
        old(state).scroll_offset < u16::MAX,
    ensures
        final(state).scroll_offset == if old(state).scroll_offset + 1 < max_offset(
            line_count,
            viewport_height,
        ) {
            (old(state).scroll_offset + 1) as u16
        } else {
            max_offset(line_count, viewport_height)
        },
        nav_of(*final(state)) == nav_of(*old(state)),
{
    let m = max_scroll_offset(line_count, viewport_height);
    let next = state.scroll_offset + 1;
    state.scroll_offset = if next < m {
        next
    } else {
        m
    };
}

/// Scrolls up one line, stopping at the top.
pub fn scroll_up(state: &mut BrowserState)
    ensures
        final(state).scroll_offset == if old(state).scroll_offset > 0 {
            (old(state).scroll_offset - 1) as u16
        } else {
            0
        },
        nav_of(*final(state)) == nav_of(*old(state)),
{
    if state.scroll_offset > 0 {
        state.scroll_offset = state.scroll_offset - 1;
    }
}

/// Scrolls down a screenful, no further than the last screenful.
pub fn scroll_page_down(state: &mut BrowserState, line_count: usize, viewport_height: u16)
    ensures
        final(state).scroll_offset == ({
            let s = if old(state).scroll_offset + viewport_height > u16::MAX {
                u16::MAX as int
            } else {
                old(state).scroll_offset + viewport_height
            };
            if s < max_offset(line_count, viewport_height) {
                s as u16
            } else {
                max_offset(line_count, viewport_height)
            }
        }),
        nav_of(*final(state)) == nav_of(*old(state)),
{
    let m = max_scroll_offset(line_count, viewport_height);
    let s: u16 = if state.scroll_offset > u16::MAX - viewport_height {
        u16::MAX
    } else {
        state.scroll_offset + viewport_height
    };
    state.scroll_offset = if s < m {
        s
    } else {
        m
    };
}

/// Scrolls up a screenful, stopping at the top.
pub fn scroll_page_up(state: &mut BrowserState, _line_count: usize, viewport_height: u16)
    ensures
        final(state).scroll_offset == if old(state).scroll_offset > viewport_height {
            (old(state).scroll_offset - viewport_height) as u16
        } else {
            0
        },
        nav_of(*final(state)) == nav_of(*old(state)),
{
    state.scroll_offset = if state.scroll_offset > viewport_height {
        state.scroll_offset - viewport_height
    } else {
        0
    };
}

pub fn scroll_to_top(state: &mut BrowserState)
    ensures
        final(state).scroll_offset == 0,
        nav_of(*final(state)) == nav_of(*old(state)),
{
    state.scroll_offset = 0;
}

pub fn scroll_to_bottom(state: &mut BrowserState, line_count: usize, viewport_height: u16)
    ensures
        final(state).scroll_offset == max_offset(line_count, viewport_height),
        nav_of(*final(state)) == nav_of(*old(state)),
{
    state.scroll_offset = max_scroll_offset(line_count, viewport_height);
}

/// Closes the overlay if it is the one shown, else shows it with its first
/// entry selected.
pub fn toggle_overlay(state: &mut BrowserState, overlay: Overlay)
    ensures
        old(state).overlay == Some(overlay) ==> final(state).overlay is None && final(state).overlay_selected
            == old(state).overlay_selected,
        old(state).overlay != Some(overlay) ==> final(state).overlay == Some(overlay) && final(state).overlay_selected == 0,
        nav_of(*final(state)) == nav_of(*old(state)),
{
    let same = match state.overlay {
        Some(o) => o == overlay,
        None => false,
    };
    if same {
        state.overlay = None;
    } else {
        state.overlay = Some(overlay);
        state.overlay_selected = 0;
    }
}

/// The file a link in the file page `current` leads to: an absolute path
/// as it is, else the target read against the page's folder (`.` when the
/// page's path has no parent), by the platform's reading of paths.
pub open spec fn file_target(current: Seq<char>, target: Seq<char>) -> Seq<char> {
    if is_absolute_path(target) {
        target
    } else {
        joined_path(
            match parent_path(current) {
                Some(b) => b,
                None => "."@,
            },
            target,
        )
    }
}

/// A link target in a file page; see `file_target`.
fn resolve_file_target(current_file: &str, target: &str) -> (r: PageLocation)
    ensures
        r@ == LocationV::File(file_target(current_file@, target@)),
{
    proof {
        reveal_strlit(".");
    }
    if path_is_absolute(target) {
        return PageLocation::File(String::from_str(target));
    }
    let base = match path_parent(current_file) {
        Some(b) => b,
        None => String::from_str("."),
    };
    PageLocation::File(path_join(base.as_str(), target))
}

/// Whether a link target is a web address.
pub open spec fn web_like(t: Seq<char>) -> bool {
    "http://"@.is_prefix_of(t) || "https://"@.is_prefix_of(t) || "www."@.is_prefix_of(t)
}

fn looks_like_web_url(target: &str) -> (r: bool)
    ensures
        r == web_like(target@),
{
    let t = text::chars_of(target);
    text::starts_with(t.as_slice(), text::chars_of("http://").as_slice())
        || text::starts_with(t.as_slice(), text::chars_of("https://").as_slice())
        || text::starts_with(t.as_slice(), text::chars_of("www.").as_slice())
}

/// The location a URL read gives, or the target as unsupported.
pub open spec fn url_location(u: Result<JaringanUrlV, UrlErrorV>, target: Seq<char>) -> LocationV {
    match u {
        Ok(v) => LocationV::Network(v),
        Err(_) => LocationV::Unsupported(target),
    }
}

fn location_of_url(u: Result<JaringanUrl, UrlError>, target: &str) -> (r: PageLocation)
    ensures
        r@ == url_location(url_result(u), target@),
{
    match u {
        Ok(v) => PageLocation::Network(v),
        Err(_) => PageLocation::Unsupported(String::from_str(target)),
    }
}

/// Where a link on the current page leads: a `jrg://` URL as read, a web
/// address as it is, and otherwise the target read against the current
/// location (against a file's folder; see `file_target`).
pub open spec fn target_location(current: LocationV, target: Seq<char>) -> LocationV {
    if "jrg://"@.is_prefix_of(target) {
        url_location(from_parsed(parsed_url(target)), target)
    } else if web_like(target) {
        LocationV::Web(target)
    } else {
        match current {
            LocationV::File(cur) => LocationV::File(file_target(cur, target)),
            LocationV::Network(base) => url_location(from_parsed(joined_url(base.serialization, target)), target),
            _ => LocationV::Unsupported(target),
        }
    }
}

/// A link target that starts with `http://`, `https://` or `www.` is a
/// web address: it leads to that address as written, whatever page it is
/// on.
pub proof fn lemma_web_targets_stay_web(current: LocationV, target: Seq<char>)
    requires
        "http://"@.is_prefix_of(target) || "https://"@.is_prefix_of(target) || "www."@.is_prefix_of(target),
    ensures
        target_location(current, target) == LocationV::Web(target),
{
    reveal_strlit("http://");
    reveal_strlit("https://");
    reveal_strlit("www.");
    reveal_strlit("jrg://");
    assert(target[0] == 'h' || target[0] == 'w') by {
        if "http://"@.is_prefix_of(target) {
            assert(target.subrange(0, 7)[0] == target[0]);
        } else if "https://"@.is_prefix_of(target) {
            assert(target.subrange(0, 8)[0] == target[0]);
        } else {
            assert(target.subrange(0, 4)[0] == target[0]);
        }
    }
    assert(!"jrg://"@.is_prefix_of(target)) by {
        if "jrg://"@.is_prefix_of(target) {
            assert(target.subrange(0, 6)[0] == target[0]);
        }
    }
}

/// Where a link on the current page leads; see `target_location`.
pub fn resolve_target(current: &PageLocation, target: &str) -> (r: PageLocation)
    ensures
        r@ == target_location(current@, target@),
{
    let t = text::chars_of(target);
    if text::starts_with(t.as_slice(), text::chars_of("jrg://").as_slice()) {
        return location_of_url(JaringanUrl::parse(target), target);
    }
    if looks_like_web_url(target) {
        return PageLocation::Web(String::from_str(target));
    }
    match current {
        PageLocation::File(current_file) => resolve_file_target(current_file.as_str(), target),
        PageLocation::Network(base) => location_of_url(base.resolve(target), target),
        _ => PageLocation::Unsupported(String::from_str(target)),
    }
}

} // verus!
