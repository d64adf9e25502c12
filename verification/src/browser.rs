//! Browser state kept between visits: history, bookmarks, saved tabs, the
//! file names they are stored under, and URL helpers.

use vstd::prelude::*;
use crate::text;

verus! {

broadcast use vstd::string::group_string_axioms;

/// The most visits the history keeps.
pub const HISTORY_LIMIT: usize = 200;

#[derive(Debug, Clone, PartialEq, Eq)]
pub struct HistoryEntry {
    pub url: String,
    pub title: String,
    /// Unix seconds.
    pub visited_at: u64,
}

pub ghost struct HistoryEntryV {
    pub url: Seq<char>,
    pub title: Seq<char>,
    pub visited_at: u64,
}

impl View for HistoryEntry {
    type V = HistoryEntryV;

    open spec fn view(&self) -> HistoryEntryV {
        HistoryEntryV { url: self.url@, title: self.title@, visited_at: self.visited_at }
    }
}

pub open spec fn history_view(v: Seq<HistoryEntry>) -> Seq<HistoryEntryV> {
    v.map_values(|e: HistoryEntry| e@)
}

/// The entries whose url differs from `url`, in order.
pub open spec fn without_url(es: Seq<HistoryEntryV>, url: Seq<char>) -> Seq<HistoryEntryV> {
    es.filter(|e: HistoryEntryV| e.url != url)
}

/// The last `n` entries (all of them when there are fewer).
pub open spec fn last_n<T>(s: Seq<T>, n: nat) -> Seq<T> {
    if s.len() > n {
        s.skip(s.len() - n)
    } else {
        s
    }
}

/// The history after a visit of `url` at time `now`: any earlier visit of
/// the same url is dropped, the visit goes last, and only the last 200
/// visits are kept.
pub open spec fn visited(es: Seq<HistoryEntryV>, url: Seq<char>, title: Seq<char>, now: u64) -> Seq<
    HistoryEntryV,
> {
    last_n(
        without_url(es, url).push(HistoryEntryV { url, title, visited_at: now }),
        HISTORY_LIMIT as nat,
    )
}

fn same_string(a: &String, b: &str) -> (r: bool)
    ensures
        r == (a@ == b@),
{
    let x = text::chars_of(a.as_str());
    let y = text::chars_of(b);
    text::chars_eq(x.as_slice(), y.as_slice())
}

fn copy_entry(e: &HistoryEntry) -> (r: HistoryEntry)
    ensures
        r@ == e@,
{
    HistoryEntry { url: e.url.clone(), title: e.title.clone(), visited_at: e.visited_at }
}

fn remove_history_url(entries: &mut Vec<HistoryEntry>, url: &str)
    ensures
        history_view(final(entries)@) == without_url(history_view(old(entries)@), url@),
{
    let ghost pred = |e: HistoryEntryV| e.url != url@;
    let mut kept: Vec<HistoryEntry> = Vec::new();
    let mut i: usize = 0;
    let ghost orig = history_view(entries@);
    assert(orig.take(0).filter(pred) =~= Seq::<HistoryEntryV>::empty());
    while i < entries.len()
        invariant
            i <= entries@.len(),
            orig == history_view(entries@),
            history_view(kept@) == orig.take(i as int).filter(pred),
            pred == (|e: HistoryEntryV| e.url != url@),
        decreases entries@.len() - i,
    {
        proof {
            assert(orig.take(i + 1) =~= orig.take(i as int).push(orig[i as int]));
            orig.take(i as int).lemma_filter_push(orig[i as int], pred);
        }
        if !same_string(&entries[i].url, url) {
            let e = copy_entry(&entries[i]);
            let ghost before = kept@;
            kept.push(e);
            assert(history_view(kept@) =~= history_view(before).push(e@));
        }
        i = i + 1;
    }
    assert(orig.take(entries@.len() as int) =~= orig);
    *entries = kept;
}

/// Records a visit made at `now` (Unix seconds); see `visited`.
pub fn record_visit(entries: &mut Vec<HistoryEntry>, url: &str, title: &str, now: u64)
    ensures
        history_view(final(entries)@) == visited(history_view(old(entries)@), url@, title@, now),
{
    remove_history_url(entries, url);
    let e = HistoryEntry { url: String::from_str(url), title: String::from_str(title), visited_at: now };
    let ghost before = history_view(entries@);
    entries.push(e);
    assert(history_view(entries@) =~= before.push(e@));
    if entries.len() > HISTORY_LIMIT {
        let n = entries.len() - HISTORY_LIMIT;
        let mut rest: Vec<HistoryEntry> = Vec::new();
        let mut i: usize = n;
        let ghost all = history_view(entries@);
        while i < entries.len()
            invariant
                n <= i <= entries@.len(),
                all == history_view(entries@),
                history_view(rest@) == all.subrange(n as int, i as int),
            decreases entries@.len() - i,
        {
            let x = copy_entry(&entries[i]);
            let ghost b = rest@;
            rest.push(x);
            assert(history_view(rest@) =~= history_view(b).push(x@));
            assert(all.subrange(n as int, i + 1) =~= all.subrange(n as int, i as int).push(all[i as int]));
            i = i + 1;
        }
        assert(all.subrange(n as int, all.len() as int) =~= all.skip(n as int));
        *entries = rest;
    }
}

/// The current time in Unix seconds, as the system clock gives it.
#[verifier::external_body]
fn unix_now() -> u64 {
    std::time::SystemTime::now().duration_since(std::time::UNIX_EPOCH).map(|d| d.as_secs()).unwrap_or(0)
}

/// Records a visit now; saving the history is up to the caller.
pub fn record_history(entries: &mut Vec<HistoryEntry>, url: &str, title: &str)
    ensures
        exists|now: u64|
            history_view(final(entries)@) == visited(history_view(old(entries)@), url@, title@, now),
{
    let now = unix_now();
    record_visit(entries, url, title, now);
}

#[derive(Debug, Clone, PartialEq, Eq)]
pub struct Bookmark {
    pub name: String,
    pub url: String,
    pub created_at: u64,
}

pub ghost struct BookmarkV {
    pub name: Seq<char>,
    pub url: Seq<char>,
    pub created_at: u64,
}

impl View for Bookmark {
    type V = BookmarkV;

    open spec fn view(&self) -> BookmarkV {
        BookmarkV { name: self.name@, url: self.url@, created_at: self.created_at }
    }
}

pub open spec fn bookmarks_view(v: Seq<Bookmark>) -> Seq<BookmarkV> {
    v.map_values(|b: Bookmark| b@)
}

pub open spec fn other_bookmarks(bs: Seq<BookmarkV>, url: Seq<char>) -> Seq<BookmarkV> {
    bs.filter(|b: BookmarkV| b.url != url)
}

/// Removes every bookmark of `url`; saving is up to the caller.
pub fn remove_bookmark(entries: &mut Vec<Bookmark>, url: &str)
    ensures
        bookmarks_view(final(entries)@) == other_bookmarks(bookmarks_view(old(entries)@), url@),
{
    let ghost pred = |b: BookmarkV| b.url != url@;
    let mut kept: Vec<Bookmark> = Vec::new();
    let mut i: usize = 0;
    let ghost orig = bookmarks_view(entries@);
    assert(orig.take(0).filter(pred) =~= Seq::<BookmarkV>::empty());
    while i < entries.len()
        invariant
            i <= entries@.len(),
            orig == bookmarks_view(entries@),
            bookmarks_view(kept@) == orig.take(i as int).filter(pred),
            pred == (|b: BookmarkV| b.url != url@),
        decreases entries@.len() - i,
    {
        proof {
            assert(orig.take(i + 1) =~= orig.take(i as int).push(orig[i as int]));
            orig.take(i as int).lemma_filter_push(orig[i as int], pred);
        }
        if !same_string(&entries[i].url, url) {
            let b = Bookmark {
                name: entries[i].name.clone(),
                url: entries[i].url.clone(),
                created_at: entries[i].created_at,
            };
            let ghost before = kept@;
            kept.push(b);
            assert(bookmarks_view(kept@) =~= bookmarks_view(before).push(b@));
        }
        i = i + 1;
    }
    assert(orig.take(entries@.len() as int) =~= orig);
    *entries = kept;
}

/// Bookmarks `url` under `name` at time `now`, replacing any earlier
/// bookmark of the same url.
pub fn bookmark_at(entries: &mut Vec<Bookmark>, name: String, url: String, now: u64)
    ensures
        bookmarks_view(final(entries)@) == other_bookmarks(bookmarks_view(old(entries)@), url@).push(
            BookmarkV { name: name@, url: url@, created_at: now },
        ),
{
    remove_bookmark(entries, url.as_str());
    let b = Bookmark { name, url, created_at: now };
    let ghost before = bookmarks_view(entries@);
    entries.push(b);
    assert(bookmarks_view(entries@) =~= before.push(b@));
}

/// Bookmarks `url` under `name` now; saving is up to the caller.
pub fn add_bookmark(entries: &mut Vec<Bookmark>, name: String, url: String)
    ensures
        exists|now: u64|
            bookmarks_view(final(entries)@) == other_bookmarks(bookmarks_view(old(entries)@), url@).push(
                BookmarkV { name: name@, url: url@, created_at: now },
            ),
{
    let now = unix_now();
    bookmark_at(entries, name, url, now);
}

#[derive(Debug, Clone, Copy, PartialEq, Eq, Structural)]
pub enum BrowserMode {
    Selection,
    Scroll,
}

/// Panels shown over the page.
#[derive(Debug, Clone, Copy, PartialEq, Eq, Structural)]
pub enum Overlay {
    Help,
    History,
    Bookmarks,
    Find,
    PageInfo,
}

#[derive(Debug, Clone, PartialEq, Eq)]
pub struct FindState {
    pub query: String,
    /// Line numbers of the matches.
    pub matches: Vec<usize>,
    /// The current match, an index into `matches`.
    pub match_idx: usize,
}

#[derive(Debug, Clone, PartialEq, Eq)]
pub struct ActionConfirmation {
    pub id: String,
    pub target: String,
}

/// A tab saved for the next launch.
#[derive(Debug, Clone, PartialEq, Eq)]
pub struct SavedTab {
    pub url: String,
    pub title: String,
}

/// The JRG URL under which the web gateway serves a web URL.
pub open spec fn web_jrg(web: Seq<char>) -> Seq<char> {
    if "https://"@.is_prefix_of(web) {
        "jrg://https."@ + web.skip(8)
    } else if "http://"@.is_prefix_of(web) {
        "jrg://http/"@ + web.skip(7)
    } else {
        "jrg://https."@ + web
    }
}

pub fn web_to_jrg_url(web_url: &str) -> (r: String)
    ensures
        r@ == web_jrg(web_url@),
{
    let cs = text::chars_of(web_url);
    let https = text::chars_of("https://");
    let http = text::chars_of("http://");
    proof {
        reveal_strlit("https://");
        reveal_strlit("http://");
    }
    let mut out: Vec<char>;
    if text::starts_with(cs.as_slice(), https.as_slice()) {
        out = text::chars_of("jrg://https.");
        let rest = text::slice_of(cs.as_slice(), 8, cs.len());
        text::push_chars(&mut out, rest.as_slice());
        assert(rest@ =~= web_url@.skip(8));
    } else if text::starts_with(cs.as_slice(), http.as_slice()) {
        out = text::chars_of("jrg://http/");
        let rest = text::slice_of(cs.as_slice(), 7, cs.len());
        text::push_chars(&mut out, rest.as_slice());
        assert(rest@ =~= web_url@.skip(7));
    } else {
        out = text::chars_of("jrg://https.");
        text::push_chars(&mut out, cs.as_slice());
    }
    text::string_from(out.as_slice())
}

pub open spec fn is_ascii_alnum(c: char) -> bool {
    ('0' <= c && c <= '9') || ('a' <= c && c <= 'z') || ('A' <= c && c <= 'Z')
}

/// The name before trimming: ASCII letters and digits in lower case, each
/// run of other characters as one `_`.
pub open spec fn cache_raw(s: Seq<char>) -> (Seq<char>, bool)
    decreases s.len(),
{
    if s.len() == 0 {
        (Seq::empty(), false)
    } else {
        let (out, sep) = cache_raw(s.drop_last());
        let c = s.last();
        if is_ascii_alnum(c) {
            (out.push(text::ascii_lower(c)), false)
        } else if !sep {
            (out.push('_'), true)
        } else {
            (out, sep)
        }
    }
}

/// A file name for caching a URL: see `cache_raw`, with leading and
/// trailing `_` removed.
pub open spec fn cache_name(url: Seq<char>) -> Seq<char> {
    text::trim_matches(cache_raw(url).0, '_')
}

pub fn cache_filename_for_url(url: &str) -> (r: String)
    ensures
        r@ == cache_name(url@),
{
    let cs = text::chars_of(url);
    let mut out: Vec<char> = Vec::new();
    let mut sep = false;
    let mut i: usize = 0;
    assert(cs@.take(0) =~= Seq::<char>::empty());
    while i < cs.len()
        invariant
            i <= cs@.len(),
            cache_raw(cs@.take(i as int)) == (out@, sep),
        decreases cs@.len() - i,
    {
        let c = cs[i];
        assert(cs@.take(i + 1).drop_last() =~= cs@.take(i as int));
        if ('0' <= c && c <= '9') || ('a' <= c && c <= 'z') || ('A' <= c && c <= 'Z') {
            out.push(text::char_lower(c));
            sep = false;
        } else if !sep {
            out.push('_');
            sep = true;
        }
        i = i + 1;
    }
    assert(cs@.take(cs@.len() as int) =~= cs@);
    let t = text::trim_matches_vec(out.as_slice(), '_');
    text::string_from(t.as_slice())
}

/// `name` inside the directory `dir`, as `Path::join` writes it for a
/// relative name.
pub open spec fn joined(dir: Seq<char>, name: Seq<char>) -> Seq<char> {
    if dir.len() == 0 || dir.last() == '/' {
        dir + name
    } else {
        dir + seq!['/'] + name
    }
}

fn join_exec(dir: &str, name: &str) -> (r: String)
    ensures
        r@ == joined(dir@, name@),
{
    let mut v = text::chars_of(dir);
    if v.len() > 0 && v[v.len() - 1] != '/' {
        v.push('/');
    }
    text::push_str(&mut v, name);
    text::string_from(v.as_slice())
}

/// Where the history is stored inside the data directory.
pub fn history_path(data_dir: &str) -> (r: String)
    ensures
        r@ == joined(data_dir@, "history.json"@),
{
    join_exec(data_dir, "history.json")
}

/// Where the bookmarks are stored inside the data directory.
pub fn bookmarks_path(data_dir: &str) -> (r: String)
    ensures
        r@ == joined(data_dir@, "bookmarks.json"@),
{
    join_exec(data_dir, "bookmarks.json")
}

/// Where the open tabs are stored inside the data directory.
pub fn tabs_path(data_dir: &str) -> (r: String)
    ensures
        r@ == joined(data_dir@, "tabs.json"@),
{
    join_exec(data_dir, "tabs.json")
}

/// The configuration file inside the configuration directory.
pub fn config_path(config_dir: &str) -> (r: String)
    ensures
        r@ == joined(config_dir@, "browser.yaml"@),
{
    join_exec(config_dir, "browser.yaml")
}

} // verus!
