//! The gateway's response cache: pages answered to GET requests, kept by
//! their Jaringan URL for a time, and never more of them than the settings
//! allow. Times are whole seconds given by the caller.

use vstd::prelude::*;
use crate::text;
use crate::gateway::HttpToJrgGatewayConfig;
use crate::protocol::StatusCode;

verus! {

broadcast use vstd::string::group_string_axioms;

/// A cached page: its key, when it was stored, and the page.
pub type CacheEntryV = (Seq<char>, u64, Seq<char>);

/// Cached pages, oldest first.
#[derive(Debug, Clone)]
pub struct ResponseCache {
    entries: Vec<(String, u64, String)>,
}

pub open spec fn entry_view(e: (String, u64, String)) -> CacheEntryV {
    (e.0@, e.1, e.2@)
}

impl View for ResponseCache {
    type V = Seq<CacheEntryV>;

    closed spec fn view(&self) -> Seq<CacheEntryV> {
        self.entries@.map_values(|e: (String, u64, String)| entry_view(e))
    }
}

/// How old an entry stored at `at` is at `now` (0 for a time before it).
pub open spec fn age(at: u64, now: u64) -> int {
    if now >= at {
        now - at
    } else {
        0
    }
}

/// Whether an entry stored at `at` is still good at `now`.
pub open spec fn fresh(at: u64, now: u64, ttl: u64) -> bool {
    age(at, now) < ttl
}

/// The page cached under `key` that is still fresh: the first entry with
/// the key decides.
pub open spec fn cached(s: Seq<CacheEntryV>, key: Seq<char>, now: u64, ttl: u64) -> Option<Seq<char>>
    decreases s.len(),
{
    if s.len() == 0 {
        None
    } else if s[0].0 == key {
        if fresh(s[0].1, now, ttl) {
            Some(s[0].2)
        } else {
            None
        }
    } else {
        cached(s.drop_first(), key, now, ttl)
    }
}

/// The entries that are still fresh.
pub open spec fn keep_fresh(s: Seq<CacheEntryV>, now: u64, ttl: u64) -> Seq<CacheEntryV>
    decreases s.len(),
{
    if s.len() == 0 {
        Seq::empty()
    } else {
        keep_fresh(s.drop_last(), now, ttl) + if fresh(s.last().1, now, ttl) {
            seq![s.last()]
        } else {
            Seq::empty()
        }
    }
}

/// The entries without those for `key`.
pub open spec fn without_key(s: Seq<CacheEntryV>, key: Seq<char>) -> Seq<CacheEntryV>
    decreases s.len(),
{
    if s.len() == 0 {
        Seq::empty()
    } else {
        without_key(s.drop_last(), key) + if s.last().0 == key {
            Seq::empty()
        } else {
            seq![s.last()]
        }
    }
}

/// The cache after storing `page` under `key` at `now` with room for `max`
/// entries: when full, stale entries go first; an older entry for the key
/// goes; if it is still full, the oldest entry goes; the new entry comes
/// last.
pub open spec fn stored(s: Seq<CacheEntryV>, key: Seq<char>, page: Seq<char>, now: u64, ttl: u64, max: nat) -> Seq<
    CacheEntryV,
> {
    let s1 = if s.len() >= max {
        keep_fresh(s, now, ttl)
    } else {
        s
    };
    let s2 = without_key(s1, key);
    let s3 = if s2.len() >= max && s2.len() > 0 {
        s2.drop_first()
    } else {
        s2
    };
    s3.push((key, now, page))
}

proof fn lemma_keep_fresh_len(s: Seq<CacheEntryV>, now: u64, ttl: u64)
    ensures
        keep_fresh(s, now, ttl).len() <= s.len(),
    decreases s.len(),
{
    if s.len() > 0 {
        lemma_keep_fresh_len(s.drop_last(), now, ttl);
    }
}

proof fn lemma_without_key(s: Seq<CacheEntryV>, key: Seq<char>)
    ensures
        without_key(s, key).len() <= s.len(),
        forall|i: int| 0 <= i < without_key(s, key).len() ==> (#[trigger] without_key(s, key)[i]).0 != key,
    decreases s.len(),
{
    if s.len() > 0 {
        lemma_without_key(s.drop_last(), key);
    }
}

proof fn lemma_cached_last(s: Seq<CacheEntryV>, key: Seq<char>, page: Seq<char>, at: u64, now: u64, ttl: u64)
    requires
        forall|i: int| 0 <= i < s.len() ==> (#[trigger] s[i]).0 != key,
    ensures
        cached(s.push((key, at, page)), key, now, ttl) == if fresh(at, now, ttl) {
            Some(page)
        } else {
            None::<Seq<char>>
        },
    decreases s.len(),
{
    if s.len() > 0 {
        assert(s.push((key, at, page)).drop_first() =~= s.drop_first().push((key, at, page)));
        assert(s[0].0 != key);
        lemma_cached_last(s.drop_first(), key, page, at, now, ttl);
    }
}

impl ResponseCache {
    /// An empty cache.
    pub fn new() -> (r: ResponseCache)
        ensures
            r@ == Seq::<CacheEntryV>::empty(),
    {
        let r = ResponseCache { entries: Vec::new() };
        assert(r@ =~= Seq::<CacheEntryV>::empty());
        r
    }

    /// The number of cached pages.
    pub fn len(&self) -> (r: usize)
        ensures
            r == self@.len(),
    {
        self.entries.len()
    }
}

/// Whether an answer is kept in the cache: only the pages of successful
/// GET requests are.
pub fn cacheable(is_get: bool, status: StatusCode) -> (r: bool)
    ensures
        r == (is_get && status == StatusCode::Success),
{
    is_get && matches!(status, StatusCode::Success)
}

/// The page cached under `key` if it was stored less than `ttl` seconds
/// before `now`.
pub fn cache_lookup(cache: &ResponseCache, key: &str, now: u64, ttl: u64) -> (r: Option<String>)
    ensures
        match cached(cache@, key@, now, ttl) {
            Some(p) => r matches Some(x) && x@ == p,
            None => r is None,
        },
{
    let k = text::chars_of(key);
    let ghost s = cache@;
    let mut i: usize = 0;
    assert(s.skip(0) =~= s);
    while i < cache.entries.len()
        invariant
            i <= cache.entries@.len(),
            s == cache@,
            s.len() == cache.entries@.len(),
            k@ == key@,
            cached(s.skip(i as int), key@, now, ttl) == cached(s, key@, now, ttl),
        decreases cache.entries@.len() - i,
    {
        let e = &cache.entries[i];
        assert(s.skip(i as int)[0] == entry_view(*e));
        assert(s.skip(i as int).drop_first() =~= s.skip(i + 1));
        if text::chars_eq(text::chars_of(e.0.as_str()).as_slice(), k.as_slice()) {
            let a = if now >= e.1 { now - e.1 } else { 0 };
            if a < ttl {
                return Some(e.2.clone());
            } else {
                return None;
            }
        }
        i = i + 1;
    }
    None
}

/// Stores `page` under `key` at `now` (see `stored`), keeping at most
/// `cache_max_entries` pages; with room for none, nothing is kept.
pub fn cache_store(cache: &mut ResponseCache, key: String, page: String, now: u64, cfg: &HttpToJrgGatewayConfig)
    requires
        old(cache)@.len() <= cfg.cache_max_entries,
    ensures
        cfg.cache_max_entries == 0 ==> final(cache)@ == old(cache)@,
        cfg.cache_max_entries > 0 ==> final(cache)@ == stored(
            old(cache)@,
            key@,
            page@,
            now,
            cfg.cache_ttl_secs,
            cfg.cache_max_entries as nat,
        ),
        final(cache)@.len() <= cfg.cache_max_entries,
        cfg.cache_max_entries > 0 && cfg.cache_ttl_secs > 0 ==> cached(final(cache)@, key@, now, cfg.cache_ttl_secs)
            == Some(page@),
{
    let ttl = cfg.cache_ttl_secs;
    let max = cfg.cache_max_entries;
    if max == 0 {
        return;
    }
    let ghost s0 = cache@;
    let mut old_entries: Vec<(String, u64, String)> = Vec::new();
    std::mem::swap(&mut old_entries, &mut cache.entries);
    let ghost ov = old_entries@.map_values(|e: (String, u64, String)| entry_view(e));
    assert(ov == s0);
    let full = old_entries.len() >= max;
    let k = text::chars_of(key.as_str());
    // Keep the entries that survive: fresh ones when full, and none for the key.
    let mut kept: Vec<(String, u64, String)> = Vec::new();
    let ghost s1 = if s0.len() >= max {
        keep_fresh(s0, now, ttl)
    } else {
        s0
    };
    let mut i: usize = 0;
    while i < old_entries.len()
        invariant
            i <= old_entries@.len(),
            ov == old_entries@.map_values(|e: (String, u64, String)| entry_view(e)),
            full == (ov.len() >= max),
            k@ == key@,
            kept@.map_values(|e: (String, u64, String)| entry_view(e)) == without_key(
                if full {
                    keep_fresh(ov.take(i as int), now, ttl)
                } else {
                    ov.take(i as int)
                },
                key@,
            ),
        decreases old_entries@.len() - i,
    {
        let e = &old_entries[i];
        let ghost ev = entry_view(*e);
        assert(ov.take(i + 1).drop_last() =~= ov.take(i as int));
        assert(ov.take(i + 1).last() == ev);
        let a = if now >= e.1 { now - e.1 } else { 0 };
        let survives = !full || a < ttl;
        let ghost before = kept@.map_values(|e: (String, u64, String)| entry_view(e));
        let ghost pre = if full {
            keep_fresh(ov.take(i as int), now, ttl)
        } else {
            ov.take(i as int)
        };
        let ghost post = if full {
            keep_fresh(ov.take(i + 1), now, ttl)
        } else {
            ov.take(i + 1)
        };
        if survives {
            assert(post == pre.push(ev));
            assert(post.drop_last() =~= pre);
            if !text::chars_eq(text::chars_of(e.0.as_str()).as_slice(), k.as_slice()) {
                kept.push((e.0.clone(), e.1, e.2.clone()));
                assert(kept@.map_values(|e: (String, u64, String)| entry_view(e)) =~= before.push(ev));
            }
        } else {
            assert(post =~= pre);
        }
        i = i + 1;
    }
    assert(ov.take(ov.len() as int) =~= ov);
    proof {
        lemma_keep_fresh_len(s0, now, ttl);
        lemma_without_key(s1, key@);
    }
    let ghost s2 = without_key(s1, key@);
    if kept.len() >= max && kept.len() > 0 {
        kept.remove(0);
        assert(kept@.map_values(|e: (String, u64, String)| entry_view(e)) =~= s2.drop_first());
    }
    let ghost s3 = kept@.map_values(|e: (String, u64, String)| entry_view(e));
    assert(forall|j: int| 0 <= j < s3.len() ==> (#[trigger] s3[j]).0 != key@) by {
        assert forall|j: int| 0 <= j < s3.len() implies (#[trigger] s3[j]).0 != key@ by {
            if s2.len() >= max && s2.len() > 0 {
                assert(s3[j] == s2[j + 1]);
            } else {
                assert(s3[j] == s2[j]);
            }
        }
    }
    let ghost kv = key@;
    let ghost pv = page@;
    kept.push((key, now, page));
    cache.entries = kept;
    assert(cache@ =~= s3.push((kv, now, pv)));
    proof {
        if ttl > 0 {
            lemma_cached_last(s3, kv, pv, now, now, ttl);
        }
    }
}

} // verus!
