//! Virtual-host routing for the reverse proxy: a table from host name to
//! backend address, and reading the `Host:` header of a request head.

use vstd::prelude::*;
use vstd::utf8::*;
use crate::text;
use crate::text::{to_lowercase, unicode_lower};
use crate::utf8::text_of_bytes;
use crate::request_wire::{parse_usize, parse_usize_exec};

verus! {

broadcast use vstd::string::group_string_axioms;

/// `(k, v)` put into the pairs `s`: it replaces the first pair with key `k`,
/// or goes last.
pub open spec fn insert_pair(s: Seq<(Seq<char>, Seq<char>)>, k: Seq<char>, v: Seq<char>) -> Seq<
    (Seq<char>, Seq<char>),
>
    decreases s.len(),
{
    if s.len() == 0 {
        seq![(k, v)]
    } else if s[0].0 == k {
        seq![(k, v)] + s.drop_first()
    } else {
        seq![s[0]] + insert_pair(s.drop_first(), k, v)
    }
}

/// The value for `k` in the pairs `s`.
pub open spec fn lookup(s: Seq<(Seq<char>, Seq<char>)>, k: Seq<char>) -> Option<Seq<char>>
    decreases s.len(),
{
    if s.len() == 0 {
        None
    } else if s[0].0 == k {
        Some(s[0].1)
    } else {
        lookup(s.drop_first(), k)
    }
}

pub open spec fn distinct_keys(s: Seq<(Seq<char>, Seq<char>)>) -> bool {
    forall|i: int, j: int| 0 <= i < j < s.len() ==> s[i].0 != s[j].0
}

/// Host names and the backend addresses they are routed to.
pub struct RouteMap {
    pairs: Vec<(String, String)>,
}

pub open spec fn pairs_view(v: Seq<(String, String)>) -> Seq<(Seq<char>, Seq<char>)> {
    v.map_values(|p: (String, String)| (p.0@, p.1@))
}

impl View for RouteMap {
    type V = Seq<(Seq<char>, Seq<char>)>;

    closed spec fn view(&self) -> Seq<(Seq<char>, Seq<char>)> {
        pairs_view(self.pairs@)
    }
}

proof fn lemma_insert_at(s: Seq<(Seq<char>, Seq<char>)>, k: Seq<char>, v: Seq<char>, j: int)
    requires
        0 <= j <= s.len(),
        forall|i: int| 0 <= i < j ==> (#[trigger] s[i]).0 != k,
        j < s.len() ==> s[j].0 == k,
    ensures
        insert_pair(s, k, v) == if j < s.len() {
            s.update(j, (k, v))
        } else {
            s.push((k, v))
        },
    decreases j,
{
    if s.len() == 0 {
        assert(s.push((k, v)) =~= seq![(k, v)]);
    } else if j == 0 {
        assert(s.update(0, (k, v)) =~= seq![(k, v)] + s.drop_first());
    } else {
        assert(s[0].0 != k);
        lemma_insert_at(s.drop_first(), k, v, j - 1);
        if j < s.len() {
            assert(seq![s[0]] + s.drop_first().update(j - 1, (k, v)) =~= s.update(j, (k, v)));
        } else {
            assert(seq![s[0]] + s.drop_first().push((k, v)) =~= s.push((k, v)));
        }
    }
}

proof fn lemma_lookup_at(s: Seq<(Seq<char>, Seq<char>)>, k: Seq<char>, j: int)
    requires
        0 <= j <= s.len(),
        forall|i: int| 0 <= i < j ==> (#[trigger] s[i]).0 != k,
        j < s.len() ==> s[j].0 == k,
    ensures
        lookup(s, k) == if j < s.len() {
            Some(s[j].1)
        } else {
            None::<Seq<char>>
        },
    decreases j,
{
    if s.len() == 0 {
    } else if j == 0 {
    } else {
        lemma_lookup_at(s.drop_first(), k, j - 1);
    }
}

fn same_str(a: &String, b: &[char]) -> (r: bool)
    ensures
        r == (a@ == b@),
{
    let x = text::chars_of(a.as_str());
    text::chars_eq(x.as_slice(), b)
}

impl RouteMap {
    pub fn new() -> (r: RouteMap)
        ensures
            r@ == Seq::<(Seq<char>, Seq<char>)>::empty(),
    {
        let r = RouteMap { pairs: Vec::new() };
        assert(r@ =~= Seq::<(Seq<char>, Seq<char>)>::empty());
        r
    }

    fn position(&self, key: &[char]) -> (r: usize)
        ensures
            r <= self@.len(),
            forall|i: int| 0 <= i < r ==> (#[trigger] self@[i]).0 != key@,
            r < self@.len() ==> self@[r as int].0 == key@,
    {
        let mut i: usize = 0;
        while i < self.pairs.len() && !same_str(&self.pairs[i].0, key)
            invariant
                i <= self.pairs@.len(),
                self@ == pairs_view(self.pairs@),
                forall|j: int| 0 <= j < i ==> (#[trigger] self@[j]).0 != key@,
            decreases self.pairs@.len() - i,
        {
            i = i + 1;
        }
        i
    }

    /// Routes `host` to `addr`, replacing an earlier route for the host.
    pub fn insert(&mut self, host: String, addr: String)
        ensures
            final(self)@ == insert_pair(old(self)@, host@, addr@),
    {
        let key = text::chars_of(host.as_str());
        let j = self.position(key.as_slice());
        proof {
            lemma_insert_at(self@, host@, addr@, j as int);
        }
        let ghost before = self.pairs@;
        if j < self.pairs.len() {
            self.pairs.set(j, (host, addr));
        } else {
            self.pairs.push((host, addr));
        }
        assert(pairs_view(self.pairs@) =~= insert_pair(pairs_view(before), host@, addr@));
    }

    /// The backend for `host`.
    pub fn get(&self, host: &str) -> (r: Option<&String>)
        ensures
            r matches Some(v) ==> lookup(self@, host@) == Some(v@),
            r is None ==> lookup(self@, host@) is None,
    {
        let key = text::chars_of(host);
        let j = self.position(key.as_slice());
        proof {
            lemma_lookup_at(self@, host@, j as int);
        }
        if j < self.pairs.len() {
            Some(&self.pairs[j].1)
        } else {
            None
        }
    }

    pub fn contains_key(&self, host: &str) -> (r: bool)
        ensures
            r == lookup(self@, host@) is Some,
    {
        self.get(host).is_some()
    }

    /// The number of routes.
    pub fn len(&self) -> (r: usize)
        ensures
            r == self@.len(),
    {
        self.pairs.len()
    }
}

/// One `host=addr` route line: trimmed; blank lines and lines without `=`
/// give nothing; the host is lower-cased and both sides trimmed.
pub open spec fn route_of(raw: Seq<char>) -> Option<(Seq<char>, Seq<char>)> {
    let t = text::trim(raw);
    let k = text::char_from(t, '=', 0);
    if t.len() == 0 || k >= t.len() {
        None
    } else {
        Some((unicode_lower(text::trim(t.take(k))), text::trim(t.skip(k + 1))))
    }
}

/// The table built from route lines in order; a later route for a host
/// replaces an earlier one.
pub open spec fn routes_of(raws: Seq<Seq<char>>) -> Seq<(Seq<char>, Seq<char>)>
    decreases raws.len(),
{
    if raws.len() == 0 {
        Seq::empty()
    } else {
        let m = routes_of(raws.drop_last());
        match route_of(raws.last()) {
            Some((k, v)) => insert_pair(m, k, v),
            None => m,
        }
    }
}

pub fn parse_routes(routes: &[String]) -> (r: RouteMap)
    ensures
        r@ == routes_of(crate::document::strs(routes@)),
{
    let ghost rv = crate::document::strs(routes@);
    let mut map = RouteMap::new();
    let mut i: usize = 0;
    assert(rv.take(0) =~= Seq::<Seq<char>>::empty());
    while i < routes.len()
        invariant
            i <= routes@.len(),
            rv == crate::document::strs(routes@),
            map@ == routes_of(rv.take(i as int)),
        decreases routes@.len() - i,
    {
        assert(rv.take(i + 1).drop_last() =~= rv.take(i as int));
        assert(rv.take(i + 1).last() == routes@[i as int]@);
        let cs = text::chars_of(routes[i].as_str());
        let t = text::trimmed(cs.as_slice());
        proof {
            text::lemma_char_from(t@, '=', 0);
        }
        let k = text::find_char(t.as_slice(), '=', 0);
        if t.len() > 0 && k < t.len() {
            let host = text::slice_of(t.as_slice(), 0, k);
            assert(host@ =~= t@.take(k as int));
            let host_t = text::string_from(text::trimmed(host.as_slice()).as_slice());
            let addr = text::slice_of(t.as_slice(), k + 1, t.len());
            assert(addr@ =~= t@.skip(k + 1));
            let addr_t = text::string_from(text::trimmed(addr.as_slice()).as_slice());
            map.insert(to_lowercase(host_t.as_str()), addr_t);
        }
        i = i + 1;
    }
    assert(rv.take(routes@.len() as int) =~= rv);
    map
}

/// Every route table from `parse_routes` names each host once.
pub proof fn lemma_routes_distinct(raws: Seq<Seq<char>>)
    ensures
        distinct_keys(routes_of(raws)),
    decreases raws.len(),
{
    if raws.len() > 0 {
        lemma_routes_distinct(raws.drop_last());
        let m = routes_of(raws.drop_last());
        match route_of(raws.last()) {
            Some((k, v)) => lemma_insert_keeps_distinct(m, k, v),
            None => {},
        }
    }
}

proof fn lemma_insert_keeps_distinct(s: Seq<(Seq<char>, Seq<char>)>, k: Seq<char>, v: Seq<char>)
    requires
        distinct_keys(s),
    ensures
        distinct_keys(insert_pair(s, k, v)),
        forall|i: int| 0 <= i < insert_pair(s, k, v).len() ==> (#[trigger] insert_pair(s, k, v)[i]).0
            == k || exists|j: int| 0 <= j < s.len() && s[j].0 == insert_pair(s, k, v)[i].0,
    decreases s.len(),
{
    if s.len() == 0 {
    } else if s[0].0 == k {
        let r = seq![(k, v)] + s.drop_first();
        assert forall|i: int, j: int| 0 <= i < j < r.len() implies r[i].0 != r[j].0 by {
            if i == 0 {
                assert(s[0].0 != s[j].0);
            } else {
                assert(s[i].0 != s[j].0);
            }
        }
        assert forall|i: int| 0 <= i < r.len() implies (#[trigger] r[i]).0 == k || exists|j: int|
            0 <= j < s.len() && s[j].0 == r[i].0 by {
            if i > 0 {
                assert(s[i].0 == r[i].0);
            }
        }
    } else {
        let t = s.drop_first();
        assert(distinct_keys(t)) by {
            assert forall|i: int, j: int| 0 <= i < j < t.len() implies t[i].0 != t[j].0 by {
                assert(s[i + 1].0 != s[j + 1].0);
            }
        }
        lemma_insert_keeps_distinct(t, k, v);
        let it = insert_pair(t, k, v);
        let r = seq![s[0]] + it;
        assert forall|i: int, j: int| 0 <= i < j < r.len() implies r[i].0 != r[j].0 by {
            if i == 0 {
                let x = it[j - 1];
                if x.0 == k {
                } else {
                    let w = choose|w: int| 0 <= w < t.len() && t[w].0 == x.0;
                    assert(s[w + 1].0 == x.0);
                    assert(s[0].0 != s[w + 1].0);
                }
            } else {
                assert(it[i - 1].0 != it[j - 1].0);
            }
        }
        assert forall|i: int| 0 <= i < r.len() implies (#[trigger] r[i]).0 == k || exists|j: int|
            0 <= j < s.len() && s[j].0 == r[i].0 by {
            if i == 0 {
                assert(s[0].0 == r[0].0);
            } else {
                let x = it[i - 1];
                if x.0 != k {
                    let w = choose|w: int| 0 <= w < t.len() && t[w].0 == x.0;
                    assert(s[w + 1].0 == r[i].0);
                }
            }
        }
    }
}

/// Whether `s` is one or more ASCII digits.
pub open spec fn all_digits(s: Seq<char>) -> bool {
    s.len() > 0 && forall|i: int| 0 <= i < s.len() ==> '0' <= #[trigger] s[i] <= '9'
}

/// A host value without its `:port`: for a bracketed IPv6 host, a `:` and
/// digits right after the `]`; otherwise a last `:` followed by digits
/// only. Anything else is kept whole.
pub open spec fn without_port(v: Seq<char>) -> Seq<char> {
    if v.len() > 0 && v[0] == '[' {
        let cb = text::char_from(v, ']', 0);
        if cb + 1 < v.len() && v[cb + 1] == ':' && all_digits(v.skip(cb + 2)) {
            v.take(cb + 1)
        } else {
            v
        }
    } else {
        let p = last_colon(v, v.len() as int);
        if p >= 0 && all_digits(v.skip(p + 1)) {
            v.take(p)
        } else {
            v
        }
    }
}

/// The `Host:` value of a header block: the lines up to the first empty
/// line are searched for a key that is `host` ignoring ASCII case; its
/// value, trimmed, without a `:port` (see `without_port`).
pub open spec fn host_in(ls: Seq<Seq<char>>) -> Option<Seq<char>>
    decreases ls.len(),
{
    if ls.len() == 0 || ls[0].len() == 0 {
        None
    } else {
        let l = ls[0];
        let k = text::char_from(l, ':', 0);
        if k < l.len() && text::eq_ic(text::trim(l.take(k)), "host"@) {
            Some(without_port(text::trim(l.skip(k + 1))))
        } else {
            host_in(ls.drop_first())
        }
    }
}

/// The last `:` in `v` before `hi`, or -1.
pub open spec fn last_colon(v: Seq<char>, hi: int) -> int
    decreases hi,
{
    if hi <= 0 {
        -1
    } else if v[hi - 1] == ':' {
        hi - 1
    } else {
        last_colon(v, hi - 1)
    }
}

proof fn lemma_last_colon(v: Seq<char>, hi: int)
    requires
        0 <= hi <= v.len(),
    ensures
        -1 <= last_colon(v, hi) < hi,
    decreases hi,
{
    if hi > 0 && v[hi - 1] != ':' {
        lemma_last_colon(v, hi - 1);
    }
}

/// The host a request head names, without its port; `None` for a head
/// that is not UTF-8 or has no `Host:` line before the first empty line.
pub open spec fn spec_extract_host(head: Seq<u8>) -> Option<Seq<char>> {
    if valid_utf8(head) {
        host_in(text::lines(decode_utf8(head)))
    } else {
        None
    }
}

pub fn extract_host(head: &[u8]) -> (r: Option<String>)
    ensures
        match spec_extract_host(head@) {
            Some(h) => r matches Some(s) && s@ == h,
            None => r is None,
        },
{
    let t = match text_of_bytes(head) {
        Some(t) => t,
        None => {
            return None;
        },
    };
    let cs = text::chars_of(t.as_str());
    let ls = text::lines_of(cs.as_slice());
    let ghost all = text::views(ls@);
    let key = ['h', 'o', 's', 't'];
    assert(key@ == "host"@) by {
        reveal_strlit("host");
    }
    let mut i: usize = 0;
    assert(all.skip(0) =~= all);
    assert(spec_extract_host(head@) == host_in(all));
    while i < ls.len()
        invariant
            i <= ls@.len(),
            all == text::views(ls@),
            spec_extract_host(head@) == host_in(all),
            key@ == "host"@,
            host_in(all) == host_in(all.skip(i as int)),
        decreases ls@.len() - i,
    {
        let ghost rest = all.skip(i as int);
        assert(rest[0] == ls@[i as int]@);
        assert(rest.drop_first() =~= all.skip(i + 1));
        let l = &ls[i];
        if l.len() == 0 {
            return None;
        }
        proof {
            text::lemma_char_from(l@, ':', 0);
        }
        let k = text::find_char(l.as_slice(), ':', 0);
        if k < l.len() {
            let name = text::slice_of(l.as_slice(), 0, k);
            assert(name@ =~= l@.take(k as int));
            let nt = text::trimmed(name.as_slice());
            if text::chars_eq_ic(nt.as_slice(), key.as_slice()) {
                let val = text::slice_of(l.as_slice(), k + 1, l.len());
                assert(val@ =~= l@.skip(k + 1));
                let v = text::trimmed(val.as_slice());
                let h = strip_port_exec(v.as_slice());
                return Some(text::string_from(h.as_slice()));
            }
        }
        i = i + 1;
    }
    assert(all.skip(ls@.len() as int) =~= Seq::<Seq<char>>::empty());
    None
}

fn digits_exec(s: &[char], from: usize) -> (r: bool)
    requires
        from <= s@.len(),
    ensures
        r == all_digits(s@.skip(from as int)),
{
    if from >= s.len() {
        return false;
    }
    let mut i = from;
    while i < s.len()
        invariant
            from <= i <= s@.len(),
            forall|j: int| from <= j < i ==> '0' <= #[trigger] s@[j] <= '9',
        decreases s@.len() - i,
    {
        if s[i] < '0' || s[i] > '9' {
            assert(s@.skip(from as int)[i - from] == s@[i as int]);
            return false;
        }
        i = i + 1;
    }
    assert forall|j: int| 0 <= j < s@.skip(from as int).len() implies '0' <= #[trigger] s@.skip(from as int)[j] <= '9' by {
        assert(s@.skip(from as int)[j] == s@[from + j]);
    }
    true
}

fn strip_port_exec(v: &[char]) -> (r: Vec<char>)
    ensures
        r@ == without_port(v@),
{
    if v.len() > 0 && v[0] == '[' {
        proof {
            text::lemma_char_from(v@, ']', 0);
        }
        let cb = text::find_char(v, ']', 0);
        if cb < v.len() && cb + 1 < v.len() && v[cb + 1] == ':' && digits_exec(v, cb + 2) {
            let h = text::slice_of(v, 0, cb + 1);
            assert(h@ =~= v@.take(cb + 1));
            return h;
        }
        return text::copy_chars(v);
    }
    let mut p = v.len();
    while p > 0 && v[p - 1] != ':'
        invariant
            p <= v@.len(),
            last_colon(v@, p as int) == last_colon(v@, v@.len() as int),
        decreases p,
    {
        p = p - 1;
    }
    proof {
        lemma_last_colon(v@, v@.len() as int);
    }
    if p > 0 && digits_exec(v, p) {
        let h = text::slice_of(v, 0, p - 1);
        assert(h@ =~= v@.take(p - 1));
        h
    } else {
        text::copy_chars(v)
    }
}

// ----- Deciding what to do with a connection -----

/// The `Content-Length:` of a header block: the first line before an empty
/// one whose key is `content-length` ignoring ASCII case gives it, where
/// its trimmed value reads as a `usize`.
pub open spec fn length_in(ls: Seq<Seq<char>>) -> Option<nat>
    decreases ls.len(),
{
    if ls.len() == 0 || ls[0].len() == 0 {
        None
    } else {
        let l = ls[0];
        let k = text::char_from(l, ':', 0);
        if k < l.len() && text::eq_ic(text::trim(l.take(k)), "content-length"@) {
            parse_usize(text::trim(l.skip(k + 1)))
        } else {
            length_in(ls.drop_first())
        }
    }
}

/// The length a request head claims for its body; `None` for a head that
/// is not UTF-8 or claims none.
pub open spec fn spec_content_length(head: Seq<u8>) -> Option<nat> {
    if valid_utf8(head) {
        length_in(text::lines(decode_utf8(head)))
    } else {
        None
    }
}

proof fn lemma_length_fits(ls: Seq<Seq<char>>)
    ensures
        length_in(ls) matches Some(n) ==> n <= usize::MAX,
    decreases ls.len(),
{
    if ls.len() > 0 && ls[0].len() > 0 {
        lemma_length_fits(ls.drop_first());
    }
}

pub fn parse_content_length(head: &[u8]) -> (r: Option<usize>)
    ensures
        match spec_content_length(head@) {
            Some(n) => r == Some(n as usize) && n <= usize::MAX,
            None => r is None,
        },
{
    proof {
        if valid_utf8(head@) {
            lemma_length_fits(text::lines(decode_utf8(head@)));
        }
    }
    let t = match text_of_bytes(head) {
        Some(t) => t,
        None => {
            return None;
        },
    };
    let cs = text::chars_of(t.as_str());
    let ls = text::lines_of(cs.as_slice());
    let ghost all = text::views(ls@);
    let key = text::chars_of("content-length");
    let mut i: usize = 0;
    assert(all.skip(0) =~= all);
    while i < ls.len()
        invariant
            i <= ls@.len(),
            all == text::views(ls@),
            spec_content_length(head@) == length_in(all),
            key@ == "content-length"@,
            length_in(all) == length_in(all.skip(i as int)),
        decreases ls@.len() - i,
    {
        let ghost rest = all.skip(i as int);
        assert(rest[0] == ls@[i as int]@);
        assert(rest.drop_first() =~= all.skip(i + 1));
        let l = &ls[i];
        if l.len() == 0 {
            return None;
        }
        proof {
            text::lemma_char_from(l@, ':', 0);
        }
        let k = text::find_char(l.as_slice(), ':', 0);
        if k < l.len() {
            let name = text::slice_of(l.as_slice(), 0, k);
            assert(name@ =~= l@.take(k as int));
            let nt = text::trimmed(name.as_slice());
            if text::chars_eq_ic(nt.as_slice(), key.as_slice()) {
                let val = text::slice_of(l.as_slice(), k + 1, l.len());
                assert(val@ =~= l@.skip(k + 1));
                let v = text::trimmed(val.as_slice());
                return parse_usize_exec(v.as_slice());
            }
        }
        i = i + 1;
    }
    assert(all.skip(ls@.len() as int) =~= Seq::<Seq<char>>::empty());
    None
}

/// What the proxy does with a request it has read.
#[derive(Debug, PartialEq, Eq)]
pub enum ProxyDecision {
    /// Answer the client with an error and close.
    Reject { status: u16, reason: String, message: String },
    /// Pass the request to this backend address.
    Forward { backend: String },
}

pub ghost enum ProxyDecisionV {
    Reject { status: u16, reason: Seq<char>, message: Seq<char> },
    Forward { backend: Seq<char> },
}

impl View for ProxyDecision {
    type V = ProxyDecisionV;

    open spec fn view(&self) -> ProxyDecisionV {
        match self {
            ProxyDecision::Reject { status, reason, message } => ProxyDecisionV::Reject {
                status: *status,
                reason: reason@,
                message: message@,
            },
            ProxyDecision::Forward { backend } => ProxyDecisionV::Forward { backend: backend@ },
        }
    }
}

/// The host a request is routed by: its `Host:` without the port, in lower
/// case, or empty text when there is none.
pub open spec fn route_host(head: Seq<u8>) -> Seq<char> {
    match spec_extract_host(head) {
        Some(h) => unicode_lower(h),
        None => Seq::empty(),
    }
}

/// What becomes of a request: a head over the size limit is refused with
/// 413; a host that no route names goes to the default backend where
/// unknown hosts are allowed, and is refused with 503 otherwise; a body
/// shorter than the head claims is refused with 400; else the request is
/// forwarded.
pub open spec fn spec_route(
    head: Seq<u8>,
    body_len: nat,
    head_limit_hit: bool,
    routes: Seq<(Seq<char>, Seq<char>)>,
    allow_unknown: bool,
    default: Seq<char>,
) -> ProxyDecisionV {
    if head_limit_hit {
        ProxyDecisionV::Reject {
            status: 413,
            reason: "Payload Too Large"@,
            message: "request head exceeds size limit"@,
        }
    } else {
        let backend = match lookup(routes, route_host(head)) {
            Some(b) => Some(b),
            None => if allow_unknown {
                Some(default)
            } else {
                None
            },
        };
        match backend {
            None => ProxyDecisionV::Reject {
                status: 503,
                reason: "Service Unavailable"@,
                message: "service not available"@,
            },
            Some(b) => match spec_content_length(head) {
                Some(n) => if body_len < n {
                    ProxyDecisionV::Reject {
                        status: 400,
                        reason: "Bad Request"@,
                        message: "incomplete request body"@,
                    }
                } else {
                    ProxyDecisionV::Forward { backend: b }
                },
                None => ProxyDecisionV::Forward { backend: b },
            },
        }
    }
}

fn reject(status: u16, reason: &str, message: &str) -> (r: ProxyDecision)
    ensures
        r@ == (ProxyDecisionV::Reject { status, reason: reason@, message: message@ }),
{
    ProxyDecision::Reject { status, reason: String::from_str(reason), message: String::from_str(message) }
}

/// Decides what becomes of a request, given its head, how many body bytes
/// arrived, and whether the head went over the size limit; see
/// `spec_route`.
pub fn route_request(
    head: &[u8],
    body_len: usize,
    head_limit_hit: bool,
    routes: &RouteMap,
    allow_unknown: bool,
    default: &str,
) -> (r: ProxyDecision)
    ensures
        r@ == spec_route(head@, body_len as nat, head_limit_hit, routes@, allow_unknown, default@),
{
    if head_limit_hit {
        return reject(413, "Payload Too Large", "request head exceeds size limit");
    }
    let host = match extract_host(head) {
        Some(h) => to_lowercase(h.as_str()),
        None => String::new(),
    };
    let backend = match routes.get(host.as_str()) {
        Some(b) => String::from_str(b.as_str()),
        None => {
            if allow_unknown {
                String::from_str(default)
            } else {
                return reject(503, "Service Unavailable", "service not available");
            }
        },
    };
    match parse_content_length(head) {
        Some(n) => {
            if body_len < n {
                return reject(400, "Bad Request", "incomplete request body");
            }
        },
        None => {},
    }
    ProxyDecision::Forward { backend }
}

/// What the client is answered when the chosen backend cannot be reached.
pub fn backend_unreachable() -> (r: ProxyDecision)
    ensures
        r@ == (ProxyDecisionV::Reject { status: 502, reason: "Bad Gateway"@, message: "service unavailable"@ }),
{
    reject(502, "Bad Gateway", "service unavailable")
}

/// The plain-text HTTP answer the proxy gives for an error.
pub open spec fn error_response_text(status: u16, reason: Seq<char>, body: Seq<char>) -> Seq<char> {
    "HTTP/1.1 "@ + text::decimal(status as nat) + seq![' '] + reason
        + "\r\nContent-Type: text/plain; charset=utf-8\r\nContent-Length: "@ + text::decimal(encode_utf8(body).len())
        + "\r\nConnection: close\r\n\r\n"@ + body
}

pub fn error_response(status: u16, reason: &str, body: &str) -> (r: String)
    ensures
        r@ == error_response_text(status, reason@, body@),
{
    let mut out = text::chars_of("HTTP/1.1 ");
    text::push_decimal(&mut out, status as usize);
    out.push(' ');
    text::push_str(&mut out, reason);
    text::push_str(&mut out, "\r\nContent-Type: text/plain; charset=utf-8\r\nContent-Length: ");
    text::push_decimal(&mut out, body.as_bytes().len());
    text::push_str(&mut out, "\r\nConnection: close\r\n\r\n");
    text::push_str(&mut out, body);
    proof {
        assert(out@ =~= error_response_text(status, reason@, body@));
    }
    text::string_from(out.as_slice())
}

/// How many body bytes to read for a head: what it claims, or none, but
/// never more than four times the head size limit.
pub fn body_limit(head: &[u8], max_head: usize) -> (r: usize)
    requires
        max_head <= usize::MAX / 4,
    ensures
        r == ({
            let claimed = match spec_content_length(head@) {
                Some(n) => n,
                None => 0,
            };
            if claimed < 4 * max_head {
                claimed
            } else {
                4 * max_head as nat
            }
        }),
{
    let claimed = match parse_content_length(head) {
        Some(n) => n,
        None => 0,
    };
    if claimed < 4 * max_head {
        claimed
    } else {
        4 * max_head
    }
}

} // verus!
