//! Searching an index: a query is cut into lower-case alphanumeric tokens;
//! an entry matches when some field holds every token, and scores by the
//! weights of the fields that do.

use vstd::prelude::*;
use crate::text;
use crate::search::{self, SearchEntry, SearchEntryV, SearchIndex, SearchLinkV, SearchResult};

verus! {

broadcast use vstd::string::group_string_axioms;

/// What `char::is_alphanumeric` answers for `c` (Unicode `Alphabetic` or
/// `Numeric`).
pub uninterp spec fn is_alphanumeric(c: char) -> bool;

/// std's `char::is_alphanumeric`. Its result is named here; the Unicode
/// tables it consults are not restated. Of an ASCII character it answers
/// whether it is a letter or a digit, which is stated.
#[verifier::external_body]
fn char_is_alphanumeric(c: char) -> (r: bool)
    ensures
        r == is_alphanumeric(c),
        (c as u32) < 128 ==> r == ascii_alphanumeric(c),
{
    c.is_alphanumeric()
}

/// An ASCII letter or digit.
pub open spec fn ascii_alphanumeric(c: char) -> bool {
    ('0' <= c && c <= '9') || ('a' <= c && c <= 'z') || ('A' <= c && c <= 'Z')
}

/// Whether `c` belongs in a token: of an ASCII character, whether it is a
/// letter or a digit; beyond ASCII, what `char::is_alphanumeric` answers.
pub open spec fn word_char(c: char) -> bool {
    if (c as u32) < 128 {
        ascii_alphanumeric(c)
    } else {
        is_alphanumeric(c)
    }
}

/// The finished tokens and the token being read, after the characters of `s`.
pub open spec fn tok_state(s: Seq<char>) -> (Seq<Seq<char>>, Seq<char>)
    decreases s.len(),
{
    if s.len() == 0 {
        (Seq::empty(), Seq::empty())
    } else {
        let (done, cur) = tok_state(s.drop_last());
        let c = s.last();
        if word_char(c) {
            (done, cur.push(text::ascii_lower(c)))
        } else if cur.len() > 0 {
            (done.push(cur), Seq::empty())
        } else {
            (done, cur)
        }
    }
}

/// The query cut at every non-alphanumeric character, empty pieces
/// dropped, each piece in ASCII lower case.
pub open spec fn query_tokens(q: Seq<char>) -> Seq<Seq<char>> {
    let (done, cur) = tok_state(q);
    if cur.len() > 0 {
        done.push(cur)
    } else {
        done
    }
}

proof fn lemma_no_word_chars(q: Seq<char>)
    requires
        forall|i: int| 0 <= i < q.len() ==> !word_char(#[trigger] q[i]),
    ensures
        tok_state(q) == (Seq::<Seq<char>>::empty(), Seq::<char>::empty()),
    decreases q.len(),
{
    if q.len() > 0 {
        lemma_no_word_chars(q.drop_last());
    }
}

/// A query of ASCII characters none of which is a letter or a digit has
/// no tokens, and so finds nothing in any index.
pub proof fn lemma_punctuation_query_finds_nothing(es: Seq<SearchEntryV>, q: Seq<char>)
    requires
        forall|i: int| 0 <= i < q.len() ==> (q[i] as u32) < 128 && !ascii_alphanumeric(#[trigger] q[i]),
    ensures
        query_tokens(q).len() == 0,
        search_spec(es, q) == Seq::<SearchResultV>::empty(),
{
    assert forall|i: int| 0 <= i < q.len() implies !word_char(#[trigger] q[i]) by {
        assert((q[i] as u32) < 128);
    }
    lemma_no_word_chars(q);
}

fn query_tokens_exec(q: &str) -> (r: Vec<Vec<char>>)
    ensures
        text::views(r@) == query_tokens(q@),
{
    let cs = text::chars_of(q);
    let mut done: Vec<Vec<char>> = Vec::new();
    let mut cur: Vec<char> = Vec::new();
    let mut i: usize = 0;
    assert(cs@.take(0) =~= Seq::<char>::empty());
    while i < cs.len()
        invariant
            i <= cs@.len(),
            tok_state(cs@.take(i as int)) == (text::views(done@), cur@),
        decreases cs@.len() - i,
    {
        let c = cs[i];
        assert(cs@.take(i + 1).drop_last() =~= cs@.take(i as int));
        if char_is_alphanumeric(c) {
            cur.push(text::char_lower(c));
        } else if cur.len() > 0 {
            let ghost before = done@;
            let ghost prev = cur@;
            done.push(cur);
            cur = Vec::new();
            assert(text::views(done@) =~= text::views(before).push(prev));
            assert(cur@ =~= Seq::<char>::empty());
        }
        i = i + 1;
    }
    assert(cs@.take(cs@.len() as int) =~= cs@);
    if cur.len() > 0 {
        let ghost before = done@;
        let ghost prev = cur@;
        done.push(cur);
        assert(text::views(done@) =~= text::views(before).push(prev));
    }
    done
}

pub open spec fn dot_space() -> Seq<char> {
    seq!['.', ' ']
}

pub open spec fn keep(p: Seq<char>) -> Seq<Seq<char>> {
    if p.len() > 0 {
        seq![p]
    } else {
        Seq::empty()
    }
}

/// The sentences of `l` from `start` on: cut after each `". "`, trimmed,
/// empty ones dropped.
pub open spec fn snippets_from(l: Seq<char>, start: nat) -> Seq<Seq<char>>
    decreases l.len() + 2 - start,
{
    if start > l.len() {
        Seq::empty()
    } else {
        match text::find_from(l, dot_space(), start as int) {
            Some(k) => if start <= k && k + 2 <= l.len() {
                keep(text::trim(l.subrange(start as int, k + 1))) + snippets_from(l, (k + 2) as nat)
            } else {
                Seq::empty()
            },
            None => keep(text::trim(l.skip(start as int))),
        }
    }
}

fn snippets_exec(l: &[char]) -> (r: Vec<Vec<char>>)
    ensures
        text::views(r@) == snippets_from(l@, 0),
{
    let ds = ['.', ' '];
    assert(ds@ == dot_space());
    let mut out: Vec<Vec<char>> = Vec::new();
    let mut start: usize = 0;
    assert(snippets_from(l@, 0) == text::views(out@) + snippets_from(l@, 0));
    loop
        invariant
            start <= l@.len(),
            l@.len() == l.len(),
            ds@ == dot_space(),
            snippets_from(l@, 0) == text::views(out@) + snippets_from(l@, start as nat),
        decreases l@.len() - start,
    {
        proof {
            text::lemma_find_from_bounds(l@, dot_space(), start as int);
        }
        match text::find_sub(l, ds.as_slice(), start) {
            Some(k) => {
                let piece = text::slice_of(l, start, k + 1);
                let t = text::trimmed(piece.as_slice());
                let ghost before = text::views(out@);
                if t.len() > 0 {
                    out.push(t);
                }
                assert(text::views(out@) =~= before + keep(text::trim(l@.subrange(start as int, k + 1))));
                assert(snippets_from(l@, start as nat) == keep(text::trim(l@.subrange(start as int, k + 1)))
                    + snippets_from(l@, (k + 2) as nat));
                assert(before + keep(text::trim(l@.subrange(start as int, k + 1))) + snippets_from(
                    l@,
                    (k + 2) as nat,
                ) =~= before + (keep(text::trim(l@.subrange(start as int, k + 1))) + snippets_from(
                    l@,
                    (k + 2) as nat,
                )));
                start = k + 2;
            },
            None => {
                let piece = text::slice_of(l, start, l.len());
                assert(piece@ =~= l@.skip(start as int));
                let t = text::trimmed(piece.as_slice());
                let ghost before = text::views(out@);
                if t.len() > 0 {
                    out.push(t);
                }
                assert(text::views(out@) =~= before + keep(text::trim(l@.skip(start as int))));
                return out;
            },
        }
    }
}

/// A field that can match, with its weight.
pub open spec fn weighted(fs: Seq<Seq<char>>, w: nat) -> Seq<(Seq<char>, nat)> {
    fs.map_values(|f: Seq<char>| (f, w))
}

/// The sentences of every line of a multi-line field.
pub open spec fn sentences(f: Seq<char>) -> Seq<Seq<char>> {
    text::lines(f).map_values(|l: Seq<char>| snippets_from(l, 0)).flatten()
}

pub open spec fn link_fields(ls: Seq<SearchLinkV>) -> Seq<(Seq<char>, nat)> {
    ls.map_values(|l: SearchLinkV| seq![(l.label, 3nat), (l.target, 3nat)]).flatten()
}

pub open spec fn meta_fields(m: Option<Seq<char>>) -> Seq<(Seq<char>, nat)> {
    match m {
        Some(t) => weighted(sentences(t), 1),
        None => Seq::empty(),
    }
}

/// The fields of an entry in the order they are scored: the title
/// (weight 10), each heading (5), each link's label and target (3 each),
/// then each sentence of the metadata and of the body (1).
pub open spec fn scored_fields(e: SearchEntryV) -> Seq<(Seq<char>, nat)> {
    seq![(e.title, 10nat)] + weighted(e.headings, 5) + link_fields(e.links) + meta_fields(e.metadata)
        + weighted(sentences(e.body), 1)
}

/// A field matches when its ASCII-lower-cased text contains every token.
pub open spec fn field_matches(f: Seq<char>, toks: Seq<Seq<char>>) -> bool {
    forall|k: int| 0 <= k < toks.len() ==> (#[trigger] text::find(text::lower(f), toks[k])) is Some
}

/// The sum of `tokens × weight` over the matching fields.
pub open spec fn total(fs: Seq<(Seq<char>, nat)>, toks: Seq<Seq<char>>) -> nat
    decreases fs.len(),
{
    if fs.len() == 0 {
        0
    } else {
        total(fs.drop_last(), toks) + if field_matches(fs.last().0, toks) {
            toks.len() * fs.last().1
        } else {
            0
        }
    }
}

/// The first matching field.
pub open spec fn first_match(fs: Seq<(Seq<char>, nat)>, toks: Seq<Seq<char>>) -> Option<Seq<char>>
    decreases fs.len(),
{
    if fs.len() == 0 {
        None
    } else if field_matches(fs[0].0, toks) {
        Some(fs[0].0)
    } else {
        first_match(fs.drop_first(), toks)
    }
}

pub ghost struct SearchResultV {
    pub entry: SearchEntryV,
    pub score: nat,
    pub snippet: Seq<char>,
}

impl<'a> View for SearchResult<'a> {
    type V = SearchResultV;

    open spec fn view(&self) -> SearchResultV {
        SearchResultV { entry: self.entry@, score: self.score as nat, snippet: self.snippet@ }
    }
}

pub open spec fn capped(n: nat) -> nat {
    if n <= usize::MAX {
        n
    } else {
        usize::MAX as nat
    }
}

/// How an entry fares against the tokens: no result when nothing matches;
/// otherwise its score (capped at `usize::MAX`) and the first matching
/// field as the snippet.
pub open spec fn candidate(e: SearchEntryV, toks: Seq<Seq<char>>) -> Option<SearchResultV> {
    let fs = scored_fields(e);
    let t = total(fs, toks);
    if t > 0 {
        Some(
            SearchResultV {
                entry: e,
                score: capped(t),
                snippet: match first_match(fs, toks) {
                    Some(s) => s,
                    None => e.title,
                },
            },
        )
    } else {
        None
    }
}

pub open spec fn candidates(es: Seq<SearchEntryV>, toks: Seq<Seq<char>>) -> Seq<SearchResultV>
    decreases es.len(),
{
    if es.len() == 0 {
        Seq::empty()
    } else {
        let c = candidates(es.drop_last(), toks);
        match candidate(es.last(), toks) {
            Some(r) => c.push(r),
            None => c,
        }
    }
}

/// `a` comes strictly before `b` in code-point order.
pub open spec fn seq_lt(a: Seq<char>, b: Seq<char>) -> bool
    decreases a.len(),
{
    if a.len() == 0 {
        b.len() > 0
    } else if b.len() == 0 {
        false
    } else if a[0] != b[0] {
        a[0] < b[0]
    } else {
        seq_lt(a.drop_first(), b.drop_first())
    }
}

/// Result `a` ranks strictly ahead of `b`: higher score, then title, then url.
pub open spec fn ranks_before(a: SearchResultV, b: SearchResultV) -> bool {
    ||| a.score > b.score
    ||| (a.score == b.score && seq_lt(a.entry.title, b.entry.title))
    ||| (a.score == b.score && a.entry.title == b.entry.title && seq_lt(a.entry.url, b.entry.url))
}

/// `x` placed in `s` before the first result it ranks ahead of.
pub open spec fn insert_ranked(s: Seq<SearchResultV>, x: SearchResultV) -> Seq<SearchResultV>
    decreases s.len(),
{
    if s.len() == 0 {
        seq![x]
    } else if ranks_before(x, s[0]) {
        seq![x] + s
    } else {
        seq![s[0]] + insert_ranked(s.drop_first(), x)
    }
}

/// The results in rank order; equal ranks keep their order.
pub open spec fn rank(c: Seq<SearchResultV>) -> Seq<SearchResultV>
    decreases c.len(),
{
    if c.len() == 0 {
        Seq::empty()
    } else {
        insert_ranked(rank(c.drop_last()), c.last())
    }
}

/// What a query finds in a list of entries.
pub open spec fn search_spec(es: Seq<SearchEntryV>, q: Seq<char>) -> Seq<SearchResultV> {
    let toks = query_tokens(q);
    if toks.len() == 0 {
        Seq::empty()
    } else {
        rank(candidates(es, toks))
    }
}

proof fn lemma_seq_lt_asym(a: Seq<char>, b: Seq<char>)
    ensures
        !(seq_lt(a, b) && seq_lt(b, a)),
        !seq_lt(a, a),
    decreases a.len(),
{
    if a.len() > 0 && b.len() > 0 && a[0] == b[0] {
        lemma_seq_lt_asym(a.drop_first(), b.drop_first());
    }
    if a.len() > 0 {
        lemma_seq_lt_asym(a.drop_first(), a.drop_first());
    }
}

proof fn lemma_seq_lt_trans(a: Seq<char>, b: Seq<char>, c: Seq<char>)
    requires
        seq_lt(a, b),
        seq_lt(b, c),
    ensures
        seq_lt(a, c),
    decreases a.len(),
{
    if a.len() > 0 && a[0] == b[0] && b[0] == c[0] {
        lemma_seq_lt_trans(a.drop_first(), b.drop_first(), c.drop_first());
    }
}

proof fn lemma_ranks_before_order(a: SearchResultV, b: SearchResultV, c: SearchResultV)
    ensures
        !(ranks_before(a, b) && ranks_before(b, a)),
        ranks_before(a, b) && ranks_before(b, c) ==> ranks_before(a, c),
{
    lemma_seq_lt_asym(a.entry.title, b.entry.title);
    lemma_seq_lt_asym(a.entry.url, b.entry.url);
    lemma_seq_lt_asym(a.entry.title, a.entry.title);
    lemma_seq_lt_asym(a.entry.url, a.entry.url);
    if ranks_before(a, b) && ranks_before(b, c) {
        if seq_lt(a.entry.title, b.entry.title) && seq_lt(b.entry.title, c.entry.title) {
            lemma_seq_lt_trans(a.entry.title, b.entry.title, c.entry.title);
        }
        if seq_lt(a.entry.url, b.entry.url) && seq_lt(b.entry.url, c.entry.url) {
            lemma_seq_lt_trans(a.entry.url, b.entry.url, c.entry.url);
        }
    }
}

/// No result ranks strictly ahead of one that comes before it.
pub open spec fn in_rank_order(s: Seq<SearchResultV>) -> bool {
    forall|i: int, j: int| 0 <= i < j < s.len() ==> !ranks_before(#[trigger] s[j], #[trigger] s[i])
}

proof fn lemma_insert_ranked_from(s: Seq<SearchResultV>, x: SearchResultV, p: spec_fn(SearchResultV) -> bool)
    requires
        p(x),
        forall|k: int| 0 <= k < s.len() ==> p(#[trigger] s[k]),
    ensures
        forall|k: int| 0 <= k < insert_ranked(s, x).len() ==> p(#[trigger] insert_ranked(s, x)[k]),
    decreases s.len(),
{
    if s.len() > 0 && !ranks_before(x, s[0]) {
        lemma_insert_ranked_from(s.drop_first(), x, p);
        let r = insert_ranked(s.drop_first(), x);
        assert forall|k: int| 0 <= k < insert_ranked(s, x).len() implies p(#[trigger] insert_ranked(s, x)[k]) by {
            if k > 0 {
                assert(insert_ranked(s, x)[k] == r[k - 1]);
            }
        }
    }
}

proof fn lemma_insert_keeps_order(s: Seq<SearchResultV>, x: SearchResultV)
    requires
        in_rank_order(s),
    ensures
        in_rank_order(insert_ranked(s, x)),
    decreases s.len(),
{
    if s.len() == 0 {
    } else if ranks_before(x, s[0]) {
        let r = seq![x] + s;
        assert forall|i: int, j: int| 0 <= i < j < r.len() implies !ranks_before(#[trigger] r[j], #[trigger] r[i]) by {
            if i == 0 {
                lemma_ranks_before_order(r[j], x, s[0]);
                if j > 1 {
                    assert(!ranks_before(s[j - 1], s[0]));
                }
            } else {
                assert(r[i] == s[i - 1] && r[j] == s[j - 1]);
            }
        }
    } else {
        let t = s.drop_first();
        lemma_insert_keeps_order(t, x);
        let first = s[0];
        let p = |y: SearchResultV| !ranks_before(y, first);
        assert forall|k: int| 0 <= k < t.len() implies p(#[trigger] t[k]) by {
            assert(t[k] == s[k + 1]);
        }
        lemma_insert_ranked_from(t, x, p);
        let r = insert_ranked(t, x);
        let full = insert_ranked(s, x);
        assert(full == seq![first] + r);
        assert forall|i: int, j: int| 0 <= i < j < full.len() implies !ranks_before(#[trigger] full[j], #[trigger] full[i]) by {
            assert(full[j] == r[j - 1]);
            if i == 0 {
                assert(p(r[j - 1]));
            } else {
                assert(full[i] == r[i - 1]);
            }
        }
    }
}

proof fn lemma_rank_in_order(c: Seq<SearchResultV>)
    ensures
        in_rank_order(rank(c)),
    decreases c.len(),
{
    if c.len() > 0 {
        lemma_rank_in_order(c.drop_last());
        lemma_insert_keeps_order(rank(c.drop_last()), c.last());
    }
}

/// Search results come best first: no result ranks strictly ahead of one
/// listed before it (by score, then title, then URL).
pub proof fn lemma_search_results_in_rank_order(es: Seq<SearchEntryV>, q: Seq<char>)
    ensures
        in_rank_order(search_spec(es, q)),
{
    if query_tokens(q).len() > 0 {
        lemma_rank_in_order(candidates(es, query_tokens(q)));
    }
}

pub open spec fn fviews(v: Seq<(Vec<char>, usize)>) -> Seq<(Seq<char>, nat)> {
    v.map_values(|p: (Vec<char>, usize)| (p.0@, p.1 as nat))
}

fn push_weighted(out: &mut Vec<(Vec<char>, usize)>, items: Vec<Vec<char>>, w: usize)
    ensures
        fviews(final(out)@) == fviews(old(out)@) + weighted(text::views(items@), w as nat),
{
    let ghost start = fviews(out@);
    let ghost all = weighted(text::views(items@), w as nat);
    let mut items = items;
    let mut i: usize = 0;
    let n = items.len();
    let ghost orig = items@;
    assert(all.take(0) =~= Seq::<(Seq<char>, nat)>::empty());
    while i < n
        invariant
            i <= n,
            n == orig.len(),
            all == weighted(text::views(orig), w as nat),
            items@.len() == n,
            forall|k: int| i <= k < n ==> #[trigger] items@[k] == orig[k],
            fviews(out@) == start + all.take(i as int),
        decreases n - i,
    {
        let mut x: Vec<char> = Vec::new();
        std::mem::swap(&mut x, &mut items[i]);
        assert(x@ == orig[i as int]@);
        let ghost before = fviews(out@);
        out.push((x, w));
        assert(fviews(out@) =~= before.push((orig[i as int]@, w as nat)));
        assert(all.take(i + 1) =~= all.take(i as int).push(all[i as int]));
        i = i + 1;
    }
    assert(all.take(n as int) =~= all);
}

fn sentences_exec(f: &str) -> (r: Vec<Vec<char>>)
    ensures
        text::views(r@) == sentences(f@),
{
    let cs = text::chars_of(f);
    let ls = text::lines_of(cs.as_slice());
    let ghost m = text::lines(f@).map_values(|l: Seq<char>| snippets_from(l, 0));
    let mut out: Vec<Vec<char>> = Vec::new();
    let mut i: usize = 0;
    assert(m.take(0) =~= Seq::<Seq<Seq<char>>>::empty());
    assert(text::views(out@) =~= m.take(0).flatten());
    while i < ls.len()
        invariant
            i <= ls@.len(),
            text::views(ls@) == text::lines(f@),
            m == text::lines(f@).map_values(|l: Seq<char>| snippets_from(l, 0)),
            text::views(out@) == m.take(i as int).flatten(),
        decreases ls@.len() - i,
    {
        let mut sn = snippets_exec(ls[i].as_slice());
        let ghost before = text::views(out@);
        let ghost got = text::views(sn@);
        out.append(&mut sn);
        proof {
            assert(text::views(out@) =~= before + got);
            assert(m[i as int] == got);
            assert(m.take(i + 1) =~= m.take(i as int).push(m[i as int]));
            m.take(i as int).lemma_flatten_push(m[i as int]);
        }
        i = i + 1;
    }
    assert(m.take(ls@.len() as int) =~= m);
    out
}

fn fields_exec(e: &SearchEntry) -> (r: Vec<(Vec<char>, usize)>)
    ensures
        fviews(r@) == scored_fields(e@),
{
    let mut out: Vec<(Vec<char>, usize)> = Vec::new();
    out.push((text::chars_of(e.title.as_str()), 10));
    assert(fviews(out@) =~= seq![(e@.title, 10nat)]);
    let mut hs: Vec<Vec<char>> = Vec::new();
    let mut i: usize = 0;
    while i < e.headings.len()
        invariant
            i <= e.headings@.len(),
            text::views(hs@) == crate::document::strs(e.headings@).take(i as int),
        decreases e.headings@.len() - i,
    {
        let ghost before = hs@;
        let x = text::chars_of(e.headings[i].as_str());
        hs.push(x);
        assert(text::views(hs@) =~= text::views(before).push(x@));
        assert(crate::document::strs(e.headings@).take(i + 1) =~= crate::document::strs(
            e.headings@,
        ).take(i as int).push(e.headings@[i as int]@));
        i = i + 1;
    }
    assert(crate::document::strs(e.headings@).take(e.headings@.len() as int) =~= e@.headings);
    push_weighted(&mut out, hs, 5);
    let ghost a = fviews(out@);
    let ghost lm = e@.links.map_values(
        |l: SearchLinkV| seq![(l.label, 3nat), (l.target, 3nat)],
    );
    let mut j: usize = 0;
    assert(lm.take(0) =~= Seq::<Seq<(Seq<char>, nat)>>::empty());
    assert(fviews(out@) =~= a + lm.take(0).flatten());
    while j < e.links.len()
        invariant
            j <= e.links@.len(),
            e@.links.len() == e.links@.len(),
            lm == e@.links.map_values(|l: SearchLinkV| seq![(l.label, 3nat), (l.target, 3nat)]),
            fviews(out@) == a + lm.take(j as int).flatten(),
        decreases e.links@.len() - j,
    {
        let ghost before = fviews(out@);
        out.push((text::chars_of(e.links[j].label.as_str()), 3));
        out.push((text::chars_of(e.links[j].target.as_str()), 3));
        proof {
            assert(e@.links[j as int] == e.links@[j as int]@);
            assert(fviews(out@) =~= before + lm[j as int]);
            assert(lm.take(j + 1) =~= lm.take(j as int).push(lm[j as int]));
            lm.take(j as int).lemma_flatten_push(lm[j as int]);
        }
        j = j + 1;
    }
    assert(lm.take(e.links@.len() as int) =~= lm);
    match &e.metadata {
        Some(m) => {
            let sn = sentences_exec(m.as_str());
            push_weighted(&mut out, sn, 1);
        },
        None => {},
    }
    let ghost b = fviews(out@);
    assert(b =~= a + link_fields(e@.links) + meta_fields(e@.metadata));
    let sb = sentences_exec(e.body.as_str());
    push_weighted(&mut out, sb, 1);
    out
}

fn field_matches_exec(f: &[char], toks: &Vec<Vec<char>>) -> (r: bool)
    ensures
        r == field_matches(f@, text::views(toks@)),
{
    let h = text::lower_vec(f);
    let mut k: usize = 0;
    while k < toks.len()
        invariant
            k <= toks@.len(),
            h@ == text::lower(f@),
            forall|j: int| 0 <= j < k ==> (#[trigger] text::find(text::lower(f@), text::views(toks@)[j])) is Some,
        decreases toks@.len() - k,
    {
        let found = text::find_sub(h.as_slice(), toks[k].as_slice(), 0);
        assert(text::views(toks@)[k as int] == toks@[k as int]@);
        if found.is_none() {
            assert(text::find(text::lower(f@), text::views(toks@)[k as int]) is None);
            return false;
        }
        k = k + 1;
    }
    true
}

fn sat_add(a: usize, b: usize) -> (r: usize)
    ensures
        r == capped((a + b) as nat),
{
    if a <= usize::MAX - b {
        a + b
    } else {
        usize::MAX
    }
}

fn sat_mul(a: usize, w: usize) -> (r: usize)
    requires
        0 < w,
    ensures
        r == capped((a * w) as nat),
{
    if a <= usize::MAX / w {
        assert(a * w <= usize::MAX) by (nonlinear_arith)
            requires
                a <= usize::MAX / w,
                0 < w,
        ;
        a * w
    } else {
        assert(a * w > usize::MAX) by (nonlinear_arith)
            requires
                a > usize::MAX / w,
                0 < w,
        ;
        usize::MAX
    }
}

proof fn lemma_capped_add(a: nat, b: nat)
    ensures
        capped(capped(a) + b) == capped(a + b),
        capped(a + capped(b)) == capped(a + b),
{
}

fn score_entry<'a>(e: &'a SearchEntry, toks: &Vec<Vec<char>>) -> (r: Option<SearchResult<'a>>)
    requires
        toks@.len() > 0,
    ensures
        r matches Some(x) ==> candidate(e@, text::views(toks@)) == Some(x@) && x.entry == e,
        r is None ==> candidate(e@, text::views(toks@)) is None,
{
    let fs = fields_exec(e);
    let ghost tv = text::views(toks@);
    let ghost all = fviews(fs@);
    let mut score: usize = 0;
    let mut snippet: Option<Vec<char>> = None;
    let mut i: usize = 0;
    assert(all.take(0) =~= Seq::<(Seq<char>, nat)>::empty());
    assert(all.skip(0) =~= all);
    while i < fs.len()
        invariant
            i <= fs@.len(),
            all == fviews(fs@),
            all == scored_fields(e@),
            tv == text::views(toks@),
            score == capped(total(all.take(i as int), tv)),
            first_match(all, tv) == match snippet {
                Some(s) => Some(s@),
                None => first_match(all.skip(i as int), tv),
            },
        decreases fs@.len() - i,
    {
        let m = field_matches_exec(fs[i].0.as_slice(), toks);
        assert(all[i as int] == (fs@[i as int].0@, fs@[i as int].1 as nat));
        assert(all.take(i + 1).drop_last() =~= all.take(i as int));
        assert(all.skip(i as int).drop_first() =~= all.skip(i + 1));
        if m {
            let add = if fs[i].1 == 0 {
                0
            } else {
                sat_mul(toks.len(), fs[i].1)
            };
            proof {
                lemma_capped_add(total(all.take(i as int), tv), (toks@.len() * fs@[i as int].1) as nat);
                lemma_capped_add(capped(total(all.take(i as int), tv)), (toks@.len() * fs@[i as int].1) as nat);
            }
            score = sat_add(score, add);
            if snippet.is_none() {
                snippet = Some(text::copy_chars(fs[i].0.as_slice()));
            }
        }
        i = i + 1;
    }
    assert(all.take(fs@.len() as int) =~= all);
    assert(all.skip(fs@.len() as int) =~= Seq::<(Seq<char>, nat)>::empty());
    if score == 0 {
        return None;
    }
    let snip = match snippet {
        Some(s) => text::string_from(s.as_slice()),
        None => e.title.clone(),
    };
    Some(SearchResult { entry: e, score, snippet: snip })
}

pub(crate) fn chars_lt(a: &[char], b: &[char]) -> (r: bool)
    ensures
        r == seq_lt(a@, b@),
{
    let mut i: usize = 0;
    assert(a@.skip(0) =~= a@);
    assert(b@.skip(0) =~= b@);
    while i < a.len() && i < b.len() && a[i] == b[i]
        invariant
            i <= a@.len(),
            i <= b@.len(),
            seq_lt(a@, b@) == seq_lt(a@.skip(i as int), b@.skip(i as int)),
        decreases a@.len() - i,
    {
        assert(a@.skip(i as int).drop_first() =~= a@.skip(i + 1));
        assert(b@.skip(i as int).drop_first() =~= b@.skip(i + 1));
        i = i + 1;
    }
    if i == a.len() {
        i < b.len()
    } else if i == b.len() {
        false
    } else {
        assert(a@.skip(i as int)[0] == a@[i as int]);
        assert(b@.skip(i as int)[0] == b@[i as int]);
        a[i] < b[i]
    }
}

fn ranks_before_exec(x: &SearchResult, y: &SearchResult) -> (r: bool)
    ensures
        r == ranks_before(x@, y@),
{
    if x.score > y.score {
        return true;
    }
    if x.score < y.score {
        return false;
    }
    let xt = text::chars_of(x.entry.title.as_str());
    let yt = text::chars_of(y.entry.title.as_str());
    if chars_lt(xt.as_slice(), yt.as_slice()) {
        return true;
    }
    if !text::chars_eq(xt.as_slice(), yt.as_slice()) {
        return false;
    }
    let xu = text::chars_of(x.entry.url.as_str());
    let yu = text::chars_of(y.entry.url.as_str());
    chars_lt(xu.as_slice(), yu.as_slice())
}

pub proof fn lemma_insert_ranked(s: Seq<SearchResultV>, x: SearchResultV, j: int)
    requires
        0 <= j <= s.len(),
        forall|k: int| 0 <= k < j ==> !ranks_before(x, #[trigger] s[k]),
        j < s.len() ==> ranks_before(x, s[j]),
    ensures
        insert_ranked(s, x) == s.insert(j, x),
    decreases j,
{
    if s.len() == 0 {
        assert(s.insert(j, x) =~= seq![x]);
    } else if j == 0 {
        assert(s.insert(0, x) =~= seq![x] + s);
    } else {
        assert(!ranks_before(x, s[0]));
        lemma_insert_ranked(s.drop_first(), x, j - 1);
        assert(seq![s[0]] + s.drop_first().insert(j - 1, x) =~= s.insert(j, x));
    }
}

pub open spec fn results_view<'a>(v: Seq<SearchResult<'a>>) -> Seq<SearchResultV> {
    v.map_values(|r: SearchResult<'a>| r@)
}

impl SearchIndex {
    /// The entries that hold every token of `query` in some field, best
    /// first; see `search_spec`. A query without tokens finds nothing.
    pub fn search(&self, query: &str) -> (r: Vec<SearchResult<'_>>)
        ensures
            results_view(r@) == search_spec(self@, query@),
    {
        let toks = query_tokens_exec(query);
        if toks.len() == 0 {
            let v: Vec<SearchResult> = Vec::new();
            assert(results_view(v@) =~= Seq::<SearchResultV>::empty());
            return v;
        }
        let ghost tv = text::views(toks@);
        let es = self.entries();
        let ghost ev = search::entries_view(es@);
        let mut res: Vec<SearchResult> = Vec::new();
        let mut i: usize = 0;
        assert(ev.take(0) =~= Seq::<SearchEntryV>::empty());
        assert(results_view(res@) =~= Seq::<SearchResultV>::empty());
        while i < es.len()
            invariant
                i <= es@.len(),
                ev == search::entries_view(es@),
                ev == self@,
                tv == text::views(toks@),
                tv == query_tokens(query@),
                toks@.len() > 0,
                results_view(res@) == rank(candidates(ev.take(i as int), tv)),
            decreases es@.len() - i,
        {
            assert(ev.take(i + 1).drop_last() =~= ev.take(i as int));
            assert(ev.take(i + 1).last() == es@[i as int]@);
            match score_entry(&es[i], &toks) {
                Some(x) => {
                    let ghost cur = results_view(res@);
                    let mut j: usize = 0;
                    while j < res.len() && !ranks_before_exec(&x, &res[j])
                        invariant
                            j <= res@.len(),
                            cur == results_view(res@),
                            forall|k: int| 0 <= k < j ==> !ranks_before(x@, #[trigger] cur[k]),
                        decreases res@.len() - j,
                    {
                        j = j + 1;
                    }
                    proof {
                        lemma_insert_ranked(cur, x@, j as int);
                        let c = candidates(ev.take(i as int), tv);
                        assert(candidates(ev.take(i + 1), tv) == c.push(x@));
                        assert(c.push(x@).drop_last() =~= c);
                    }
                    res.insert(j, x);
                    assert(results_view(res@) =~= cur.insert(j as int, x@));
                },
                None => {},
            }
            i = i + 1;
        }
        assert(ev.take(es@.len() as int) =~= ev);
        res
    }
}

} // verus!
