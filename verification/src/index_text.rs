//! The `JRG-SEARCH/0.1` text format of a search index: a header line, then
//! one line per entry with six tab-separated fields. Inside a field,
//! backslash, line feed, tab and the two list separators are escaped.

use vstd::prelude::*;
use crate::text;
use crate::search::{self, SearchEntry, SearchEntryV, SearchIndex, SearchLink, SearchLinkV};

verus! {

broadcast use vstd::string::group_string_axioms;

/// The separator between the items of a list field.
pub open spec fn unit_sep() -> char {
    '\u{1f}'
}

/// The separator between a link's target and its label.
pub open spec fn record_sep() -> char {
    '\u{1e}'
}

pub open spec fn header() -> Seq<char> {
    seq!['J', 'R', 'G', '-', 'S', 'E', 'A', 'R', 'C', 'H', '/', '0', '.', '1']
}

/// How one character is written inside a field.
pub open spec fn escape_char(c: char) -> Seq<char> {
    if c == '\\' {
        seq!['\\', '\\']
    } else if c == '\n' {
        seq!['\\', 'n']
    } else if c == '\t' {
        seq!['\\', 't']
    } else if c == '\u{1f}' {
        seq!['\\', 'u', '0', '0', '1', 'f']
    } else if c == '\u{1e}' {
        seq!['\\', 'u', '0', '0', '1', 'e']
    } else {
        seq![c]
    }
}

/// A field as it is written: each character escaped in turn.
pub open spec fn escape(s: Seq<char>) -> Seq<char> {
    s.map_values(|c: char| escape_char(c)).flatten()
}

/// `o` put in front of a successful result; an error passes through.
pub open spec fn lift<T>(o: Seq<T>, r: Result<Seq<T>, Seq<char>>) -> Result<Seq<T>, Seq<char>> {
    match r {
        Ok(t) => Ok(o + t),
        Err(e) => Err(e),
    }
}

pub proof fn lemma_lift_assoc<T>(a: Seq<T>, b: Seq<T>, r: Result<Seq<T>, Seq<char>>)
    ensures
        lift(a, lift(b, r)) == lift(a + b, r),
{
    match r {
        Ok(t) => {
            assert(a + (b + t) =~= (a + b) + t);
        },
        Err(e) => {},
    }
}

/// Reading a field back; the first bad escape is an error.
pub open spec fn unescape(s: Seq<char>) -> Result<Seq<char>, Seq<char>>
    decreases s.len(),
{
    if s.len() == 0 {
        Ok(Seq::empty())
    } else if s[0] != '\\' {
        lift(seq![s[0]], unescape(s.drop_first()))
    } else if s.len() == 1 {
        Err("trailing escape in search index field"@)
    } else if s[1] == 'n' {
        lift(seq!['\n'], unescape(s.skip(2)))
    } else if s[1] == 't' {
        lift(seq!['\t'], unescape(s.skip(2)))
    } else if s[1] == '\\' {
        lift(seq!['\\'], unescape(s.skip(2)))
    } else if s[1] == 'u' {
        if s.len() >= 6 && s.subrange(2, 6) == seq!['0', '0', '1', 'f'] {
            lift(seq!['\u{1f}'], unescape(s.skip(6)))
        } else if s.len() >= 6 && s.subrange(2, 6) == seq!['0', '0', '1', 'e'] {
            lift(seq!['\u{1e}'], unescape(s.skip(6)))
        } else {
            Err("unsupported escape: \\u"@ + (if s.len() >= 6 {
                s.subrange(2, 6)
            } else {
                s.skip(2)
            }))
        }
    } else {
        Err("unsupported escape: \\"@ + seq![s[1]])
    }
}

pub proof fn lemma_escape_cons(s: Seq<char>)
    requires
        s.len() > 0,
    ensures
        escape(s) == escape_char(s[0]) + escape(s.drop_first()),
{
    let m = s.map_values(|c: char| escape_char(c));
    assert(m.drop_first() =~= s.drop_first().map_values(|c: char| escape_char(c)));
}

pub proof fn lemma_unescape_char(c: char, e: Seq<char>)
    ensures
        unescape(escape_char(c) + e) == lift(seq![c], unescape(e)),
{
    let s = escape_char(c) + e;
    if c == '\\' || c == '\n' || c == '\t' {
        assert(s[0] == '\\');
        assert(s[1] == escape_char(c)[1]);
        assert(s.skip(2) =~= e);
    } else if c == '\u{1f}' {
        assert(s[0] == '\\' && s[1] == 'u' && s.len() >= 6);
        assert(s.subrange(2, 6) =~= seq!['0', '0', '1', 'f']);
        assert(s.skip(6) =~= e);
    } else if c == '\u{1e}' {
        assert(s[0] == '\\' && s[1] == 'u' && s.len() >= 6);
        assert(s.subrange(2, 6) =~= seq!['0', '0', '1', 'e']);
        assert(s.subrange(2, 6)[3] != 'f');
        assert(s.skip(6) =~= e);
    } else {
        assert(s[0] == c);
        assert(s.drop_first() =~= e);
    }
}

/// Reading back a written field gives the field: escaping loses nothing.
pub proof fn lemma_unescape_escape(s: Seq<char>)
    ensures
        unescape(escape(s)) == Ok::<Seq<char>, Seq<char>>(s),
    decreases s.len(),
{
    if s.len() == 0 {
        assert(escape(s) =~= Seq::<char>::empty());
        assert(s =~= Seq::<char>::empty());
    } else {
        lemma_escape_cons(s);
        lemma_unescape_char(s[0], escape(s.drop_first()));
        lemma_unescape_escape(s.drop_first());
        assert(unescape(escape(s)) == lift(seq![s[0]], Ok::<Seq<char>, Seq<char>>(s.drop_first())));
        assert(seq![s[0]] + s.drop_first() =~= s);
    }
}

/// Every piece read back, in order; the first error wins.
pub open spec fn unescape_all(ps: Seq<Seq<char>>) -> Result<Seq<Seq<char>>, Seq<char>>
    decreases ps.len(),
{
    if ps.len() == 0 {
        Ok(Seq::empty())
    } else {
        match unescape(ps[0]) {
            Err(e) => Err(e),
            Ok(x) => lift(seq![x], unescape_all(ps.drop_first())),
        }
    }
}

pub open spec fn bad_link(n: nat) -> Seq<char> {
    "bad link field at line "@ + text::decimal(n)
}

pub open spec fn bad_fields(n: nat) -> Seq<char> {
    "bad search index entry at line "@ + text::decimal(n) + ": expected 6 fields"@
}

/// One `target<RS>label` item of a link field, on line `n`.
pub open spec fn link_piece(p: Seq<char>, n: nat) -> Result<SearchLinkV, Seq<char>> {
    let k = text::char_from(p, record_sep(), 0);
    if k == p.len() {
        Err(bad_link(n))
    } else {
        match unescape(p.take(k)) {
            Err(e) => Err(e),
            Ok(t) => match unescape(p.skip(k + 1)) {
                Err(e) => Err(e),
                Ok(l) => Ok(SearchLinkV { target: t, label: l }),
            },
        }
    }
}

pub open spec fn link_pieces(ps: Seq<Seq<char>>, n: nat) -> Result<Seq<SearchLinkV>, Seq<char>>
    decreases ps.len(),
{
    if ps.len() == 0 {
        Ok(Seq::empty())
    } else {
        match link_piece(ps[0], n) {
            Err(e) => Err(e),
            Ok(x) => lift(seq![x], link_pieces(ps.drop_first(), n)),
        }
    }
}

/// The headings field: empty, or items separated by `US`.
pub open spec fn list_field(f: Seq<char>) -> Result<Seq<Seq<char>>, Seq<char>> {
    if f.len() == 0 {
        Ok(Seq::empty())
    } else {
        unescape_all(text::split_on(f, unit_sep()))
    }
}

/// The links field: empty, or items separated by `US`.
pub open spec fn links_field(f: Seq<char>, n: nat) -> Result<Seq<SearchLinkV>, Seq<char>> {
    if f.len() == 0 {
        Ok(Seq::empty())
    } else {
        link_pieces(text::split_on(f, unit_sep()), n)
    }
}

/// The metadata field: empty means no metadata.
pub open spec fn meta_field(f: Seq<char>) -> Result<Option<Seq<char>>, Seq<char>> {
    if f.len() == 0 {
        Ok(None)
    } else {
        match unescape(f) {
            Ok(m) => Ok(Some(m)),
            Err(e) => Err(e),
        }
    }
}

/// An entry line (line `n` of the file); a blank line holds no entry.
/// The fields are read in this order: headings, links, url, title,
/// metadata, body.
pub open spec fn entry_line(l: Seq<char>, n: nat) -> Result<Option<SearchEntryV>, Seq<char>> {
    if text::trim(l).len() == 0 {
        Ok(None)
    } else {
        let fs = text::split_on(l, '\t');
        if fs.len() != 6 {
            Err(bad_fields(n))
        } else {
            match list_field(fs[2]) {
                Err(e) => Err(e),
                Ok(hs) => match links_field(fs[3], n) {
                    Err(e) => Err(e),
                    Ok(ls) => match unescape(fs[0]) {
                        Err(e) => Err(e),
                        Ok(url) => match unescape(fs[1]) {
                            Err(e) => Err(e),
                            Ok(title) => match meta_field(fs[4]) {
                                Err(e) => Err(e),
                                Ok(m) => match unescape(fs[5]) {
                                    Err(e) => Err(e),
                                    Ok(body) => Ok(
                                        Some(
                                            SearchEntryV {
                                                url,
                                                title,
                                                headings: hs,
                                                links: ls,
                                                metadata: m,
                                                body,
                                            },
                                        ),
                                    ),
                                },
                            },
                        },
                    },
                },
            }
        }
    }
}

pub open spec fn opt_seq<T>(o: Option<T>) -> Seq<T> {
    match o {
        Some(x) => seq![x],
        None => Seq::empty(),
    }
}

/// The entries of the lines `ls`, the first of which is line `n`.
pub open spec fn entry_lines(ls: Seq<Seq<char>>, n: nat) -> Result<Seq<SearchEntryV>, Seq<char>>
    decreases ls.len(),
{
    if ls.len() == 0 {
        Ok(Seq::empty())
    } else {
        match entry_line(ls[0], n) {
            Err(e) => Err(e),
            Ok(o) => lift(opt_seq(o), entry_lines(ls.drop_first(), n + 1)),
        }
    }
}

/// What a file in the index format holds, or why it cannot be read.
pub open spec fn parse_index(s: Seq<char>) -> Result<Seq<SearchEntryV>, Seq<char>> {
    let ls = text::lines(s);
    if ls.len() == 0 {
        Err("empty search index"@)
    } else if ls[0] != header() {
        Err("unsupported search index header: "@ + ls[0])
    } else {
        entry_lines(ls.drop_first(), 2)
    }
}

pub open spec fn escaped_all(hs: Seq<Seq<char>>) -> Seq<Seq<char>> {
    hs.map_values(|h: Seq<char>| escape(h))
}

pub open spec fn headings_text(hs: Seq<Seq<char>>) -> Seq<char> {
    text::join(escaped_all(hs), seq![unit_sep()])
}

pub open spec fn link_item_text(l: SearchLinkV) -> Seq<char> {
    escape(l.target) + seq![record_sep()] + escape(l.label)
}

pub open spec fn link_items(ls: Seq<SearchLinkV>) -> Seq<Seq<char>> {
    ls.map_values(|l: SearchLinkV| link_item_text(l))
}

pub open spec fn links_text(ls: Seq<SearchLinkV>) -> Seq<char> {
    text::join(link_items(ls), seq![unit_sep()])
}

pub open spec fn meta_text(m: Option<Seq<char>>) -> Seq<char> {
    match m {
        Some(t) => escape(t),
        None => Seq::empty(),
    }
}

pub open spec fn entry_fields(e: SearchEntryV) -> Seq<Seq<char>> {
    seq![
        escape(e.url),
        escape(e.title),
        headings_text(e.headings),
        links_text(e.links),
        meta_text(e.metadata),
        escape(e.body),
    ]
}

/// The line that holds an entry, with its line feed.
pub open spec fn entry_text(e: SearchEntryV) -> Seq<char> {
    text::join(entry_fields(e), seq!['\t']) + seq!['\n']
}

/// The whole file for a list of entries.
pub open spec fn index_text(es: Seq<SearchEntryV>) -> Seq<char> {
    header() + seq!['\n'] + es.map_values(|e: SearchEntryV| entry_text(e)).flatten()
}

fn escape_field(s: &[char]) -> (r: Vec<char>)
    ensures
        r@ == escape(s@),
{
    let mut out: Vec<char> = Vec::new();
    let mut i: usize = 0;
    let ghost m = s@.map_values(|c: char| escape_char(c));
    assert(m.take(0) =~= Seq::<Seq<char>>::empty());
    while i < s.len()
        invariant
            i <= s@.len(),
            m == s@.map_values(|c: char| escape_char(c)),
            out@ == m.take(i as int).flatten(),
        decreases s@.len() - i,
    {
        let c = s[i];
        let ghost before = out@;
        if c == '\\' {
            out.push('\\');
            out.push('\\');
        } else if c == '\n' {
            out.push('\\');
            out.push('n');
        } else if c == '\t' {
            out.push('\\');
            out.push('t');
        } else if c == '\u{1f}' {
            let e = ['\\', 'u', '0', '0', '1', 'f'];
            text::push_chars(&mut out, e.as_slice());
        } else if c == '\u{1e}' {
            let e = ['\\', 'u', '0', '0', '1', 'e'];
            text::push_chars(&mut out, e.as_slice());
        } else {
            out.push(c);
        }
        proof {
            assert(out@ =~= before + escape_char(c));
            assert(m.take(i + 1) =~= m.take(i as int).push(m[i as int]));
            m.take(i as int).lemma_flatten_push(m[i as int]);
        }
        i = i + 1;
    }
    assert(m.take(s@.len() as int) =~= m);
    out
}

fn err_with(msg: &str, tail: &[char]) -> (r: Vec<char>)
    ensures
        r@ == msg@ + tail@,
{
    let mut v = text::chars_of(msg);
    text::push_chars(&mut v, tail);
    v
}

fn unescape_field(s: &[char]) -> (r: Result<Vec<char>, Vec<char>>)
    ensures
        r matches Ok(v) ==> unescape(s@) == Ok::<Seq<char>, Seq<char>>(v@),
        r matches Err(e) ==> unescape(s@) == Err::<Seq<char>, Seq<char>>(e@),
{
    let mut out: Vec<char> = Vec::new();
    let mut i: usize = 0;
    assert(s@.skip(0) =~= s@);
    assert(unescape(s@) == lift(out@, unescape(s@.skip(0))));
    while i < s.len()
        invariant
            i <= s@.len(),
            s@.len() == s.len(),
            unescape(s@) == lift(out@, unescape(s@.skip(i as int))),
        decreases s@.len() - i,
    {
        let ghost rest = s@.skip(i as int);
        let ghost before = out@;
        let c = s[i];
        assert(rest[0] == c);
        if c != '\\' {
            out.push(c);
            assert(rest.drop_first() =~= s@.skip(i + 1));
            assert(unescape(rest) == lift(seq![c], unescape(s@.skip(i + 1))));
            proof { lemma_lift_assoc(before, seq![c], unescape(s@.skip(i + 1))); }
            assert(out@ =~= before + seq![c]);
            i = i + 1;
        } else if i + 1 == s.len() {
            return Err(text::chars_of("trailing escape in search index field"));
        } else {
            let d = s[i + 1];
            assert(rest[1] == d);
            if d == 'n' || d == 't' || d == '\\' {
                let x = if d == 'n' {
                    '\n'
                } else if d == 't' {
                    '\t'
                } else {
                    '\\'
                };
                out.push(x);
                assert(rest.skip(2) =~= s@.skip(i + 2));
                assert(unescape(rest) == lift(seq![x], unescape(s@.skip(i + 2))));
                proof { lemma_lift_assoc(before, seq![x], unescape(s@.skip(i + 2))); }
                assert(out@ =~= before + seq![x]);
                i = i + 2;
            } else if d == 'u' {
                if s.len() - i >= 6 && s[i + 2] == '0' && s[i + 3] == '0' && s[i + 4] == '1' && (
                s[i + 5] == 'f' || s[i + 5] == 'e') {
                    let x = if s[i + 5] == 'f' {
                        assert(rest.subrange(2, 6) =~= seq!['0', '0', '1', 'f']);
                        '\u{1f}'
                    } else {
                        assert(rest.subrange(2, 6) =~= seq!['0', '0', '1', 'e']);
                        assert(rest.subrange(2, 6) != seq!['0', '0', '1', 'f']);
                        '\u{1e}'
                    };
                    out.push(x);
                    assert(rest.skip(6) =~= s@.skip(i + 6));
                    assert(unescape(rest) == lift(seq![x], unescape(s@.skip(i + 6))));
                    proof { lemma_lift_assoc(before, seq![x], unescape(s@.skip(i + 6))); }
                    assert(out@ =~= before + seq![x]);
                    i = i + 6;
                } else {
                    let hi = if s.len() - i >= 6 {
                        i + 6
                    } else {
                        s.len()
                    };
                    let code = text::slice_of(s, i + 2, hi);
                    proof {
                        if s.len() - i >= 6 {
                            assert(code@ =~= rest.subrange(2, 6));
                            if rest.subrange(2, 6) == seq!['0', '0', '1', 'f'] {
                                assert(rest.subrange(2, 6)[3] == s@[i + 5]);
                            }
                            if rest.subrange(2, 6) == seq!['0', '0', '1', 'e'] {
                                assert(rest.subrange(2, 6)[3] == s@[i + 5]);
                            }
                        } else {
                            assert(code@ =~= rest.skip(2));
                        }
                    }
                    return Err(err_with("unsupported escape: \\u", code.as_slice()));
                }
            } else {
                let one = [d];
                assert(one@ == seq![d]);
                return Err(err_with("unsupported escape: \\", one.as_slice()));
            }
        }
    }
    assert(s@.skip(s@.len() as int) =~= Seq::<char>::empty());
    Ok(out)
}

fn escape_string(s: &String) -> (r: Vec<char>)
    ensures
        r@ == escape(s@),
{
    let cs = text::chars_of(s.as_str());
    escape_field(cs.as_slice())
}

fn entry_text_exec(e: &SearchEntry) -> (r: Vec<char>)
    ensures
        r@ == entry_text(e@),
{
    let us = ['\u{1f}'];
    assert(us@ == seq![unit_sep()]);
    let mut hs: Vec<Vec<char>> = Vec::new();
    let mut i: usize = 0;
    let ghost hm = e@.headings.map_values(|h: Seq<char>| escape(h));
    while i < e.headings.len()
        invariant
            i <= e.headings@.len(),
            e@.headings.len() == e.headings@.len(),
            hm == e@.headings.map_values(|h: Seq<char>| escape(h)),
            text::views(hs@) == hm.take(i as int),
        decreases e.headings@.len() - i,
    {
        let x = escape_string(&e.headings[i]);
        let ghost before = hs@;
        hs.push(x);
        assert(text::views(hs@) =~= text::views(before).push(x@));
        assert(hm.take(i + 1) =~= hm.take(i as int).push(hm[i as int]));
        i = i + 1;
    }
    assert(hm.take(e.headings@.len() as int) =~= hm);
    let headings = text::join_vecs(hs.as_slice(), us.as_slice());
    let mut ls: Vec<Vec<char>> = Vec::new();
    let mut j: usize = 0;
    let ghost lm = e@.links.map_values(|l: SearchLinkV| link_item_text(l));
    while j < e.links.len()
        invariant
            j <= e.links@.len(),
            e@.links.len() == e.links@.len(),
            lm == e@.links.map_values(|l: SearchLinkV| link_item_text(l)),
            text::views(ls@) == lm.take(j as int),
        decreases e.links@.len() - j,
    {
        let mut x = escape_string(&e.links[j].target);
        x.push('\u{1e}');
        let y = escape_string(&e.links[j].label);
        text::push_chars(&mut x, y.as_slice());
        assert(e@.links[j as int] == e.links@[j as int]@);
        assert(x@ =~= link_item_text(e@.links[j as int]));
        let ghost before = ls@;
        ls.push(x);
        assert(text::views(ls@) =~= text::views(before).push(x@));
        assert(lm.take(j + 1) =~= lm.take(j as int).push(lm[j as int]));
        j = j + 1;
    }
    assert(lm.take(e.links@.len() as int) =~= lm);
    let links = text::join_vecs(ls.as_slice(), us.as_slice());
    let meta = match &e.metadata {
        Some(m) => escape_string(m),
        None => Vec::new(),
    };
    let mut fields: Vec<Vec<char>> = Vec::new();
    fields.push(escape_string(&e.url));
    fields.push(escape_string(&e.title));
    fields.push(headings);
    fields.push(links);
    fields.push(meta);
    fields.push(escape_string(&e.body));
    assert(text::views(fields@) =~= entry_fields(e@));
    let tab = ['\t'];
    assert(tab@ == seq!['\t']);
    let mut line = text::join_vecs(fields.as_slice(), tab.as_slice());
    line.push('\n');
    line
}

impl SearchIndex {
    /// The index in the `JRG-SEARCH/0.1` format.
    pub fn to_index_text(&self) -> (r: String)
        ensures
            r@ == index_text(self@),
    {
        let es = self.entries();
        let mut out: Vec<char> = Vec::new();
        let h = ['J', 'R', 'G', '-', 'S', 'E', 'A', 'R', 'C', 'H', '/', '0', '.', '1', '\n'];
        text::push_chars(&mut out, h.as_slice());
        let ghost m = self@.map_values(|e: SearchEntryV| entry_text(e));
        assert(out@ =~= header() + seq!['\n'] + m.take(0).flatten());
        let mut i: usize = 0;
        while i < es.len()
            invariant
                i <= es@.len(),
                search::entries_view(es@) == self@,
                m == self@.map_values(|e: SearchEntryV| entry_text(e)),
                out@ == header() + seq!['\n'] + m.take(i as int).flatten(),
            decreases es@.len() - i,
        {
            let line = entry_text_exec(&es[i]);
            let ghost before = out@;
            text::push_chars(&mut out, line.as_slice());
            proof {
                assert(m[i as int] == line@);
                assert(m.take(i + 1) =~= m.take(i as int).push(m[i as int]));
                m.take(i as int).lemma_flatten_push(m[i as int]);
                assert(out@ =~= header() + seq!['\n'] + m.take(i + 1).flatten());
            }
            i = i + 1;
        }
        assert(m.take(es@.len() as int) =~= m);
        text::string_from(out.as_slice())
    }
}

fn unescape_string(s: &[char]) -> (r: Result<String, Vec<char>>)
    ensures
        r matches Ok(v) ==> unescape(s@) == Ok::<Seq<char>, Seq<char>>(v@),
        r matches Err(e) ==> unescape(s@) == Err::<Seq<char>, Seq<char>>(e@),
{
    match unescape_field(s) {
        Ok(v) => Ok(text::string_from(v.as_slice())),
        Err(e) => Err(e),
    }
}

fn unescape_list(ps: &Vec<Vec<char>>) -> (r: Result<Vec<String>, Vec<char>>)
    ensures
        r matches Ok(v) ==> unescape_all(text::views(ps@)) == Ok::<Seq<Seq<char>>, Seq<char>>(
            crate::document::strs(v@),
        ),
        r matches Err(e) ==> unescape_all(text::views(ps@)) == Err::<Seq<Seq<char>>, Seq<char>>(
            e@,
        ),
{
    let ghost all = text::views(ps@);
    let mut out: Vec<String> = Vec::new();
    let mut i: usize = 0;
    assert(all.skip(0) =~= all);
    assert(crate::document::strs(out@) =~= Seq::<Seq<char>>::empty());
    assert(unescape_all(all) == lift(crate::document::strs(out@), unescape_all(all.skip(0))));
    while i < ps.len()
        invariant
            i <= ps@.len(),
            all == text::views(ps@),
            unescape_all(all) == lift(crate::document::strs(out@), unescape_all(all.skip(i as int))),
        decreases ps@.len() - i,
    {
        let ghost rest = all.skip(i as int);
        assert(rest[0] == ps@[i as int]@);
        match unescape_string(ps[i].as_slice()) {
            Err(e) => {
                return Err(e);
            },
            Ok(x) => {
                let ghost before = crate::document::strs(out@);
                out.push(x);
                assert(rest.drop_first() =~= all.skip(i + 1));
                proof {
                    lemma_lift_assoc(before, seq![x@], unescape_all(all.skip(i + 1)));
                }
                assert(crate::document::strs(out@) =~= before + seq![x@]);
                i = i + 1;
            },
        }
    }
    assert(all.skip(ps@.len() as int) =~= Seq::<Seq<char>>::empty());
    assert(crate::document::strs(out@) + Seq::<Seq<char>>::empty() =~= crate::document::strs(out@));
    Ok(out)
}

fn bad_link_msg(n: usize) -> (r: Vec<char>)
    ensures
        r@ == bad_link(n as nat),
{
    let mut v = text::chars_of("bad link field at line ");
    text::push_decimal(&mut v, n);
    v
}

fn link_piece_exec(p: &[char], n: usize) -> (r: Result<SearchLink, Vec<char>>)
    ensures
        r matches Ok(l) ==> link_piece(p@, n as nat) == Ok::<SearchLinkV, Seq<char>>(l@),
        r matches Err(e) ==> link_piece(p@, n as nat) == Err::<SearchLinkV, Seq<char>>(e@),
{
    let k = text::find_char(p, '\u{1e}', 0);
    if k == p.len() {
        return Err(bad_link_msg(n));
    }
    proof { text::lemma_char_from(p@, record_sep(), 0); }
    let t = text::slice_of(p, 0, k);
    let l = text::slice_of(p, k + 1, p.len());
    assert(t@ =~= p@.take(k as int));
    assert(l@ =~= p@.skip(k + 1));
    match unescape_string(t.as_slice()) {
        Err(e) => Err(e),
        Ok(target) => match unescape_string(l.as_slice()) {
            Err(e) => Err(e),
            Ok(label) => Ok(SearchLink { target, label }),
        },
    }
}

fn link_pieces_exec(ps: &Vec<Vec<char>>, n: usize) -> (r: Result<Vec<SearchLink>, Vec<char>>)
    ensures
        r matches Ok(v) ==> link_pieces(text::views(ps@), n as nat) == Ok::<
            Seq<SearchLinkV>,
            Seq<char>,
        >(search::links_view(v@)),
        r matches Err(e) ==> link_pieces(text::views(ps@), n as nat) == Err::<
            Seq<SearchLinkV>,
            Seq<char>,
        >(e@),
{
    let ghost all = text::views(ps@);
    let mut out: Vec<SearchLink> = Vec::new();
    let mut i: usize = 0;
    assert(all.skip(0) =~= all);
    assert(search::links_view(out@) =~= Seq::<SearchLinkV>::empty());
    assert(link_pieces(all, n as nat) == lift(search::links_view(out@), link_pieces(all.skip(0), n as nat)));
    while i < ps.len()
        invariant
            i <= ps@.len(),
            all == text::views(ps@),
            link_pieces(all, n as nat) == lift(
                search::links_view(out@),
                link_pieces(all.skip(i as int), n as nat),
            ),
        decreases ps@.len() - i,
    {
        let ghost rest = all.skip(i as int);
        assert(rest[0] == ps@[i as int]@);
        match link_piece_exec(ps[i].as_slice(), n) {
            Err(e) => {
                return Err(e);
            },
            Ok(x) => {
                let ghost before = search::links_view(out@);
                out.push(x);
                assert(rest.drop_first() =~= all.skip(i + 1));
                proof {
                    lemma_lift_assoc(before, seq![x@], link_pieces(all.skip(i + 1), n as nat));
                }
                assert(search::links_view(out@) =~= before + seq![x@]);
                i = i + 1;
            },
        }
    }
    assert(all.skip(ps@.len() as int) =~= Seq::<Seq<char>>::empty());
    assert(search::links_view(out@) + Seq::<SearchLinkV>::empty() =~= search::links_view(out@));
    Ok(out)
}

fn bad_fields_msg(n: usize) -> (r: Vec<char>)
    ensures
        r@ == bad_fields(n as nat),
{
    let mut v = text::chars_of("bad search index entry at line ");
    text::push_decimal(&mut v, n);
    text::push_str(&mut v, ": expected 6 fields");
    v
}

pub open spec fn opt_entry(o: Option<SearchEntry>) -> Option<SearchEntryV> {
    match o {
        Some(e) => Some(e@),
        None => None,
    }
}

fn entry_line_exec(l: &[char], n: usize) -> (r: Result<Option<SearchEntry>, Vec<char>>)
    ensures
        r matches Ok(o) ==> entry_line(l@, n as nat) == Ok::<Option<SearchEntryV>, Seq<char>>(
            opt_entry(o),
        ),
        r matches Err(e) ==> entry_line(l@, n as nat) == Err::<Option<SearchEntryV>, Seq<char>>(
            e@,
        ),
{
    let (a, b) = text::trim_bounds(l);
    if a == b {
        return Ok(None);
    }
    let fs = text::split_vecs(l, '\t');
    if fs.len() != 6 {
        return Err(bad_fields_msg(n));
    }
    assert(text::views(fs@)[2] == fs@[2]@);
    assert(text::views(fs@)[3] == fs@[3]@);
    let headings = if fs[2].len() == 0 {
        let v: Vec<String> = Vec::new();
        assert(crate::document::strs(v@) =~= Seq::<Seq<char>>::empty());
        v
    } else {
        let parts = text::split_vecs(fs[2].as_slice(), '\u{1f}');
        match unescape_list(&parts) {
            Err(e) => {
                return Err(e);
            },
            Ok(v) => v,
        }
    };
    assert(list_field(text::views(fs@)[2]) == Ok::<Seq<Seq<char>>, Seq<char>>(
        crate::document::strs(headings@),
    ));
    let links = if fs[3].len() == 0 {
        let v: Vec<SearchLink> = Vec::new();
        assert(search::links_view(v@) =~= Seq::<SearchLinkV>::empty());
        v
    } else {
        let parts = text::split_vecs(fs[3].as_slice(), '\u{1f}');
        match link_pieces_exec(&parts, n) {
            Err(e) => {
                return Err(e);
            },
            Ok(v) => v,
        }
    };
    assert(links_field(text::views(fs@)[3], n as nat) == Ok::<Seq<SearchLinkV>, Seq<char>>(
        search::links_view(links@),
    ));
    let url = match unescape_string(fs[0].as_slice()) {
        Err(e) => {
            return Err(e);
        },
        Ok(v) => v,
    };
    let title = match unescape_string(fs[1].as_slice()) {
        Err(e) => {
            return Err(e);
        },
        Ok(v) => v,
    };
    let metadata = if fs[4].len() == 0 {
        None
    } else {
        match unescape_string(fs[4].as_slice()) {
            Err(e) => {
                return Err(e);
            },
            Ok(v) => Some(v),
        }
    };
    let body = match unescape_string(fs[5].as_slice()) {
        Err(e) => {
            return Err(e);
        },
        Ok(v) => v,
    };
    let e = SearchEntry { url, title, headings, links, metadata, body };
    Ok(Some(e))
}

impl SearchIndex {
    /// Loads an index from the `JRG-SEARCH/0.1` format; see `parse_index`
    /// for what is accepted and which error each malformed input gives.
    pub fn from_index_text(input: &str) -> (r: Result<SearchIndex, String>)
        requires
            input@.len() + 3 <= usize::MAX,
        ensures
            r matches Ok(idx) ==> parse_index(input@) == Ok::<Seq<SearchEntryV>, Seq<char>>(idx@),
            r matches Err(e) ==> parse_index(input@) == Err::<Seq<SearchEntryV>, Seq<char>>(e@),
    {
        let cs = text::chars_of(input);
        let ls = text::lines_of(cs.as_slice());
        if ls.len() == 0 {
            return Err(String::from_str("empty search index"));
        }
        let h = ['J', 'R', 'G', '-', 'S', 'E', 'A', 'R', 'C', 'H', '/', '0', '.', '1'];
        assert(h@ == header());
        if !text::chars_eq(ls[0].as_slice(), h.as_slice()) {
            let msg = err_with("unsupported search index header: ", ls[0].as_slice());
            return Err(text::string_from(msg.as_slice()));
        }
        let ghost all = text::views(ls@).drop_first();
        proof { text::lemma_lines_len(cs@); }
        assert(text::views(ls@)[0] == header());
        assert(parse_index(input@) == entry_lines(all, 2));
        let mut index = SearchIndex::default();
        let mut i: usize = 1;
        assert(all.skip(0) =~= all);
        assert(index@ =~= Seq::<SearchEntryV>::empty());
        assert(entry_lines(all, 2) == lift(index@, entry_lines(all.skip(0), 2)));
        while i < ls.len()
            invariant
                1 <= i <= ls@.len(),
                parse_index(input@) == entry_lines(all, 2),
                ls@.len() <= input@.len() + 1,
                input@.len() + 3 <= usize::MAX,
                all == text::views(ls@).drop_first(),
                entry_lines(all, 2) == lift(index@, entry_lines(all.skip(i - 1), (i + 1) as nat)),
            decreases ls@.len() - i,
        {
            let ghost rest = all.skip(i - 1);
            assert(rest[0] == ls@[i as int]@);
            match entry_line_exec(ls[i].as_slice(), i + 1) {
                Err(e) => {
                    assert(rest.len() > 0);
                    assert(entry_lines(rest, (i + 1) as nat) == Err::<Seq<SearchEntryV>, Seq<char>>(e@));
                    assert(lift(index@, entry_lines(rest, (i + 1) as nat)) == Err::<Seq<SearchEntryV>, Seq<char>>(e@));
                    let es = text::string_from(e.as_slice());
                    assert(es@ == e@);
                    return Err(es);
                },
                Ok(o) => {
                    let ghost before = index@;
                    let ghost got = opt_seq(opt_entry(o));
                    match o {
                        Some(e) => {
                            index.add(e);
                        },
                        None => {},
                    }
                    assert(index@ =~= before + got);
                    assert(rest.drop_first() =~= all.skip(i as int));
                    proof {
                        lemma_lift_assoc(before, got, entry_lines(all.skip(i as int), (i + 2) as nat));
                    }
                    i = i + 1;
                },
            }
        }
        assert(all.skip(ls@.len() - 1) =~= Seq::<Seq<char>>::empty());
        assert(index@ + Seq::<SearchEntryV>::empty() =~= index@);
        Ok(index)
    }
}

// ----- Reading back what was written -----

/// The line of an entry, without its line feed.
pub open spec fn entry_line_text(e: SearchEntryV) -> Seq<char> {
    text::join(entry_fields(e), seq!['\t'])
}

/// An entry that the index format gives back unchanged: its line is not
/// blank, its body does not end in a carriage return (taken as part of the
/// line ending), its metadata is not empty text (which reads back as no
/// metadata), and its headings are not one empty heading (which reads back
/// as no headings).
pub open spec fn round_trips(e: SearchEntryV) -> bool {
    &&& text::trim(entry_line_text(e)).len() > 0
    &&& !(e.body.len() > 0 && e.body.last() == '\r')
    &&& e.metadata != Some(Seq::<char>::empty())
    &&& e.headings != seq![Seq::<char>::empty()]
}

pub open spec fn special(c: char) -> bool {
    c == '\n' || c == '\t' || c == unit_sep() || c == record_sep()
}

proof fn lemma_escape_free(s: Seq<char>, c: char)
    requires
        special(c),
    ensures
        text::free_of(escape(s), c),
    decreases s.len(),
{
    if s.len() == 0 {
        assert(escape(s) =~= Seq::<char>::empty());
    } else {
        lemma_escape_cons(s);
        lemma_escape_free(s.drop_first(), c);
        let a = escape_char(s[0]);
        let b = escape(s.drop_first());
        assert(text::free_of(a, c));
        assert forall|i: int| 0 <= i < (a + b).len() implies (a + b)[i] != c by {
            if i < a.len() {
            } else {
                assert((a + b)[i] == b[i - a.len()]);
            }
        }
    }
}

proof fn lemma_escape_snoc(s: Seq<char>)
    requires
        s.len() > 0,
    ensures
        escape(s) == escape(s.drop_last()) + escape_char(s.last()),
{
    let m = s.map_values(|c: char| escape_char(c));
    assert(m =~= s.drop_last().map_values(|c: char| escape_char(c)).push(escape_char(s.last())));
    s.drop_last().map_values(|c: char| escape_char(c)).lemma_flatten_push(escape_char(s.last()));
}

proof fn lemma_escape_nonempty(s: Seq<char>)
    requires
        s.len() > 0,
    ensures
        escape(s).len() > 0,
        escape(s).last() == '\r' ==> s.last() == '\r',
{
    lemma_escape_snoc(s);
}

proof fn lemma_escape_all_free(xs: Seq<Seq<char>>, c: char)
    requires
        special(c),
    ensures
        forall|i: int| 0 <= i < xs.len() ==> text::free_of(
            #[trigger] escaped_all(xs)[i],
            c,
        ),
{
    assert forall|i: int| 0 <= i < xs.len() implies text::free_of(
        #[trigger] escaped_all(xs)[i],
        c,
    ) by {
        lemma_escape_free(xs[i], c);
    }
}

proof fn lemma_link_item_free(l: SearchLinkV, c: char)
    requires
        special(c),
        c != record_sep(),
    ensures
        text::free_of(link_item_text(l), c),
{
    lemma_escape_free(l.target, c);
    lemma_escape_free(l.label, c);
    let a = escape(l.target);
    let b = escape(l.label);
    let x = a + seq![record_sep()] + b;
    assert forall|i: int| 0 <= i < x.len() implies x[i] != c by {
        if i < a.len() {
        } else if i == a.len() {
        } else {
            assert(x[i] == b[i - a.len() - 1]);
        }
    }
}

proof fn lemma_links_items_free(ls: Seq<SearchLinkV>, c: char)
    requires
        special(c),
        c != record_sep(),
    ensures
        forall|i: int| 0 <= i < ls.len() ==> text::free_of(
            #[trigger] link_items(ls)[i],
            c,
        ),
{
    assert forall|i: int| 0 <= i < ls.len() implies text::free_of(
        #[trigger] link_items(ls)[i],
        c,
    ) by {
        lemma_link_item_free(ls[i], c);
    }
}

proof fn lemma_fields_free(e: SearchEntryV, c: char)
    requires
        c == '\n' || c == '\t',
    ensures
        forall|i: int| 0 <= i < entry_fields(e).len() ==> text::free_of(#[trigger] entry_fields(e)[i], c),
{
    lemma_escape_free(e.url, c);
    lemma_escape_free(e.title, c);
    lemma_escape_free(e.body, c);
    lemma_escape_all_free(e.headings, c);
    text::lemma_join_free(escaped_all(e.headings), seq![unit_sep()], c);
    lemma_links_items_free(e.links, c);
    text::lemma_join_free(link_items(e.links), seq![unit_sep()], c);
    match e.metadata {
        Some(t) => lemma_escape_free(t, c),
        None => {},
    }
}

proof fn lemma_unescape_all_escaped(hs: Seq<Seq<char>>)
    ensures
        unescape_all(escaped_all(hs)) == Ok::<Seq<Seq<char>>, Seq<char>>(hs),
    decreases hs.len(),
{
    let m = escaped_all(hs);
    if hs.len() == 0 {
        assert(hs =~= Seq::<Seq<char>>::empty());
    } else {
        lemma_unescape_escape(hs[0]);
        assert(m.drop_first() =~= escaped_all(hs.drop_first()));
        lemma_unescape_all_escaped(hs.drop_first());
        assert(seq![hs[0]] + hs.drop_first() =~= hs);
    }
}

proof fn lemma_join_nonempty(xs: Seq<Seq<char>>, sep: Seq<char>)
    requires
        xs.len() >= 2,
        sep.len() > 0,
    ensures
        text::join(xs, sep).len() > 0,
{
}

proof fn lemma_list_field_round(hs: Seq<Seq<char>>)
    requires
        hs != seq![Seq::<char>::empty()],
    ensures
        list_field(headings_text(hs)) == Ok::<Seq<Seq<char>>, Seq<char>>(hs),
{
    let m = escaped_all(hs);
    if hs.len() == 0 {
        assert(headings_text(hs) =~= Seq::<char>::empty());
        assert(hs =~= Seq::<Seq<char>>::empty());
    } else {
        if hs.len() == 1 {
            assert(hs[0].len() > 0) by {
                if hs[0].len() == 0 {
                    assert(hs[0] =~= Seq::<char>::empty());
                    assert(hs =~= seq![hs[0]]);
                }
            }
            lemma_escape_nonempty(hs[0]);
        } else {
            lemma_join_nonempty(m, seq![unit_sep()]);
        }
        lemma_escape_all_free(hs, unit_sep());
        text::lemma_split_join(m, unit_sep());
        lemma_unescape_all_escaped(hs);
    }
}

proof fn lemma_char_from_at(a: Seq<char>, b: Seq<char>, c: char)
    requires
        text::free_of(a, c),
    ensures
        text::char_from(a + seq![c] + b, c, 0) == a.len(),
{
    let s = a + seq![c] + b;
    text::lemma_char_from(s, c, 0);
    let k = text::char_from(s, c, 0);
    assert(s[a.len() as int] == c);
    if k < a.len() {
        assert(s[k] == a[k]);
    }
}

proof fn lemma_link_pieces_round(ls: Seq<SearchLinkV>, n: nat)
    ensures
        link_pieces(link_items(ls), n) == Ok::<
            Seq<SearchLinkV>,
            Seq<char>,
        >(ls),
    decreases ls.len(),
{
    let m = link_items(ls);
    if ls.len() == 0 {
        assert(ls =~= Seq::<SearchLinkV>::empty());
    } else {
        let l = ls[0];
        let p = link_item_text(l);
        lemma_escape_free(l.target, record_sep());
        lemma_char_from_at(escape(l.target), escape(l.label), record_sep());
        let k = escape(l.target).len() as int;
        assert(p.take(k) =~= escape(l.target));
        assert(p.skip(k + 1) =~= escape(l.label));
        lemma_unescape_escape(l.target);
        lemma_unescape_escape(l.label);
        assert(link_piece(p, n) == Ok::<SearchLinkV, Seq<char>>(l));
        assert(m.drop_first() =~= link_items(ls.drop_first()));
        lemma_link_pieces_round(ls.drop_first(), n);
        assert(seq![l] + ls.drop_first() =~= ls);
    }
}

proof fn lemma_links_field_round(ls: Seq<SearchLinkV>, n: nat)
    ensures
        links_field(links_text(ls), n) == Ok::<Seq<SearchLinkV>, Seq<char>>(ls),
{
    let m = link_items(ls);
    if ls.len() == 0 {
        assert(links_text(ls) =~= Seq::<char>::empty());
        assert(ls =~= Seq::<SearchLinkV>::empty());
    } else {
        if ls.len() == 1 {
            assert(text::join(m, seq![unit_sep()]) == m[0]);
            assert(m[0].len() > 0);
        } else {
            lemma_join_nonempty(m, seq![unit_sep()]);
        }
        lemma_links_items_free(ls, unit_sep());
        text::lemma_split_join(m, unit_sep());
        lemma_link_pieces_round(ls, n);
    }
}

proof fn lemma_entry_line_round(e: SearchEntryV, n: nat)
    requires
        round_trips(e),
    ensures
        entry_line(entry_line_text(e), n) == Ok::<Option<SearchEntryV>, Seq<char>>(Some(e)),
{
    let fs = entry_fields(e);
    lemma_fields_free(e, '\t');
    text::lemma_split_join(fs, '\t');
    lemma_list_field_round(e.headings);
    lemma_links_field_round(e.links, n);
    lemma_unescape_escape(e.url);
    lemma_unescape_escape(e.title);
    lemma_unescape_escape(e.body);
    match e.metadata {
        Some(t) => {
            assert(t.len() > 0) by {
                if t.len() == 0 {
                    assert(t =~= Seq::<char>::empty());
                }
            }
            lemma_escape_nonempty(t);
            lemma_unescape_escape(t);
        },
        None => {},
    }
}

proof fn lemma_line_no_cr(e: SearchEntryV)
    requires
        round_trips(e),
    ensures
        text::strip_cr(entry_line_text(e)) == entry_line_text(e),
{
    let fs = entry_fields(e);
    let l = entry_line_text(e);
    assert(fs.drop_last().len() == 5);
    assert(l == text::join(fs.drop_last(), seq!['\t']) + seq!['\t'] + fs.last());
    if e.body.len() > 0 {
        lemma_escape_nonempty(e.body);
        assert(l.last() == escape(e.body).last());
    } else {
        assert(escape(e.body) =~= Seq::<char>::empty());
        assert(l.last() == '\t');
    }
}

proof fn lemma_entry_lines_round(es: Seq<SearchEntryV>, n: nat)
    requires
        forall|i: int| 0 <= i < es.len() ==> round_trips(#[trigger] es[i]),
    ensures
        entry_lines(
            text::strip_crs(es.map_values(|e: SearchEntryV| entry_line_text(e))),
            n,
        ) == Ok::<Seq<SearchEntryV>, Seq<char>>(es),
    decreases es.len(),
{
    let ls = text::strip_crs(es.map_values(|e: SearchEntryV| entry_line_text(e)));
    if es.len() == 0 {
        assert(ls =~= Seq::<Seq<char>>::empty());
        assert(es =~= Seq::<SearchEntryV>::empty());
    } else {
        assert(round_trips(es[0]));
        lemma_line_no_cr(es[0]);
        lemma_entry_line_round(es[0], n);
        assert(ls[0] == entry_line_text(es[0]));
        let rest = es.drop_first();
        assert(forall|i: int| 0 <= i < rest.len() ==> round_trips(#[trigger] rest[i])) by {
            assert forall|i: int| 0 <= i < rest.len() implies round_trips(#[trigger] rest[i]) by {
                assert(rest[i] == es[i + 1]);
            }
        }
        lemma_entry_lines_round(rest, n + 1);
        assert(ls.drop_first() =~= text::strip_crs(rest.map_values(|e: SearchEntryV| entry_line_text(e))));
        assert(seq![es[0]] + rest =~= es);
    }
}

/// Writing an index out and reading it back gives its entries, for entries
/// the format carries unchanged (see `round_trips`).
pub proof fn lemma_index_round_trip(es: Seq<SearchEntryV>)
    requires
        forall|i: int| 0 <= i < es.len() ==> round_trips(#[trigger] es[i]),
    ensures
        parse_index(index_text(es)) == Ok::<Seq<SearchEntryV>, Seq<char>>(es),
{
    let lt = es.map_values(|e: SearchEntryV| entry_line_text(e));
    assert(es.map_values(|e: SearchEntryV| entry_text(e)) =~= lt.map_values(
        |l: Seq<char>| l + seq!['\n'],
    ));
    assert(text::free_of(header(), '\n'));
    assert forall|i: int| 0 <= i < lt.len() implies text::free_of(#[trigger] lt[i], '\n') by {
        lemma_fields_free(es[i], '\n');
        text::lemma_join_free(entry_fields(es[i]), seq!['\t'], '\n');
    }
    text::lemma_lines_of_terminated(header(), lt);
    let ls = text::lines(index_text(es));
    assert(ls == text::strip_crs(seq![header()] + lt));
    assert(ls[0] == header());
    assert(ls.drop_first() =~= text::strip_crs(lt));
    lemma_entry_lines_round(es, 2);
}

proof fn lemma_all_ws_trim_start(s: Seq<char>)
    requires
        forall|i: int| 0 <= i < s.len() ==> text::is_ws(#[trigger] s[i]),
    ensures
        text::trim_start(s).len() == 0,
    decreases s.len(),
{
    if s.len() > 0 {
        lemma_all_ws_trim_start(s.drop_first());
    }
}

proof fn lemma_skip_ws_stops(s: Seq<char>, lo: int, k: int)
    requires
        0 <= lo <= k < s.len(),
        !text::is_ws(s[k]),
    ensures
        text::skip_ws_from(s, lo) <= k,
        !text::is_ws(s[text::skip_ws_from(s, lo)]),
    decreases k - lo,
{
    if lo < k && text::is_ws(s[lo]) {
        lemma_skip_ws_stops(s, lo + 1, k);
    }
}

proof fn lemma_trim_end_keeps_first(t: Seq<char>)
    requires
        t.len() > 0,
        !text::is_ws(t[0]),
    ensures
        text::trim_end(t).len() > 0,
    decreases t.len(),
{
    if t.len() > 1 && text::is_ws(t.last()) {
        lemma_trim_end_keeps_first(t.drop_last());
    }
}

/// Text with a character other than whitespace is not blank once trimmed.
proof fn lemma_trim_nonblank(s: Seq<char>, k: int)
    requires
        0 <= k < s.len(),
        !text::is_ws(s[k]),
    ensures
        text::trim(s).len() > 0,
{
    text::lemma_trim_start_skip(s, 0);
    lemma_skip_ws_stops(s, 0, k);
    assert(s.skip(0) =~= s);
    lemma_trim_end_keeps_first(text::trim_start(s));
}

proof fn lemma_escape_nonblank(s: Seq<char>, j: int)
    requires
        0 <= j < s.len(),
        !text::is_ws(s[j]),
    ensures
        exists|k: int| 0 <= k < escape(s).len() && !text::is_ws(#[trigger] escape(s)[k]),
    decreases j,
{
    lemma_escape_cons(s);
    let a = escape_char(s[0]);
    let b = escape(s.drop_first());
    if j == 0 {
        assert(!text::is_ws(escape(s)[0]));
    } else {
        lemma_escape_nonblank(s.drop_first(), j - 1);
        let k = choose|k: int| 0 <= k < b.len() && !text::is_ws(#[trigger] b[k]);
        assert(escape(s)[a.len() + k] == b[k]);
    }
}

proof fn lemma_join_starts_with_first(ls: Seq<Seq<char>>, sep: Seq<char>, k: int)
    requires
        ls.len() > 0,
        0 <= k < ls[0].len(),
    ensures
        k < text::join(ls, sep).len(),
        text::join(ls, sep)[k] == ls[0][k],
    decreases ls.len(),
{
    if ls.len() > 1 {
        lemma_join_starts_with_first(ls.drop_last(), sep, k);
    }
}

/// Writing an index out and reading it back gives its entries, where each
/// entry's URL holds more than whitespace, its body does not end in a
/// carriage return, its metadata is not empty text and its headings are
/// not one empty heading.
pub proof fn lemma_index_round_trip_entries(es: Seq<SearchEntryV>)
    requires
        forall|i: int|
            0 <= i < es.len() ==> {
                let e = #[trigger] es[i];
                &&& text::trim(e.url).len() > 0
                &&& !(e.body.len() > 0 && e.body.last() == '\r')
                &&& e.metadata != Some(Seq::<char>::empty())
                &&& e.headings != seq![Seq::<char>::empty()]
            },
    ensures
        parse_index(index_text(es)) == Ok::<Seq<SearchEntryV>, Seq<char>>(es),
{
    assert forall|i: int| 0 <= i < es.len() implies round_trips(#[trigger] es[i]) by {
        let e = es[i];
        if forall|j: int| 0 <= j < e.url.len() ==> text::is_ws(#[trigger] e.url[j]) {
            lemma_all_ws_trim_start(e.url);
            assert(text::trim_end(text::trim_start(e.url)) == text::trim_start(e.url));
        }
        let j = choose|j: int| 0 <= j < e.url.len() && !text::is_ws(#[trigger] e.url[j]);
        lemma_escape_nonblank(e.url, j);
        let u = escape(e.url);
        let k = choose|k: int| 0 <= k < u.len() && !text::is_ws(#[trigger] u[k]);
        assert(entry_fields(e)[0] == u);
        lemma_join_starts_with_first(entry_fields(e), seq!['\t'], k);
        lemma_trim_nonblank(entry_line_text(e), k);
    }
    lemma_index_round_trip(es);
}

} // verus!
