//! A small full-text search index over pages, with a plain-text file format
//! (`JRG-SEARCH/0.1`) that can be written out and loaded back.

use vstd::prelude::*;
use crate::text;
use crate::document::{self, Block, BlockV, Document, DocumentV};

verus! {

#[derive(Debug, Clone, PartialEq, Eq)]
pub struct SearchLink {
    pub target: String,
    pub label: String,
}

pub ghost struct SearchLinkV {
    pub target: Seq<char>,
    pub label: Seq<char>,
}

impl View for SearchLink {
    type V = SearchLinkV;

    open spec fn view(&self) -> SearchLinkV {
        SearchLinkV { target: self.target@, label: self.label@ }
    }
}

pub open spec fn links_view(v: Seq<SearchLink>) -> Seq<SearchLinkV> {
    v.map_values(|l: SearchLink| l@)
}

#[derive(Debug, Clone, PartialEq, Eq, Default)]
pub struct SearchEntry {
    pub url: String,
    pub title: String,
    pub headings: Vec<String>,
    pub links: Vec<SearchLink>,
    pub metadata: Option<String>,
    pub body: String,
}

pub ghost struct SearchEntryV {
    pub url: Seq<char>,
    pub title: Seq<char>,
    pub headings: Seq<Seq<char>>,
    pub links: Seq<SearchLinkV>,
    pub metadata: Option<Seq<char>>,
    pub body: Seq<char>,
}

impl View for SearchEntry {
    type V = SearchEntryV;

    open spec fn view(&self) -> SearchEntryV {
        SearchEntryV {
            url: self.url@,
            title: self.title@,
            headings: document::strs(self.headings@),
            links: links_view(self.links@),
            metadata: document::opt_str(self.metadata),
            body: self.body@,
        }
    }
}

pub open spec fn entries_view(v: Seq<SearchEntry>) -> Seq<SearchEntryV> {
    v.map_values(|e: SearchEntry| e@)
}

/// The text a table contributes to the searchable body: its header cells,
/// then every row's cells, one per line.
pub open spec fn table_text(t: document::TableV) -> Seq<char> {
    text::join(t.headers + t.rows.flatten(), seq!['\n'])
}

/// The text a block contributes to the searchable body, if any.
pub open spec fn block_body(b: BlockV) -> Option<Seq<char>> {
    match b {
        BlockV::Paragraph(t) => Some(t),
        BlockV::Quote(t) => Some(t),
        BlockV::Preformatted { code, .. } => Some(code),
        BlockV::List(items) => Some(text::join(items, seq!['\n'])),
        BlockV::Table(t) => Some(table_text(t)),
        BlockV::Input(i) => Some(i.label + seq![' '] + i.value),
        BlockV::Button(b) => Some(b.label),
        BlockV::Image(i) => Some(i.alt),
        _ => None,
    }
}

pub open spec fn body_parts(bs: Seq<BlockV>) -> Seq<Seq<char>>
    decreases bs.len(),
{
    if bs.len() == 0 {
        Seq::empty()
    } else {
        let p = body_parts(bs.drop_last());
        match block_body(bs.last()) {
            Some(x) => p.push(x),
            None => p,
        }
    }
}

pub open spec fn headings_of(bs: Seq<BlockV>) -> Seq<Seq<char>>
    decreases bs.len(),
{
    if bs.len() == 0 {
        Seq::empty()
    } else {
        let p = headings_of(bs.drop_last());
        match bs.last() {
            BlockV::Heading { text, .. } => p.push(text),
            _ => p,
        }
    }
}

pub open spec fn links_of(bs: Seq<BlockV>) -> Seq<SearchLinkV>
    decreases bs.len(),
{
    if bs.len() == 0 {
        Seq::empty()
    } else {
        let p = links_of(bs.drop_last());
        match bs.last() {
            BlockV::Link(l) => p.push(SearchLinkV { target: l.target, label: l.label }),
            _ => p,
        }
    }
}

pub open spec fn untitled() -> Seq<char> {
    seq!['U', 'n', 't', 'i', 't', 'l', 'e', 'd']
}

/// The index entry of a page found at `url`.
pub open spec fn entry_of(url: Seq<char>, d: DocumentV) -> SearchEntryV {
    SearchEntryV {
        url,
        title: match d.title() {
            Some(t) => t,
            None => untitled(),
        },
        headings: headings_of(d.blocks),
        links: links_of(d.blocks),
        metadata: d.metadata,
        body: text::join(body_parts(d.blocks), seq!['\n']),
    }
}

fn push_strings(out: &mut Vec<Vec<char>>, v: &Vec<String>)
    ensures
        text::views(final(out)@) == text::views(old(out)@) + document::strs(v@),
{
    let mut i: usize = 0;
    while i < v.len()
        invariant
            i <= v@.len(),
            text::views(out@) == text::views(old(out)@) + document::strs(v@).take(i as int),
        decreases v@.len() - i,
    {
        let c = text::chars_of(v[i].as_str());
        let ghost before = out@;
        out.push(c);
        assert(text::views(out@) =~= text::views(before).push(c@));
        assert(document::strs(v@).take(i + 1) =~= document::strs(v@).take(i as int).push(v@[i as int]@));
        i = i + 1;
    }
    assert(document::strs(v@).take(v@.len() as int) =~= document::strs(v@));
}

fn table_text_exec(t: &document::Table) -> (r: Vec<char>)
    ensures
        r@ == table_text(t@),
{
    let mut cells: Vec<Vec<char>> = Vec::new();
    push_strings(&mut cells, &t.headers);
    let mut i: usize = 0;
    let ghost rows = t@.rows;
    assert(text::views(cells@) =~= t@.headers + rows.take(0).flatten());
    while i < t.rows.len()
        invariant
            i <= t.rows@.len(),
            rows == t@.rows,
            rows.len() == t.rows@.len(),
            text::views(cells@) == t@.headers + rows.take(i as int).flatten(),
        decreases t.rows@.len() - i,
    {
        push_strings(&mut cells, &t.rows[i]);
        proof {
            assert(rows.take(i + 1) =~= rows.take(i as int).push(rows[i as int]));
            rows.take(i as int).lemma_flatten_push(rows[i as int]);
            assert(rows[i as int] == document::strs(t.rows@[i as int]@));
        }
        i = i + 1;
    }
    assert(rows.take(t.rows@.len() as int) =~= rows);
    let nl = ['\n'];
    assert(nl@ == seq!['\n']);
    text::join_vecs(cells.as_slice(), nl.as_slice())
}

fn block_body_exec(b: &Block) -> (r: Option<Vec<char>>)
    ensures
        r matches Some(v) ==> block_body(b@) == Some(v@),
        r is None ==> block_body(b@) is None,
{
    match b {
        Block::Paragraph(t) => Some(text::chars_of(t.as_str())),
        Block::Quote(t) => Some(text::chars_of(t.as_str())),
        Block::Preformatted { code, .. } => Some(text::chars_of(code.as_str())),
        Block::List(items) => {
            let mut vs: Vec<Vec<char>> = Vec::new();
            push_strings(&mut vs, items);
            assert(text::views(vs@) =~= document::strs(items@));
            let nl = ['\n'];
            assert(nl@ == seq!['\n']);
            Some(text::join_vecs(vs.as_slice(), nl.as_slice()))
        },
        Block::Table(t) => Some(table_text_exec(t)),
        Block::Input(i) => {
            let mut v = text::chars_of(i.label.as_str());
            v.push(' ');
            text::push_str(&mut v, i.value.as_str());
            Some(v)
        },
        Block::Button(bt) => Some(text::chars_of(bt.label.as_str())),
        Block::Image(im) => Some(text::chars_of(im.alt.as_str())),
        _ => None,
    }
}

fn copy_string(s: &String) -> (r: String)
    ensures
        r@ == s@,
{
    s.clone()
}

fn copy_opt(s: &Option<String>) -> (r: Option<String>)
    ensures
        document::opt_str(r) == document::opt_str(*s),
{
    match s {
        Some(x) => Some(x.clone()),
        None => None,
    }
}

impl SearchEntry {
    /// The index entry for a page: its title (or `Untitled`), headings,
    /// links, metadata, and the text of its other blocks.
    pub fn from_document(url: &str, document: &Document) -> (r: SearchEntry)
        ensures
            r@ == entry_of(url@, document@),
    {
        let ghost bs = document@.blocks;
        let mut headings: Vec<String> = Vec::new();
        let mut links: Vec<SearchLink> = Vec::new();
        let mut parts: Vec<Vec<char>> = Vec::new();
        let mut i: usize = 0;
        assert(bs.take(0) =~= Seq::<BlockV>::empty());
        while i < document.blocks.len()
            invariant
                i <= document.blocks@.len(),
                bs == document@.blocks,
                bs.len() == document.blocks@.len(),
                document::strs(headings@) == headings_of(bs.take(i as int)),
                links_view(links@) == links_of(bs.take(i as int)),
                text::views(parts@) == body_parts(bs.take(i as int)),
            decreases document.blocks@.len() - i,
        {
            let ghost pre = bs.take(i as int);
            assert(bs.take(i + 1).drop_last() =~= pre);
            assert(bs.take(i + 1).last() == document.blocks@[i as int]@);
            let b = &document.blocks[i];
            match b {
                Block::Heading { text, .. } => {
                    let ghost before = headings@;
                    headings.push(copy_string(text));
                    assert(document::strs(headings@) =~= document::strs(before).push(text@));
                },
                Block::Link(l) => {
                    let ghost before = links@;
                    let sl = SearchLink { target: copy_string(&l.target), label: copy_string(&l.label) };
                    links.push(sl);
                    assert(links_view(links@) =~= links_view(before).push(sl@));
                },
                _ => {},
            }
            match block_body_exec(b) {
                Some(v) => {
                    let ghost before = parts@;
                    parts.push(v);
                    assert(text::views(parts@) =~= text::views(before).push(v@));
                },
                None => {},
            }
            i = i + 1;
        }
        assert(bs.take(document.blocks@.len() as int) =~= bs);
        let title = match document.title() {
            Some(t) => String::from_str(t),
            None => {
                let u = ['U', 'n', 't', 'i', 't', 'l', 'e', 'd'];
                assert(u@ == untitled());
                text::string_from(u.as_slice())
            },
        };
        let nl = ['\n'];
        assert(nl@ == seq!['\n']);
        let body = text::join_vecs(parts.as_slice(), nl.as_slice());
        SearchEntry {
            url: String::from_str(url),
            title,
            headings,
            links,
            metadata: copy_opt(&document.metadata),
            body: text::string_from(body.as_slice()),
        }
    }
}

/// A link as the searchable text sees it: its label, a space, its target.
pub open spec fn link_text(l: SearchLinkV) -> Seq<char> {
    l.label + seq![' '] + l.target
}

pub open spec fn link_texts(ls: Seq<SearchLinkV>) -> Seq<Seq<char>> {
    ls.map_values(|l: SearchLinkV| link_text(l))
}

/// The metadata text, or nothing.
pub open spec fn meta_text(m: Option<Seq<char>>) -> Seq<char> {
    match m {
        Some(t) => t,
        None => Seq::empty(),
    }
}

/// All the searchable text of an entry, its parts joined by single spaces:
/// title, headings, links, metadata, body.
pub open spec fn search_text_of(e: SearchEntryV) -> Seq<char> {
    text::join(
        seq![
            e.title,
            text::join(e.headings, seq![' ']),
            text::join(link_texts(e.links), seq![' ']),
            meta_text(e.metadata),
            e.body,
        ],
        seq![' '],
    )
}

fn strings_to_vecs(v: &Vec<String>) -> (r: Vec<Vec<char>>)
    ensures
        text::views(r@) == document::strs(v@),
{
    let mut out: Vec<Vec<char>> = Vec::new();
    push_strings(&mut out, v);
    assert(text::views(out@) =~= document::strs(v@));
    out
}

impl SearchEntry {
    /// The entry's title, headings, links, metadata and body in one string.
    pub fn search_text(&self) -> (r: String)
        ensures
            r@ == search_text_of(self@),
    {
        let sp = [' '];
        assert(sp@ == seq![' ']);
        let hs = strings_to_vecs(&self.headings);
        let headings = text::join_vecs(hs.as_slice(), sp.as_slice());
        let mut ls: Vec<Vec<char>> = Vec::new();
        let mut i: usize = 0;
        while i < self.links.len()
            invariant
                i <= self.links@.len(),
                text::views(ls@) == link_texts(links_view(self.links@)).take(i as int),
            decreases self.links@.len() - i,
        {
            let mut t = text::chars_of(self.links[i].label.as_str());
            t.push(' ');
            text::push_str(&mut t, self.links[i].target.as_str());
            assert(links_view(self.links@)[i as int] == self.links@[i as int]@);
            assert(t@ =~= link_text(self.links@[i as int]@));
            let ghost before = ls@;
            ls.push(t);
            assert(text::views(ls@) =~= text::views(before).push(t@));
            assert(link_texts(links_view(self.links@)).take(i + 1) =~= link_texts(
                links_view(self.links@),
            ).take(i as int).push(link_text(self.links@[i as int]@)));
            i = i + 1;
        }
        assert(link_texts(links_view(self.links@)).take(self.links@.len() as int) =~= link_texts(
            links_view(self.links@),
        ));
        let links = text::join_vecs(ls.as_slice(), sp.as_slice());
        let meta = match &self.metadata {
            Some(m) => text::chars_of(m.as_str()),
            None => Vec::new(),
        };
        let mut parts: Vec<Vec<char>> = Vec::new();
        parts.push(text::chars_of(self.title.as_str()));
        parts.push(headings);
        parts.push(links);
        parts.push(meta);
        parts.push(text::chars_of(self.body.as_str()));
        assert(text::views(parts@) =~= seq![
            self@.title,
            text::join(self@.headings, seq![' ']),
            text::join(link_texts(self@.links), seq![' ']),
            meta_text(self@.metadata),
            self@.body,
        ]);
        let all = text::join_vecs(parts.as_slice(), sp.as_slice());
        text::string_from(all.as_slice())
    }
}

/// The pages known to a search, in the order they were added.
#[derive(Debug, Clone, PartialEq, Eq)]
pub struct SearchIndex {
    pub(crate) entries: Vec<SearchEntry>,
}

impl View for SearchIndex {
    type V = Seq<SearchEntryV>;

    closed spec fn view(&self) -> Seq<SearchEntryV> {
        entries_view(self.entries@)
    }
}

impl Default for SearchIndex {
    /// An index with no entries.
    fn default() -> (r: SearchIndex)
        ensures
            r@ == Seq::<SearchEntryV>::empty(),
    {
        let r = SearchIndex { entries: Vec::new() };
        assert(r@ =~= Seq::<SearchEntryV>::empty());
        r
    }
}

impl SearchIndex {
    /// Appends an entry.
    pub fn add(&mut self, entry: SearchEntry)
        ensures
            final(self)@ == old(self)@.push(entry@),
    {
        let ghost before = self.entries@;
        self.entries.push(entry);
        assert(entries_view(self.entries@) =~= entries_view(before).push(entry@));
    }

    /// The entries, in the order they were added.
    pub fn entries(&self) -> (r: &[SearchEntry])
        ensures
            entries_view(r@) == self@,
    {
        self.entries.as_slice()
    }
}

/// One page found by a search.
#[derive(Debug, Clone, PartialEq, Eq)]
pub struct SearchResult<'a> {
    pub entry: &'a SearchEntry,
    pub score: usize,
    pub snippet: String,
}

} // verus!
