//! The lines the browser shows a page as: each line a run of text spans,
//! each span tagged with the part of the page it draws (a heading, a
//! selected link, a code border, ...), and each line marked where it
//! matches the find query. Turning tags into terminal colours is left to
//! the caller.

use vstd::prelude::*;
use crate::text;
use crate::browser::FindState;
use crate::document::{self, ActionMethod, Block, BlockV};
use crate::page::{
    block_items, inline_spans, items_of, links_of, render_browser_table, split_inline_spans, strings_view,
    table_lines, InlineSpan, InlineSpanV, LoadedPage,
};

verus! {

broadcast use vstd::string::group_string_axioms;

/// Which kind of selectable item a line draws.
#[derive(Debug, Clone, Copy, PartialEq, Eq, Structural)]
pub enum ItemKind {
    Link,
    Input,
    Button,
    Image,
}

/// The part of a page a span draws.
#[derive(Debug, Clone, Copy, PartialEq, Eq, Structural)]
pub enum Role {
    /// A heading of this level.
    Heading(u8),
    /// Paragraph text.
    Text,
    /// A link inside a paragraph.
    InlineLink,
    /// The marker and label of a selectable item.
    Item(ItemKind),
    /// The target or value shown after an item.
    ItemTarget(ItemKind),
    QuoteBar,
    Quote,
    Bullet,
    ListItem,
    Rule,
    Table,
    CodeBorder,
    Code,
    SourceTitle,
    Source,
}

/// A run of text drawn one way.
#[derive(Debug, Clone, PartialEq, Eq)]
pub struct StyledSpan {
    pub text: String,
    pub role: Role,
    /// Whether it draws the selected item.
    pub selected: bool,
}

/// How a line stands to the find query.
#[derive(Debug, Clone, Copy, PartialEq, Eq, Structural)]
pub enum FindMark {
    NoMatch,
    Match,
    Current,
}

/// A line of the page as shown.
#[derive(Debug, Clone, PartialEq, Eq)]
pub struct StyledLine {
    pub spans: Vec<StyledSpan>,
    pub mark: FindMark,
}

pub ghost struct SpanV {
    pub text: Seq<char>,
    pub role: Role,
    pub selected: bool,
}

pub ghost struct LineV {
    pub spans: Seq<SpanV>,
    pub mark: FindMark,
}

impl View for StyledSpan {
    type V = SpanV;

    open spec fn view(&self) -> SpanV {
        SpanV { text: self.text@, role: self.role, selected: self.selected }
    }
}

pub open spec fn spans_of(v: Seq<StyledSpan>) -> Seq<SpanV> {
    v.map_values(|s: StyledSpan| s@)
}

impl View for StyledLine {
    type V = LineV;

    open spec fn view(&self) -> LineV {
        LineV { spans: spans_of(self.spans@), mark: self.mark }
    }
}

pub open spec fn lines_of(v: Seq<StyledLine>) -> Seq<LineV> {
    v.map_values(|l: StyledLine| l@)
}

pub open spec fn sp(t: Seq<char>, role: Role) -> SpanV {
    SpanV { text: t, role, selected: false }
}

/// The line of a selectable item: a marker (`❯ ` when selected), its
/// label, two spaces and its target or value.
pub open spec fn item_line(selected: bool, label: Seq<char>, target: Seq<char>, kind: ItemKind) -> Seq<SpanV> {
    let marker = if selected {
        "\u{276f} "@
    } else {
        "  "@
    };
    seq![
        SpanV { text: marker, role: Role::Item(kind), selected },
        SpanV { text: label, role: Role::Item(kind), selected },
        SpanV { text: "  "@, role: Role::Item(kind), selected },
        SpanV { text: target, role: Role::ItemTarget(kind), selected },
    ]
}

/// The spans of a paragraph with links; `idx` is the number of items
/// before the paragraph.
pub open spec fn para_spans(s: Seq<InlineSpanV>, selected: int, idx: int) -> Seq<SpanV>
    decreases s.len(),
{
    if s.len() == 0 {
        Seq::empty()
    } else {
        para_spans(s.drop_last(), selected, idx) + seq![
            match s.last() {
                InlineSpanV::Text(t) => sp(t, Role::Text),
                InlineSpanV::Link { label, .. } => SpanV {
                    text: label,
                    role: Role::InlineLink,
                    selected: selected == idx + links_of(s.drop_last()).len(),
                },
            },
        ]
    }
}

pub open spec fn all_text(s: Seq<InlineSpanV>) -> bool {
    forall|i: int| 0 <= i < s.len() ==> (#[trigger] s[i]) is Text
}

pub open spec fn rule_text() -> Seq<char> {
    "  "@ + Seq::new(48, |i: int| '\u{2500}')
}

/// The lines a block is shown as, given the selection and the number of
/// items before it.
pub open spec fn block_screen(b: BlockV, selected: int, idx: int) -> Seq<Seq<SpanV>> {
    let blank = Seq::<SpanV>::empty();
    match b {
        BlockV::Heading { level, text } => seq![
            seq![sp(Seq::new(level as nat, |i: int| '#') + seq![' '] + text, Role::Heading(level))],
            blank,
        ],
        BlockV::Paragraph(t) => {
            let s = inline_spans(t);
            if s.len() == 0 {
                seq![blank, blank]
            } else if all_text(s) {
                seq![seq![sp(t, Role::Text)], blank]
            } else {
                seq![para_spans(s, selected, idx), blank]
            }
        },
        BlockV::Link(l) => seq![item_line(selected == idx, "\u{21b3} "@ + l.label, l.target, ItemKind::Link)],
        BlockV::Input(i) => seq![item_line(selected == idx, "\u{25a3} "@ + i.label, i.value, ItemKind::Input)],
        BlockV::Button(bt) => seq![
            item_line(selected == idx, "\u{25c9} "@ + bt.label, bt.method.name() + seq![' '] + bt.target, ItemKind::Button),
        ],
        BlockV::Image(im) => seq![item_line(selected == idx, "\u{25a7} "@ + im.alt, im.source, ItemKind::Image)],
        BlockV::Quote(t) => text::lines(t).map_values(|l: Seq<char>| seq![sp("\u{2503} "@, Role::QuoteBar), sp(l, Role::Quote)])
            + seq![blank],
        BlockV::List(items) => items.map_values(|it: Seq<char>| seq![sp("  \u{25c6} "@, Role::Bullet), sp(it, Role::ListItem)])
            + seq![blank],
        BlockV::Rule => seq![seq![sp(rule_text(), Role::Rule)], blank],
        BlockV::Table(t) => table_lines(t).map_values(|l: Seq<char>| seq![sp(l, Role::Table)]) + seq![blank],
        BlockV::Preformatted { code, .. } => seq![seq![sp("\u{256d}\u{2500}"@, Role::CodeBorder)]] + text::lines(code).map_values(
            |l: Seq<char>| seq![sp("\u{2502} "@, Role::CodeBorder), sp(l, Role::Code)],
        ) + seq![seq![sp("\u{2570}\u{2500}"@, Role::CodeBorder)], blank],
        BlockV::Script { .. } => Seq::empty(),
    }
}

/// The lines of a run of blocks, each block knowing how many items come
/// before it.
pub open spec fn blocks_screen(bs: Seq<BlockV>, selected: int) -> Seq<Seq<SpanV>>
    decreases bs.len(),
{
    if bs.len() == 0 {
        Seq::empty()
    } else {
        blocks_screen(bs.drop_last(), selected) + block_screen(bs.last(), selected, items_of(bs.drop_last()).len() as int)
    }
}

/// How line `i` stands to the find query: the current match, another
/// match, or neither (always neither for an empty query or no matches).
pub open spec fn mark_of(i: int, f: FindState) -> FindMark {
    let m = f.matches@;
    if f.query@.len() == 0 || m.len() == 0 {
        FindMark::NoMatch
    } else if f.match_idx < m.len() && m[f.match_idx as int] == i {
        FindMark::Current
    } else if m.contains(i as usize) {
        FindMark::Match
    } else {
        FindMark::NoMatch
    }
}

/// The source view: a title, a blank line and the raw body's lines.
pub open spec fn source_screen(raw: Seq<char>) -> Seq<Seq<SpanV>> {
    seq![seq![sp("\u{2500}\u{2500} Source view \u{2500}\u{2500}"@, Role::SourceTitle)], Seq::<SpanV>::empty()]
        + text::lines(raw).map_values(|l: Seq<char>| seq![sp(l, Role::Source)])
}

/// The lines a page is shown as: its source when asked for and there is
/// one (with no find marks), else its blocks, each line marked against the
/// find query.
pub open spec fn page_screen(p: LoadedPage, selected: int, f: FindState, show_source: bool) -> Seq<LineV> {
    if show_source && p.raw_body is Some {
        source_screen(p.raw_body->0@).map_values(|s: Seq<SpanV>| LineV { spans: s, mark: FindMark::NoMatch })
    } else {
        let ls = blocks_screen(p.document@.blocks, selected);
        Seq::new(ls.len(), |i: int| LineV { spans: ls[i], mark: mark_of(i, f) })
    }
}

pub open spec fn rows_of(v: Seq<Vec<StyledSpan>>) -> Seq<Seq<SpanV>> {
    v.map_values(|r: Vec<StyledSpan>| spans_of(r@))
}

fn span(text: String, role: Role) -> (r: StyledSpan)
    ensures
        r@ == sp(text@, role),
{
    StyledSpan { text, role, selected: false }
}

fn push_row(out: &mut Vec<Vec<StyledSpan>>, row: Vec<StyledSpan>)
    ensures
        rows_of(final(out)@) == rows_of(old(out)@).push(spans_of(row@)),
{
    out.push(row);
    assert(rows_of(out@) =~= rows_of(old(out)@).push(spans_of(row@)));
}

fn blank_row(out: &mut Vec<Vec<StyledSpan>>)
    ensures
        rows_of(final(out)@) == rows_of(old(out)@).push(Seq::<SpanV>::empty()),
{
    let row: Vec<StyledSpan> = Vec::new();
    assert(spans_of(row@) =~= Seq::<SpanV>::empty());
    push_row(out, row);
}

fn one_span_row(out: &mut Vec<Vec<StyledSpan>>, text: String, role: Role)
    ensures
        rows_of(final(out)@) == rows_of(old(out)@).push(seq![sp(text@, role)]),
{
    let row = vec![span(text, role)];
    assert(spans_of(row@) =~= seq![sp(row@[0].text@, role)]);
    push_row(out, row);
}

fn two_span_row(out: &mut Vec<Vec<StyledSpan>>, a: String, ra: Role, b: String, rb: Role)
    ensures
        rows_of(final(out)@) == rows_of(old(out)@).push(seq![sp(a@, ra), sp(b@, rb)]),
{
    let ghost av = a@;
    let ghost bv = b@;
    let row = vec![span(a, ra), span(b, rb)];
    assert(spans_of(row@) =~= seq![sp(av, ra), sp(bv, rb)]);
    push_row(out, row);
}

fn item_row(out: &mut Vec<Vec<StyledSpan>>, selected: bool, label: Vec<char>, target: String, kind: ItemKind)
    ensures
        rows_of(final(out)@) == rows_of(old(out)@).push(item_line(selected, label@, target@, kind)),
{
    proof {
        reveal_strlit("\u{276f} ");
        reveal_strlit("  ");
    }
    let marker = if selected { String::from_str("\u{276f} ") } else { String::from_str("  ") };
    let ghost tv = target@;
    let row = vec![
        StyledSpan { text: marker, role: Role::Item(kind), selected },
        StyledSpan { text: text::string_from(label.as_slice()), role: Role::Item(kind), selected },
        StyledSpan { text: String::from_str("  "), role: Role::Item(kind), selected },
        StyledSpan { text: target, role: Role::ItemTarget(kind), selected },
    ];
    assert(spans_of(row@) =~= item_line(selected, label@, tv, kind));
    push_row(out, row);
}

fn prefixed(p: &str, s: &String) -> (r: Vec<char>)
    ensures
        r@ == p@ + s@,
{
    let mut v = text::chars_of(p);
    text::push_str(&mut v, s.as_str());
    v
}

/// A row for each line of `t`.
fn lines_rows(out: &mut Vec<Vec<StyledSpan>>, t: &String, role: Role)
    ensures
        rows_of(final(out)@) == rows_of(old(out)@) + text::lines(t@).map_values(|l: Seq<char>| seq![sp(l, role)]),
{
    let cs = text::chars_of(t.as_str());
    let ls = text::lines_of(cs.as_slice());
    let ghost base = rows_of(out@);
    let ghost lv = text::views(ls@);
    let mut i: usize = 0;
    assert(lv.take(0).map_values(|l: Seq<char>| seq![sp(l, role)]) =~= Seq::<Seq<SpanV>>::empty());
    while i < ls.len()
        invariant
            i <= ls@.len(),
            lv == text::views(ls@),
            lv == text::lines(t@),
            rows_of(out@) == base + lv.take(i as int).map_values(|l: Seq<char>| seq![sp(l, role)]),
        decreases ls@.len() - i,
    {
        let l = text::string_from(ls[i].as_slice());
        assert(l@ == lv[i as int]);
        one_span_row(out, l, role);
        assert(lv.take(i + 1).map_values(|l: Seq<char>| seq![sp(l, role)]) =~= lv.take(i as int).map_values(
            |l: Seq<char>| seq![sp(l, role)],
        ).push(seq![sp(lv[i as int], role)]));
        i = i + 1;
    }
    assert(lv.take(ls@.len() as int) =~= lv);
}

/// A row for each line of `t`, after a span `bar` drawn as `br`.
fn barred_rows(out: &mut Vec<Vec<StyledSpan>>, t: &String, bar: &str, br: Role, role: Role)
    ensures
        rows_of(final(out)@) == rows_of(old(out)@) + text::lines(t@).map_values(
            |l: Seq<char>| seq![sp(bar@, br), sp(l, role)],
        ),
{
    let cs = text::chars_of(t.as_str());
    let ls = text::lines_of(cs.as_slice());
    let ghost base = rows_of(out@);
    let ghost lv = text::views(ls@);
    let mut i: usize = 0;
    assert(lv.take(0).map_values(|l: Seq<char>| seq![sp(bar@, br), sp(l, role)]) =~= Seq::<Seq<SpanV>>::empty());
    while i < ls.len()
        invariant
            i <= ls@.len(),
            lv == text::views(ls@),
            lv == text::lines(t@),
            rows_of(out@) == base + lv.take(i as int).map_values(|l: Seq<char>| seq![sp(bar@, br), sp(l, role)]),
        decreases ls@.len() - i,
    {
        let l = text::string_from(ls[i].as_slice());
        assert(l@ == lv[i as int]);
        two_span_row(out, String::from_str(bar), br, l, role);
        assert(lv.take(i + 1).map_values(|l: Seq<char>| seq![sp(bar@, br), sp(l, role)]) =~= lv.take(
            i as int,
        ).map_values(|l: Seq<char>| seq![sp(bar@, br), sp(l, role)]).push(seq![sp(bar@, br), sp(lv[i as int], role)]));
        i = i + 1;
    }
    assert(lv.take(ls@.len() as int) =~= lv);
}

fn count_links(sp: &Vec<InlineSpan>) -> (r: usize)
    ensures
        r == links_of(crate::page::spans_view(sp@)).len(),
{
    let ghost v = crate::page::spans_view(sp@);
    let mut n: usize = 0;
    let mut i: usize = 0;
    while i < sp.len()
        invariant
            i <= sp@.len(),
            v == crate::page::spans_view(sp@),
            n == links_of(v.take(i as int)).len(),
            n <= i,
        decreases sp@.len() - i,
    {
        assert(v.take(i + 1).drop_last() =~= v.take(i as int));
        match &sp[i] {
            InlineSpan::Link { .. } => {
                n = n + 1;
            },
            _ => {},
        }
        i = i + 1;
    }
    assert(v.take(sp@.len() as int) =~= v);
    n
}

/// The number of items a block offers.
fn block_item_count(b: &Block) -> (r: usize)
    ensures
        r == block_items(b@).len(),
{
    match b {
        Block::Link(_) | Block::Input(_) | Block::Button(_) | Block::Image(_) => 1,
        Block::Paragraph(t) => {
            let s = split_inline_spans(t.as_str());
            let n = count_links(&s);
            proof {
                let ps = links_of(inline_spans(t@));
                assert(crate::page::link_items(ps).len() == ps.len());
            }
            n
        },
        _ => 0,
    }
}

#[verifier::rlimit(60)]
fn paragraph_rows(out: &mut Vec<Vec<StyledSpan>>, t: &String, selected: usize, idx: usize)
    requires
        idx + links_of(inline_spans(t@)).len() <= usize::MAX,
    ensures
        rows_of(final(out)@) == rows_of(old(out)@) + block_screen(BlockV::Paragraph(t@), selected as int, idx as int),
{
    let s = split_inline_spans(t.as_str());
    let ghost v = crate::page::spans_view(s@);
    if s.len() == 0 {
        blank_row(out);
        blank_row(out);
        assert(rows_of(out@) =~= rows_of(old(out)@) + block_screen(BlockV::Paragraph(t@), selected as int, idx as int));
        return;
    }
    let mut all = true;
    let mut i: usize = 0;
    while i < s.len()
        invariant
            i <= s@.len(),
            v == crate::page::spans_view(s@),
            all == (forall|j: int| 0 <= j < i ==> (#[trigger] v[j]) is Text),
        decreases s@.len() - i,
    {
        assert(v[i as int] == s@[i as int]@);
        match &s[i] {
            InlineSpan::Link { .. } => {
                all = false;
            },
            _ => {},
        }
        i = i + 1;
    }
    if all {
        one_span_row(out, t.clone(), Role::Text);
        blank_row(out);
        assert(rows_of(out@) =~= rows_of(old(out)@) + block_screen(BlockV::Paragraph(t@), selected as int, idx as int));
        return;
    }
    let mut row: Vec<StyledSpan> = Vec::new();
    let mut k: usize = 0;
    let mut links: usize = 0;
    proof {
        assert(links_of(v.take(0)) =~= Seq::<(Seq<char>, Seq<char>)>::empty()) by {
            assert(v.take(0) =~= Seq::<InlineSpanV>::empty());
        }
        lemma_links_prefix(v, 0);
    }
    assert(spans_of(row@) =~= para_spans(v.take(0), selected as int, idx as int));
    while k < s.len()
        invariant
            k <= s@.len(),
            v == crate::page::spans_view(s@),
            v == inline_spans(t@),
            idx + links_of(v).len() <= usize::MAX,
            links == links_of(v.take(k as int)).len(),
            spans_of(row@) == para_spans(v.take(k as int), selected as int, idx as int),
        decreases s@.len() - k,
    {
        proof {
            lemma_links_prefix(v, k + 1);
        }
        assert(v.take(k + 1).drop_last() =~= v.take(k as int));
        let ghost before = spans_of(row@);
        match &s[k] {
            InlineSpan::Text(x) => {
                row.push(span(x.clone(), Role::Text));
            },
            InlineSpan::Link { label, .. } => {
                row.push(StyledSpan { text: label.clone(), role: Role::InlineLink, selected: selected == idx + links });
                links = links + 1;
            },
        }
        assert(spans_of(row@) =~= para_spans(v.take(k + 1), selected as int, idx as int));
        k = k + 1;
    }
    assert(v.take(s@.len() as int) =~= v);
    let ghost r = spans_of(row@);
    push_row(out, row);
    blank_row(out);
    assert(!all_text(v));
    assert(rows_of(out@) =~= rows_of(old(out)@) + block_screen(BlockV::Paragraph(t@), selected as int, idx as int));
}

proof fn lemma_links_prefix(v: Seq<InlineSpanV>, k: int)
    requires
        0 <= k <= v.len(),
    ensures
        links_of(v.take(k)).len() <= links_of(v).len(),
    decreases v.len() - k,
{
    if k < v.len() {
        lemma_links_prefix(v, k + 1);
        assert(v.take(k + 1).drop_last() =~= v.take(k));
    } else {
        assert(v.take(k) =~= v);
    }
}

fn heading_text(level: u8, t: &String) -> (r: String)
    ensures
        r@ == Seq::new(level as nat, |i: int| '#') + seq![' '] + t@,
{
    let mut v: Vec<char> = Vec::new();
    let mut i: u8 = 0;
    while i < level
        invariant
            i <= level,
            v@ == Seq::new(i as nat, |j: int| '#'),
        decreases level - i,
    {
        v.push('#');
        i = i + 1;
        assert(v@ =~= Seq::new(i as nat, |j: int| '#'));
    }
    v.push(' ');
    text::push_str(&mut v, t.as_str());
    text::string_from(v.as_slice())
}

fn rule_string() -> (r: String)
    ensures
        r@ == rule_text(),
{
    let mut v = text::chars_of("  ");
    let mut i: usize = 0;
    proof {
        reveal_strlit("  ");
    }
    while i < 48
        invariant
            i <= 48,
            v@ == "  "@ + Seq::new(i as nat, |j: int| '\u{2500}'),
        decreases 48 - i,
    {
        v.push('\u{2500}');
        i = i + 1;
        assert(v@ =~= "  "@ + Seq::new(i as nat, |j: int| '\u{2500}'));
    }
    text::string_from(v.as_slice())
}

/// The rows a block is shown as.
#[verifier::rlimit(60)]
fn block_rows(out: &mut Vec<Vec<StyledSpan>>, b: &Block, selected: usize, idx: usize)
    requires
        idx + block_items(b@).len() <= usize::MAX,
    ensures
        rows_of(final(out)@) == rows_of(old(out)@) + block_screen(b@, selected as int, idx as int),
{
    let ghost base = rows_of(out@);
    match b {
        Block::Heading { level, text } => {
            one_span_row(out, heading_text(*level, text), Role::Heading(*level));
            blank_row(out);
            assert(rows_of(out@) =~= base + block_screen(b@, selected as int, idx as int));
        },
        Block::Paragraph(t) => {
            proof {
                assert(crate::page::link_items(links_of(inline_spans(t@))).len() == links_of(inline_spans(t@)).len());
            }
            paragraph_rows(out, t, selected, idx);
            return;
        },
        Block::Link(l) => {
            item_row(out, selected == idx, prefixed("\u{21b3} ", &l.label), l.target.clone(), ItemKind::Link);
            assert(rows_of(out@) =~= base + block_screen(b@, selected as int, idx as int));
        },
        Block::Input(i) => {
            item_row(out, selected == idx, prefixed("\u{25a3} ", &i.label), i.value.clone(), ItemKind::Input);
            assert(rows_of(out@) =~= base + block_screen(b@, selected as int, idx as int));
        },
        Block::Button(bt) => {
            let mut t = text::chars_of(bt.method.as_str());
            t.push(' ');
            text::push_str(&mut t, bt.target.as_str());
            assert(t@ =~= bt.method.name() + seq![' '] + bt.target@);
            item_row(out, selected == idx, prefixed("\u{25c9} ", &bt.label), text::string_from(t.as_slice()), ItemKind::Button);
            assert(rows_of(out@) =~= base + block_screen(b@, selected as int, idx as int));
        },
        Block::Image(im) => {
            item_row(out, selected == idx, prefixed("\u{25a7} ", &im.alt), im.source.clone(), ItemKind::Image);
            assert(rows_of(out@) =~= base + block_screen(b@, selected as int, idx as int));
        },
        Block::Quote(t) => {
            barred_rows(out, t, "\u{2503} ", Role::QuoteBar, Role::Quote);
            blank_row(out);
            assert(rows_of(out@) =~= base + block_screen(b@, selected as int, idx as int));
        },
        Block::List(items) => {
            let mut k: usize = 0;
            let ghost iv = document::strs(items@);
            assert(iv.take(0).map_values(|it: Seq<char>| seq![sp("  \u{25c6} "@, Role::Bullet), sp(it, Role::ListItem)])
                =~= Seq::<Seq<SpanV>>::empty());
            while k < items.len()
                invariant
                    k <= items@.len(),
                    iv == document::strs(items@),
                    rows_of(out@) == base + iv.take(k as int).map_values(
                        |it: Seq<char>| seq![sp("  \u{25c6} "@, Role::Bullet), sp(it, Role::ListItem)],
                    ),
                decreases items@.len() - k,
            {
                two_span_row(out, String::from_str("  \u{25c6} "), Role::Bullet, items[k].clone(), Role::ListItem);
                assert(iv.take(k + 1).map_values(
                    |it: Seq<char>| seq![sp("  \u{25c6} "@, Role::Bullet), sp(it, Role::ListItem)],
                ) =~= iv.take(k as int).map_values(
                    |it: Seq<char>| seq![sp("  \u{25c6} "@, Role::Bullet), sp(it, Role::ListItem)],
                ).push(seq![sp("  \u{25c6} "@, Role::Bullet), sp(iv[k as int], Role::ListItem)]));
                k = k + 1;
            }
            assert(iv.take(items@.len() as int) =~= iv);
            blank_row(out);
            assert(rows_of(out@) =~= base + block_screen(b@, selected as int, idx as int));
        },
        Block::Rule => {
            one_span_row(out, rule_string(), Role::Rule);
            blank_row(out);
            assert(rows_of(out@) =~= base + block_screen(b@, selected as int, idx as int));
        },
        Block::Table(t) => {
            let tl = render_browser_table(t);
            let ghost tv = strings_view(tl@);
            let mut k: usize = 0;
            assert(tv.take(0).map_values(|l: Seq<char>| seq![sp(l, Role::Table)]) =~= Seq::<Seq<SpanV>>::empty());
            while k < tl.len()
                invariant
                    k <= tl@.len(),
                    tv == strings_view(tl@),
                    rows_of(out@) == base + tv.take(k as int).map_values(|l: Seq<char>| seq![sp(l, Role::Table)]),
                decreases tl@.len() - k,
            {
                one_span_row(out, tl[k].clone(), Role::Table);
                assert(tv.take(k + 1).map_values(|l: Seq<char>| seq![sp(l, Role::Table)]) =~= tv.take(
                    k as int,
                ).map_values(|l: Seq<char>| seq![sp(l, Role::Table)]).push(seq![sp(tv[k as int], Role::Table)]));
                k = k + 1;
            }
            assert(tv.take(tl@.len() as int) =~= tv);
            blank_row(out);
            assert(rows_of(out@) =~= base + block_screen(b@, selected as int, idx as int));
        },
        Block::Preformatted { code, .. } => {
            one_span_row(out, String::from_str("\u{256d}\u{2500}"), Role::CodeBorder);
            barred_rows(out, code, "\u{2502} ", Role::CodeBorder, Role::Code);
            one_span_row(out, String::from_str("\u{2570}\u{2500}"), Role::CodeBorder);
            blank_row(out);
            assert(rows_of(out@) =~= base + block_screen(b@, selected as int, idx as int));
        },
        Block::Script { .. } => {
            assert(rows_of(out@) =~= base + block_screen(b@, selected as int, idx as int));
        },
    }
}

proof fn lemma_items_prefix(bs: Seq<BlockV>, k: int)
    requires
        0 <= k <= bs.len(),
    ensures
        items_of(bs.take(k)).len() <= items_of(bs).len(),
    decreases bs.len() - k,
{
    if k < bs.len() {
        lemma_items_prefix(bs, k + 1);
        assert(bs.take(k + 1).drop_last() =~= bs.take(k));
    } else {
        assert(bs.take(k) =~= bs);
    }
}

fn mark_exec(i: usize, f: &FindState) -> (r: FindMark)
    ensures
        r == mark_of(i as int, *f),
{
    let q = text::chars_of(f.query.as_str());
    if q.len() == 0 || f.matches.len() == 0 {
        return FindMark::NoMatch;
    }
    if f.match_idx < f.matches.len() && f.matches[f.match_idx] == i {
        return FindMark::Current;
    }
    let mut k: usize = 0;
    while k < f.matches.len()
        invariant
            k <= f.matches@.len(),
            forall|j: int| 0 <= j < k ==> f.matches@[j] != i,
            f.query@.len() != 0 && f.matches@.len() != 0,
            !(f.match_idx < f.matches@.len() && f.matches@[f.match_idx as int] == i),
        decreases f.matches@.len() - k,
    {
        if f.matches[k] == i {
            assert(f.matches@[k as int] == i);
            assert(f.matches@.contains(i));
            assert(!(f.match_idx < f.matches@.len() && f.matches@[f.match_idx as int] == i));
            assert(f.query@.len() != 0 && f.matches@.len() != 0);
            return FindMark::Match;
        }
        k = k + 1;
    }
    FindMark::NoMatch
}

/// The rows made lines, each marked against the find query when `marks`.
fn finish(rows: Vec<Vec<StyledSpan>>, marks: bool, f: &FindState) -> (r: Vec<StyledLine>)
    ensures
        lines_of(r@) == Seq::new(
            rows_of(rows@).len(),
            |i: int| LineV {
                spans: rows_of(rows@)[i],
                mark: if marks {
                    mark_of(i, *f)
                } else {
                    FindMark::NoMatch
                },
            },
        ),
{
    let ghost all = rows_of(rows@);
    let mut rest = rows;
    let mut out: Vec<StyledLine> = Vec::new();
    while rest.len() > 0
        invariant
            out@.len() + rest@.len() == all.len(),
            rows_of(rest@) == all.skip(out@.len() as int),
            lines_of(out@) == Seq::new(
                out@.len(),
                |i: int| LineV {
                    spans: all[i],
                    mark: if marks {
                        mark_of(i, *f)
                    } else {
                        FindMark::NoMatch
                    },
                },
            ),
        decreases rest@.len(),
    {
        let ghost n = out@.len();
        let ghost before = rest@;
        let row = rest.remove(0);
        assert(rest@ =~= before.skip(1));
        assert(rows_of(rest@) =~= rows_of(before).skip(1));
        assert(spans_of(row@) == all[n as int]) by {
            assert(all.skip(n as int)[0] == all[n as int]);
        }
        assert(rows_of(rest@) =~= all.skip(n as int + 1));
        let mark = if marks {
            mark_exec(out.len(), f)
        } else {
            FindMark::NoMatch
        };
        let ghost prev = lines_of(out@);
        let ghost sv = spans_of(row@);
        out.push(StyledLine { spans: row, mark });
        assert(lines_of(out@) =~= prev.push(LineV { spans: sv, mark }));
        assert(lines_of(out@) =~= Seq::new(
            out@.len(),
            |i: int| LineV {
                spans: all[i],
                mark: if marks {
                    mark_of(i, *f)
                } else {
                    FindMark::NoMatch
                },
            },
        ));
    }
    out
}

/// The lines a page is shown as (see `page_screen`).
pub fn browser_lines(page: &LoadedPage, selected: usize, find: &FindState, show_source: bool) -> (r: Vec<StyledLine>)
    requires
        items_of(page.document@.blocks).len() <= usize::MAX,
    ensures
        lines_of(r@) == page_screen(*page, selected as int, *find, show_source),
{
    let mut rows: Vec<Vec<StyledSpan>> = Vec::new();
    assert(rows_of(rows@) =~= Seq::<Seq<SpanV>>::empty());
    if show_source {
        match &page.raw_body {
            Some(raw) => {
                one_span_row(&mut rows, String::from_str("\u{2500}\u{2500} Source view \u{2500}\u{2500}"), Role::SourceTitle);
                blank_row(&mut rows);
                lines_rows(&mut rows, raw, Role::Source);
                let ghost rv = rows_of(rows@);
                assert(rv =~= source_screen(raw@));
                let r = finish(rows, false, find);
                assert(lines_of(r@) =~= page_screen(*page, selected as int, *find, show_source));
                return r;
            },
            None => {},
        }
    }
    let bs = &page.document.blocks;
    let ghost bv = page.document@.blocks;
    let mut idx: usize = 0;
    let mut k: usize = 0;
    while k < bs.len()
        invariant
            k <= bs@.len(),
            bv == document::blocks_view(bs@),
            items_of(bv).len() <= usize::MAX,
            idx == items_of(bv.take(k as int)).len(),
            rows_of(rows@) == blocks_screen(bv.take(k as int), selected as int),
        decreases bs@.len() - k,
    {
        proof {
            lemma_items_prefix(bv, k + 1);
            assert(bv.take(k + 1).drop_last() =~= bv.take(k as int));
            assert(bv.take(k + 1).last() == bv[k as int]);
        }
        block_rows(&mut rows, &bs[k], selected, idx);
        idx = idx + block_item_count(&bs[k]);
        k = k + 1;
    }
    assert(bv.take(bs@.len() as int) =~= bv);
    let r = finish(rows, true, find);
    assert(lines_of(r@) =~= page_screen(*page, selected as int, *find, show_source));
    r
}

/// The text of a shown line: its spans' texts in order.
pub open spec fn line_text(l: LineV) -> Seq<char> {
    l.spans.map_values(|x: SpanV| x.text).flatten()
}

/// The texts of shown lines, as find and scrolling read them.
pub fn line_texts(lines: &[StyledLine]) -> (r: Vec<String>)
    ensures
        r@.map_values(|t: String| t@) == lines_of(lines@).map_values(|l: LineV| line_text(l)),
{
    let mut out: Vec<String> = Vec::new();
    let mut i: usize = 0;
    while i < lines.len()
        invariant
            i <= lines@.len(),
            out@.map_values(|t: String| t@) == lines_of(lines@).map_values(|l: LineV| line_text(l)).take(i as int),
        decreases lines@.len() - i,
    {
        let spans = &lines[i].spans;
        let ghost m = spans_of(spans@).map_values(|x: SpanV| x.text);
        let mut cs: Vec<char> = Vec::new();
        let mut j: usize = 0;
        while j < spans.len()
            invariant
                j <= spans@.len(),
                m == spans_of(spans@).map_values(|x: SpanV| x.text),
                cs@ == m.take(j as int).flatten(),
            decreases spans@.len() - j,
        {
            let ghost before = cs@;
            text::push_str(&mut cs, spans[j].text.as_str());
            proof {
                assert(m.take(j + 1) =~= m.take(j as int).push(m[j as int]));
                m.take(j as int).lemma_flatten_push(m[j as int]);
            }
            j = j + 1;
        }
        proof {
            assert(m.take(spans@.len() as int) =~= m);
        }
        let ghost before = out@.map_values(|t: String| t@);
        out.push(text::string_from(cs.as_slice()));
        proof {
            let all = lines_of(lines@).map_values(|l: LineV| line_text(l));
            assert(all[i as int] == line_text(lines@[i as int]@));
            assert(all.take(i + 1) =~= all.take(i as int).push(all[i as int]));
            assert(out@.map_values(|t: String| t@) =~= before.push(cs@));
        }
        i = i + 1;
    }
    proof {
        let all = lines_of(lines@).map_values(|l: LineV| line_text(l));
        assert(all.take(lines@.len() as int) =~= all);
    }
    out
}

} // verus!
