//! What the browser makes of a loaded page: the interactive items a reader
//! can select, inline links inside paragraphs, and the small Markdown
//! subset that local `.md` files are shown with.

use vstd::prelude::*;
use crate::text;
use crate::converter;
use crate::document::{self, copy_opt, opt_str, Block, BlockV, ButtonV, Document, Image, Table,
    ImageV, Input, InputV, ActionMethod};
use crate::navigation::{navigate_to, nav_of, nav_to, BrowserState, PageLocation};
use crate::signature::SignatureStatus;
use crate::jrg_url::{from_parsed, parsed_url, url_result, JaringanUrl, JaringanUrlV, UrlError, UrlErrorV};
use crate::navigation::LocationV;
use crate::protocol::{status_text, ContentType, Response, ResponseTag, ResponseTagV, StatusCode};
use crate::parser::{parse_document, spec_parse_document, ParseError};
use crate::search::SearchIndex;
use crate::forms::{first_payload_value, input_pairs, input_payload_from_blocks, payload_value, target_with_payload, with_payload};
use crate::jrg_url::joined_url;
use crate::tabs::confirm_action;
use crate::ranking::{chars_lt, results_view, search_spec, seq_lt, SearchResultV};

verus! {

broadcast use vstd::string::group_string_axioms;

// ----- Inline links -----

/// A piece of paragraph text: plain text or an inline `[label](target)` link.
#[derive(Debug, Clone, PartialEq, Eq)]
pub enum InlineSpan {
    Text(String),
    Link { label: String, target: String },
}

pub ghost enum InlineSpanV {
    Text(Seq<char>),
    Link { label: Seq<char>, target: Seq<char> },
}

impl View for InlineSpan {
    type V = InlineSpanV;

    open spec fn view(&self) -> InlineSpanV {
        match self {
            InlineSpan::Text(t) => InlineSpanV::Text(t@),
            InlineSpan::Link { label, target } => InlineSpanV::Link { label: label@, target: target@ },
        }
    }
}

pub open spec fn spans_view(v: Seq<InlineSpan>) -> Seq<InlineSpanV> {
    v.map_values(|s: InlineSpan| s@)
}

/// The inline link that opens with the `[` at `i`: the first `]` after it,
/// a `(` right behind that, and the first `)` after the `(`; the label and
/// the target both non-empty.
pub open spec fn link_at(s: Seq<char>, i: int) -> Option<(int, int)> {
    if 0 <= i < s.len() && s[i] == '[' {
        match converter::span_at(s, i + 1) {
            Some((cb, cp)) => if cb > i + 1 && cp > cb + 2 {
                Some((cb, cp))
            } else {
                None
            },
            None => None,
        }
    } else {
        None
    }
}

pub proof fn lemma_link_at(s: Seq<char>, i: int)
    ensures
        link_at(s, i) matches Some((cb, cp)) ==> 0 <= i && i + 1 < cb && cb + 2 < cp < s.len(),
{
    if 0 <= i < s.len() && s[i] == '[' {
        converter::lemma_span_at(s, i + 1);
    }
}

/// The text before position `i` that the last link left, when there is any.
pub open spec fn text_before(s: Seq<char>, last: int, i: int) -> Seq<InlineSpanV> {
    if last < i {
        seq![InlineSpanV::Text(s.subrange(last, i))]
    } else {
        Seq::empty()
    }
}

/// The spans of `s` from position `i` on, where the text not yet given out
/// starts at `last`.
pub open spec fn spans_from(s: Seq<char>, i: int, last: int) -> Seq<InlineSpanV>
    decreases s.len() - i,
{
    if i < 0 || i >= s.len() {
        if 0 <= last < s.len() {
            seq![InlineSpanV::Text(s.subrange(last, s.len() as int))]
        } else {
            Seq::empty()
        }
    } else {
        match link_at(s, i) {
            Some((cb, cp)) => {
                proof {
                    lemma_link_at(s, i);
                }
                text_before(s, last, i) + seq![
                    InlineSpanV::Link { label: s.subrange(i + 1, cb), target: s.subrange(cb + 2, cp) },
                ] + spans_from(s, cp + 1, cp + 1)
            },
            None => spans_from(s, i + 1, last),
        }
    }
}

/// The spans of a paragraph's text.
pub open spec fn inline_spans(s: Seq<char>) -> Seq<InlineSpanV> {
    spans_from(s, 0, 0)
}

/// Splits paragraph text into plain text and `[label](target)` links.
pub fn split_inline_spans(text: &str) -> (r: Vec<InlineSpan>)
    ensures
        spans_view(r@) == inline_spans(text@),
{
    let chars = text::chars_of(text);
    let s = chars.as_slice();
    let mut spans: Vec<InlineSpan> = Vec::new();
    let mut i: usize = 0;
    let mut last: usize = 0;
    while i < s.len()
        invariant
            s@ == text@,
            last <= i <= s@.len(),
            spans_view(spans@) + spans_from(s@, i as int, last as int) == inline_spans(s@),
        decreases s@.len() - i,
    {
        let ghost before = spans@;
        proof {
            lemma_link_at(s@, i as int);
        }
        if s[i] == '[' && i + 1 <= s.len() {
            match converter::span_exec(s, i + 1) {
                Some((cb, cp)) => {
                    proof {
                        converter::lemma_span_at(s@, i + 1);
                    }
                    if cb > i + 1 && cp > cb + 2 {
                        if last < i {
                            spans.push(InlineSpan::Text(text::string_from(&text::slice_of(s, last, i))));
                        }
                        let label = text::string_from(&text::slice_of(s, i + 1, cb));
                        let target = text::string_from(&text::slice_of(s, cb + 2, cp));
                        spans.push(InlineSpan::Link { label, target });
                        assert(spans_view(spans@) =~= spans_view(before) + text_before(
                            s@,
                            last as int,
                            i as int,
                        ) + seq![
                            InlineSpanV::Link {
                                label: s@.subrange(i + 1, cb as int),
                                target: s@.subrange(cb + 2, cp as int),
                            },
                        ]);
                        i = cp + 1;
                        last = i;
                        continue;
                    }
                },
                None => {},
            }
        }
        i = i + 1;
    }
    if last < s.len() {
        let ghost before = spans@;
        spans.push(InlineSpan::Text(text::string_from(&text::slice_of(s, last, s.len()))));
        assert(spans_view(spans@) =~= spans_view(before) + spans_from(s@, i as int, last as int));
    } else {
        assert(spans_view(spans@) =~= spans_view(spans@) + spans_from(s@, i as int, last as int));
    }
    spans
}

/// The text a span was read from: plain text as it is, a link as
/// `[label](target)`.
pub open spec fn span_source(sp: InlineSpanV) -> Seq<char> {
    match sp {
        InlineSpanV::Text(t) => t,
        InlineSpanV::Link { label, target } => seq!['['] + label + seq![']', '('] + target + seq![')'],
    }
}

pub open spec fn spans_source(sps: Seq<InlineSpanV>) -> Seq<char> {
    sps.map_values(|sp: InlineSpanV| span_source(sp)).flatten()
}

proof fn lemma_spans_source_concat(a: Seq<InlineSpanV>, b: Seq<InlineSpanV>)
    ensures
        spans_source(a + b) == spans_source(a) + spans_source(b),
{
    assert((a + b).map_values(|sp: InlineSpanV| span_source(sp)) =~= a.map_values(
        |sp: InlineSpanV| span_source(sp),
    ) + b.map_values(|sp: InlineSpanV| span_source(sp)));
    vstd::seq_lib::lemma_flatten_concat(
        a.map_values(|sp: InlineSpanV| span_source(sp)),
        b.map_values(|sp: InlineSpanV| span_source(sp)),
    );
}

proof fn lemma_spans_source_one(x: InlineSpanV)
    ensures
        spans_source(seq![x]) == span_source(x),
{
    assert(seq![x].map_values(|sp: InlineSpanV| span_source(sp)) =~= seq![span_source(x)]);
    seq![span_source(x)].lemma_flatten_singleton();
}

proof fn lemma_spans_from_source(s: Seq<char>, i: int, last: int)
    requires
        0 <= last <= i <= s.len(),
    ensures
        spans_source(spans_from(s, i, last)) == s.skip(last),
    decreases s.len() - i,
{
    if i >= s.len() {
        if last < s.len() {
            lemma_spans_source_one(InlineSpanV::Text(s.subrange(last, s.len() as int)));
            assert(s.subrange(last, s.len() as int) =~= s.skip(last));
        } else {
            assert(spans_from(s, i, last) =~= Seq::<InlineSpanV>::empty());
            assert(Seq::<InlineSpanV>::empty().map_values(|sp: InlineSpanV| span_source(sp)) =~= Seq::<Seq<char>>::empty());
            assert(s.skip(last) =~= Seq::<char>::empty());
        }
    } else {
        lemma_link_at(s, i);
        match link_at(s, i) {
            Some((cb, cp)) => {
                converter::lemma_span_at(s, i + 1);
                lemma_spans_from_source(s, cp + 1, cp + 1);
                let tb = text_before(s, last, i);
                let lk = InlineSpanV::Link { label: s.subrange(i + 1, cb), target: s.subrange(cb + 2, cp) };
                let rest = spans_from(s, cp + 1, cp + 1);
                lemma_spans_source_concat(tb + seq![lk], rest);
                lemma_spans_source_concat(tb, seq![lk]);
                lemma_spans_source_one(lk);
                if last < i {
                    lemma_spans_source_one(InlineSpanV::Text(s.subrange(last, i)));
                    assert(spans_source(tb) == s.subrange(last, i));
                } else {
                    assert(tb =~= Seq::<InlineSpanV>::empty());
                    assert(Seq::<InlineSpanV>::empty().map_values(|sp: InlineSpanV| span_source(sp)) =~= Seq::<Seq<char>>::empty());
                    assert(spans_source(tb) =~= s.subrange(last, i));
                }
                assert(s.subrange(last, i) + span_source(lk) + s.skip(cp + 1) =~= s.skip(last));
            },
            None => {
                lemma_spans_from_source(s, i + 1, last);
            },
        }
    }
}

/// Splitting paragraph text into spans loses nothing: writing the spans
/// back, each link as `[label](target)`, gives the text again.
pub proof fn lemma_inline_spans_spell_text(s: Seq<char>)
    ensures
        spans_source(inline_spans(s)) == s,
{
    lemma_spans_from_source(s, 0, 0);
    assert(s.skip(0) =~= s);
}

/// The `(label, target)` pairs of the links among `spans`, in order.
pub open spec fn links_of(spans: Seq<InlineSpanV>) -> Seq<(Seq<char>, Seq<char>)>
    decreases spans.len(),
{
    if spans.len() == 0 {
        Seq::empty()
    } else {
        links_of(spans.drop_last()) + match spans.last() {
            InlineSpanV::Link { label, target } => seq![(label, target)],
            InlineSpanV::Text(_) => Seq::empty(),
        }
    }
}

pub open spec fn pairs_view(v: Seq<(String, String)>) -> Seq<(Seq<char>, Seq<char>)> {
    v.map_values(|p: (String, String)| (p.0@, p.1@))
}

/// The `[label](target)` links written inside paragraph text.
pub fn extract_inline_links(text: &str) -> (r: Vec<(String, String)>)
    ensures
        pairs_view(r@) == links_of(inline_spans(text@)),
{
    let spans = split_inline_spans(text);
    let mut out: Vec<(String, String)> = Vec::new();
    let mut i: usize = 0;
    while i < spans.len()
        invariant
            i <= spans@.len(),
            spans_view(spans@) == inline_spans(text@),
            pairs_view(out@) == links_of(spans_view(spans@).take(i as int)),
        decreases spans@.len() - i,
    {
        let ghost before = out@;
        assert(spans_view(spans@).take(i + 1).drop_last() =~= spans_view(spans@).take(i as int));
        match &spans[i] {
            InlineSpan::Link { label, target } => {
                out.push((label.clone(), target.clone()));
                assert(pairs_view(out@) =~= pairs_view(before).push((label@, target@)));
            },
            InlineSpan::Text(_) => {},
        }
        i = i + 1;
    }
    assert(spans_view(spans@).take(spans@.len() as int) =~= spans_view(spans@));
    out
}

// ----- Interactive items -----

/// What pressing a button on a page does.
#[derive(Debug, Clone)]
pub struct ButtonAction {
    pub id: String,
    pub label: String,
    pub target: String,
    pub method: ActionMethod,
    pub confirm: Option<String>,
    pub auth: Option<String>,
}

impl View for ButtonAction {
    type V = ButtonV;

    open spec fn view(&self) -> ButtonV {
        ButtonV {
            id: self.id@,
            label: self.label@,
            target: self.target@,
            method: self.method,
            confirm: opt_str(self.confirm),
            auth: opt_str(self.auth),
        }
    }
}

/// Something on a page the reader can select.
#[derive(Debug, Clone)]
pub enum InteractiveItem {
    Link { label: String, target: String },
    Input(Input),
    Button(ButtonAction),
    Image(Image),
}

pub ghost enum ItemV {
    Link { label: Seq<char>, target: Seq<char> },
    Input(InputV),
    Button(ButtonV),
    Image(ImageV),
}

impl View for InteractiveItem {
    type V = ItemV;

    open spec fn view(&self) -> ItemV {
        match self {
            InteractiveItem::Link { label, target } => ItemV::Link { label: label@, target: target@ },
            InteractiveItem::Input(i) => ItemV::Input(i@),
            InteractiveItem::Button(b) => ItemV::Button(b@),
            InteractiveItem::Image(i) => ItemV::Image(i@),
        }
    }
}

pub open spec fn items_view(v: Seq<InteractiveItem>) -> Seq<ItemV> {
    v.map_values(|i: InteractiveItem| i@)
}

/// The links of a paragraph, as items.
pub open spec fn link_items(ps: Seq<(Seq<char>, Seq<char>)>) -> Seq<ItemV> {
    ps.map_values(|p: (Seq<char>, Seq<char>)| ItemV::Link { label: p.0, target: p.1 })
}

/// The items one block offers: a link, input, button or image is one item,
/// a paragraph offers its inline links, anything else none.
pub open spec fn block_items(b: BlockV) -> Seq<ItemV> {
    match b {
        BlockV::Link(l) => seq![ItemV::Link { label: l.label, target: l.target }],
        BlockV::Input(i) => seq![ItemV::Input(i)],
        BlockV::Button(bt) => seq![ItemV::Button(bt)],
        BlockV::Image(im) => seq![ItemV::Image(im)],
        BlockV::Paragraph(t) => link_items(links_of(inline_spans(t))),
        _ => Seq::empty(),
    }
}

/// The items of a run of blocks, in page order.
pub open spec fn items_of(bs: Seq<BlockV>) -> Seq<ItemV>
    decreases bs.len(),
{
    if bs.len() == 0 {
        Seq::empty()
    } else {
        items_of(bs.drop_last()) + block_items(bs.last())
    }
}

fn copy_input(i: &Input) -> (r: Input)
    ensures
        r@ == i@,
{
    Input {
        name: i.name.clone(),
        label: i.label.clone(),
        value: i.value.clone(),
        placeholder: copy_opt(&i.placeholder),
    }
}

fn push_block_items(out: &mut Vec<InteractiveItem>, b: &Block)
    ensures
        items_view(final(out)@) == items_view(old(out)@) + block_items(b@),
{
    let ghost before = out@;
    match b {
        Block::Link(l) => {
            out.push(InteractiveItem::Link { label: l.label.clone(), target: l.target.clone() });
        },
        Block::Input(i) => {
            out.push(InteractiveItem::Input(copy_input(i)));
        },
        Block::Button(bt) => {
            out.push(
                InteractiveItem::Button(
                    ButtonAction {
                        id: bt.id.clone(),
                        label: bt.label.clone(),
                        target: bt.target.clone(),
                        method: bt.method,
                        confirm: copy_opt(&bt.confirm),
                        auth: copy_opt(&bt.auth),
                    },
                ),
            );
        },
        Block::Image(im) => {
            out.push(InteractiveItem::Image(Image { source: im.source.clone(), alt: im.alt.clone() }));
        },
        Block::Paragraph(t) => {
            let links = extract_inline_links(t.as_str());
            let mut j: usize = 0;
            while j < links.len()
                invariant
                    j <= links@.len(),
                    pairs_view(links@) == links_of(inline_spans(t@)),
                    items_view(out@) == items_view(before) + link_items(pairs_view(links@).take(j as int)),
                decreases links@.len() - j,
            {
                let ghost mid = out@;
                out.push(InteractiveItem::Link { label: links[j].0.clone(), target: links[j].1.clone() });
                assert(link_items(pairs_view(links@).take(j + 1)) =~= link_items(pairs_view(links@).take(j as int)).push(ItemV::Link { label: links@[j as int].0@, target: links@[j as int].1@ }));
                assert(items_view(out@) =~= items_view(mid).push(ItemV::Link { label: links@[j as int].0@, target: links@[j as int].1@ }));
                j = j + 1;
            }
            assert(pairs_view(links@).take(links@.len() as int) =~= pairs_view(links@));
            return;
        },
        _ => {
            assert(block_items(b@) =~= Seq::<ItemV>::empty());
            assert(items_view(out@) =~= items_view(before) + block_items(b@));
            return;
        },
    }
    assert(items_view(out@) =~= items_view(before) + block_items(b@));
}

/// Everything on the page the reader can select, in page order.
pub fn collect_items(document: &Document) -> (r: Vec<InteractiveItem>)
    ensures
        items_view(r@) == items_of(document@.blocks),
{
    let bs = &document.blocks;
    let mut out: Vec<InteractiveItem> = Vec::new();
    let mut i: usize = 0;
    while i < bs.len()
        invariant
            i <= bs@.len(),
            document@.blocks == document::blocks_view(bs@),
            items_view(out@) == items_of(document::blocks_view(bs@).take(i as int)),
        decreases bs@.len() - i,
    {
        push_block_items(&mut out, &bs[i]);
        assert(document::blocks_view(bs@).take(i + 1).drop_last() =~= document::blocks_view(bs@).take(i as int));
        i = i + 1;
    }
    assert(document::blocks_view(bs@).take(bs@.len() as int) =~= document::blocks_view(bs@));
    out
}

// ----- Markdown files -----

/// Where reading a Markdown file has got to: the blocks made so far, the
/// lines of the paragraph being read, the items of the list being read,
/// and whether a list is open.
pub ghost struct MdState {
    pub blocks: Seq<BlockV>,
    pub para: Seq<Seq<char>>,
    pub items: Seq<Seq<char>>,
    pub in_list: bool,
}

/// Ends the paragraph being read, if it has any lines: they become one
/// paragraph, joined with spaces.
pub open spec fn flush_para(st: MdState) -> MdState {
    if st.para.len() > 0 {
        MdState {
            blocks: st.blocks.push(BlockV::Paragraph(text::join(st.para, seq![' ']))),
            para: Seq::empty(),
            items: st.items,
            in_list: st.in_list,
        }
    } else {
        st
    }
}

/// Ends the list being read, if it has any items.
pub open spec fn flush_list(st: MdState) -> MdState {
    if st.items.len() > 0 {
        MdState {
            blocks: st.blocks.push(BlockV::List(st.items)),
            para: st.para,
            items: Seq::empty(),
            in_list: st.in_list,
        }
    } else {
        st
    }
}

pub open spec fn with_list_flag(st: MdState, in_list: bool) -> MdState {
    MdState { blocks: st.blocks, para: st.para, items: st.items, in_list }
}

/// The level and text of a `# `, `## ` or `### ` heading line.
pub open spec fn heading_of(t: Seq<char>) -> Option<(u8, Seq<char>)> {
    if t.len() >= 2 && t.take(2) == seq!['#', ' '] {
        Some((1u8, t.skip(2)))
    } else if t.len() >= 3 && t.take(3) == seq!['#', '#', ' '] {
        Some((2u8, t.skip(3)))
    } else if t.len() >= 4 && t.take(4) == seq!['#', '#', '#', ' '] {
        Some((3u8, t.skip(4)))
    } else {
        None
    }
}

/// A list item line: `- `, `* ` or `+ ` and the item's text.
pub open spec fn is_list_item(t: Seq<char>) -> bool {
    t.len() >= 2 && (t[0] == '-' || t[0] == '*' || t[0] == '+') && t[1] == ' '
}

/// What one line of the file does to the state.
pub open spec fn md_step(st: MdState, line: Seq<char>) -> MdState {
    let t = text::trim(line);
    if t.len() == 0 {
        if st.in_list {
            with_list_flag(flush_list(st), false)
        } else {
            flush_para(st)
        }
    } else {
        match heading_of(t) {
            Some((level, rest)) => {
                let s1 = flush_list(flush_para(st));
                MdState {
                    blocks: s1.blocks.push(BlockV::Heading { level, text: rest }),
                    para: s1.para,
                    items: s1.items,
                    in_list: false,
                }
            },
            None => if is_list_item(t) {
                let s1 = flush_para(st);
                let s2 = if !s1.in_list {
                    flush_list(s1)
                } else {
                    s1
                };
                MdState { blocks: s2.blocks, para: s2.para, items: s2.items.push(t.skip(2)), in_list: true }
            } else {
                let s1 = if st.in_list {
                    with_list_flag(flush_list(st), false)
                } else {
                    st
                };
                MdState { blocks: s1.blocks, para: s1.para.push(t), items: s1.items, in_list: s1.in_list }
            },
        }
    }
}

pub open spec fn md_start() -> MdState {
    MdState { blocks: Seq::empty(), para: Seq::empty(), items: Seq::empty(), in_list: false }
}

/// The state after reading `ls` in order.
pub open spec fn md_run(ls: Seq<Seq<char>>) -> MdState
    decreases ls.len(),
{
    if ls.len() == 0 {
        md_start()
    } else {
        md_step(md_run(ls.drop_last()), ls.last())
    }
}

/// The blocks once the file has ended: whatever is still open is closed.
pub open spec fn md_finish(st: MdState) -> Seq<BlockV> {
    if st.in_list {
        flush_list(st).blocks
    } else {
        flush_para(st).blocks
    }
}

/// The blocks a Markdown file shows as.
pub open spec fn md_blocks(source: Seq<char>) -> Seq<BlockV> {
    md_finish(md_run(text::lines(source)))
}

/// A block that is not an empty paragraph or an empty list.
pub open spec fn block_nonempty(b: BlockV) -> bool {
    match b {
        BlockV::List(items) => items.len() > 0,
        BlockV::Paragraph(t) => t.len() > 0,
        _ => true,
    }
}

pub open spec fn all_nonempty(bs: Seq<BlockV>) -> bool {
    forall|k: int| 0 <= k < bs.len() ==> #[trigger] block_nonempty(bs[k])
}

spec fn md_ok(st: MdState) -> bool {
    &&& all_nonempty(st.blocks)
    &&& forall|k: int| 0 <= k < st.para.len() ==> (#[trigger] st.para[k]).len() > 0
}

proof fn lemma_join_nonempty(ls: Seq<Seq<char>>)
    requires
        ls.len() > 0,
        ls.last().len() > 0,
    ensures
        text::join(ls, seq![' ']).len() > 0,
{
}

proof fn lemma_flushes_ok(st: MdState)
    requires
        md_ok(st),
    ensures
        md_ok(flush_para(st)),
        md_ok(flush_list(st)),
        md_ok(flush_list(flush_para(st))),
{
    if st.para.len() > 0 {
        lemma_join_nonempty(st.para);
        let b = flush_para(st).blocks;
        assert forall|k: int| 0 <= k < b.len() implies #[trigger] block_nonempty(b[k]) by {
            if k < st.blocks.len() {
                assert(block_nonempty(st.blocks[k]));
            }
        }
    }
    let s1 = flush_para(st);
    if s1.items.len() > 0 {
        let b = flush_list(s1).blocks;
        assert forall|k: int| 0 <= k < b.len() implies #[trigger] block_nonempty(b[k]) by {
            if k < s1.blocks.len() {
                assert(block_nonempty(s1.blocks[k]));
            }
        }
    }
    if st.items.len() > 0 {
        let b = flush_list(st).blocks;
        assert forall|k: int| 0 <= k < b.len() implies #[trigger] block_nonempty(b[k]) by {
            if k < st.blocks.len() {
                assert(block_nonempty(st.blocks[k]));
            }
        }
    }
}

proof fn lemma_md_run_ok(ls: Seq<Seq<char>>)
    ensures
        md_ok(md_run(ls)),
    decreases ls.len(),
{
    if ls.len() > 0 {
        lemma_md_run_ok(ls.drop_last());
        let st = md_run(ls.drop_last());
        lemma_flushes_ok(st);
        lemma_flushes_ok(flush_para(st));
        let nst = md_run(ls);
        assert forall|k: int| 0 <= k < nst.blocks.len() implies #[trigger] block_nonempty(nst.blocks[k]) by {
            let s1 = flush_list(flush_para(st));
            if k < s1.blocks.len() {
                assert(block_nonempty(s1.blocks[k]));
            }
            let s2 = flush_list(st);
            if k < s2.blocks.len() {
                assert(block_nonempty(s2.blocks[k]));
            }
            let s3 = flush_para(st);
            if k < s3.blocks.len() {
                assert(block_nonempty(s3.blocks[k]));
            }
        }
    }
}

/// A Markdown file never shows as an empty paragraph or an empty list.
pub proof fn lemma_md_blocks_nonempty(source: Seq<char>)
    ensures
        all_nonempty(md_blocks(source)),
{
    let st = md_run(text::lines(source));
    lemma_md_run_ok(text::lines(source));
    lemma_flushes_ok(st);
}

pub open spec fn md_state(blocks: Seq<Block>, para: Seq<Vec<char>>, items: Seq<String>, in_list: bool) -> MdState {
    MdState { blocks: document::blocks_view(blocks), para: text::views(para), items: document::strs(items), in_list }
}

fn flush_para_exec(blocks: &mut Vec<Block>, para: &mut Vec<Vec<char>>, items: &Vec<String>, in_list: bool)
    ensures
        md_state(final(blocks)@, final(para)@, items@, in_list) == flush_para(md_state(old(blocks)@, old(para)@, items@, in_list)),
{
    if para.len() > 0 {
        let sp = [' '];
        let j = text::join_vecs(para.as_slice(), sp.as_slice());
        let ghost before = blocks@;
        blocks.push(Block::Paragraph(text::string_from(j.as_slice())));
        assert(sp@ == seq![' ']);
        assert(document::blocks_view(blocks@) =~= document::blocks_view(before).push(BlockV::Paragraph(text::join(text::views(old(para)@), seq![' ']))));
        *para = Vec::new();
        assert(text::views(para@) =~= Seq::<Seq<char>>::empty());
    }
}

fn flush_list_exec(blocks: &mut Vec<Block>, para: &Vec<Vec<char>>, items: &mut Vec<String>, in_list: bool)
    ensures
        md_state(final(blocks)@, para@, final(items)@, in_list) == flush_list(md_state(old(blocks)@, para@, old(items)@, in_list)),
{
    if items.len() > 0 {
        let ghost before = blocks@;
        let mut taken: Vec<String> = Vec::new();
        std::mem::swap(&mut taken, items);
        blocks.push(Block::List(taken));
        assert(document::blocks_view(blocks@) =~= document::blocks_view(before).push(BlockV::List(document::strs(old(items)@))));
        assert(document::strs(items@) =~= Seq::<Seq<char>>::empty());
    }
}

fn prefix_is(t: &[char], p: &[char]) -> (r: bool)
    ensures
        r == (t@.len() >= p@.len() && t@.take(p@.len() as int) == p@),
{
    let r = text::starts_with(t, p);
    r
}

/// Reads the small Markdown subset that local `.md` pages are shown with:
/// `#`, `##` and `###` headings, `-`, `*` and `+` list items, and
/// paragraphs of the other lines, joined with spaces.
pub fn md_to_jrg_blocks(source: &str) -> (r: Vec<Block>)
    ensures
        document::blocks_view(r@) == md_blocks(source@),
{
    let chars = text::chars_of(source);
    let ls = text::lines_of(chars.as_slice());
    let mut blocks: Vec<Block> = Vec::new();
    let mut para: Vec<Vec<char>> = Vec::new();
    let mut items: Vec<String> = Vec::new();
    let mut in_list = false;
    let h1 = ['#', ' '];
    let h2 = ['#', '#', ' '];
    let h3 = ['#', '#', '#', ' '];
    assert(h1@ == seq!['#', ' ']);
    assert(h2@ == seq!['#', '#', ' ']);
    assert(h3@ == seq!['#', '#', '#', ' ']);
    let mut i: usize = 0;
    assert(document::blocks_view(blocks@) =~= Seq::<BlockV>::empty());
    assert(text::views(para@) =~= Seq::<Seq<char>>::empty());
    assert(document::strs(items@) =~= Seq::<Seq<char>>::empty());
    while i < ls.len()
        invariant
            i <= ls@.len(),
            text::views(ls@) == text::lines(source@),
            h1@ == seq!['#', ' '],
            h2@ == seq!['#', '#', ' '],
            h3@ == seq!['#', '#', '#', ' '],
            md_state(blocks@, para@, items@, in_list) == md_run(text::views(ls@).take(i as int)),
        decreases ls@.len() - i,
    {
        let ghost st0 = md_state(blocks@, para@, items@, in_list);
        assert(text::views(ls@).take(i + 1).drop_last() =~= text::views(ls@).take(i as int));
        let t = text::trimmed(ls[i].as_slice());
        let ghost tv = t@;
        if t.len() == 0 {
            if in_list {
                flush_list_exec(&mut blocks, &para, &mut items, in_list);
                in_list = false;
            } else {
                flush_para_exec(&mut blocks, &mut para, &items, in_list);
            }
        } else {
            let lv: u8 = if prefix_is(t.as_slice(), h1.as_slice()) {
                1
            } else if prefix_is(t.as_slice(), h2.as_slice()) {
                2
            } else if prefix_is(t.as_slice(), h3.as_slice()) {
                3
            } else {
                0
            };
            if lv > 0 {
                let skip: usize = (lv as usize) + 1;
                flush_para_exec(&mut blocks, &mut para, &items, in_list);
                flush_list_exec(&mut blocks, &para, &mut items, in_list);
                in_list = false;
                let rest = text::slice_of(t.as_slice(), skip, t.len());
                let ghost before = blocks@;
                blocks.push(Block::Heading { level: lv, text: text::string_from(rest.as_slice()) });
                assert(rest@ == tv.skip(skip as int));
                assert(document::blocks_view(blocks@) =~= document::blocks_view(before).push(BlockV::Heading { level: lv, text: tv.skip(skip as int) }));
            } else if t.len() >= 2 && (t[0] == '-' || t[0] == '*' || t[0] == '+') && t[1] == ' ' {
                flush_para_exec(&mut blocks, &mut para, &items, in_list);
                if !in_list {
                    flush_list_exec(&mut blocks, &para, &mut items, in_list);
                }
                in_list = true;
                let rest = text::slice_of(t.as_slice(), 2, t.len());
                let ghost before = items@;
                items.push(text::string_from(rest.as_slice()));
                assert(document::strs(items@) =~= document::strs(before).push(tv.skip(2)));
            } else {
                if in_list {
                    flush_list_exec(&mut blocks, &para, &mut items, in_list);
                    in_list = false;
                }
                let ghost before = para@;
                para.push(t);
                assert(text::views(para@) =~= text::views(before).push(tv));
            }
        }
        i = i + 1;
    }
    assert(text::views(ls@).take(ls@.len() as int) =~= text::views(ls@));
    if in_list {
        flush_list_exec(&mut blocks, &para, &mut items, in_list);
    } else {
        flush_para_exec(&mut blocks, &mut para, &items, in_list);
    }
    blocks
}

// ----- A loaded page -----

/// A page as the browser holds it. A page that streams keeps its stream
/// beside this record.
#[derive(Debug, Clone)]
pub struct LoadedPage {
    pub location: PageLocation,
    pub document: Document,
    pub items: Vec<InteractiveItem>,
    pub signature_status: SignatureStatus,
    pub raw_body: Option<String>,
    pub content_type: String,
    pub body_size: usize,
    pub load_time_ms: u64,
}

/// A keystroke in a selected input field.
#[derive(Debug, Clone, Copy, PartialEq, Eq)]
pub enum InputEdit {
    Append(char),
    Backspace,
}

/// The name of the input the selection is on, if it is on one.
pub open spec fn selected_input_name(items: Seq<InteractiveItem>, selected: usize) -> Option<Seq<char>> {
    if selected < items.len() {
        match items[selected as int] {
            InteractiveItem::Input(i) => Some(i.name@),
            _ => None,
        }
    } else {
        None
    }
}

/// The position of the first input block named `name` at or after `k`
/// (the length when there is none).
pub open spec fn input_named_from(bs: Seq<BlockV>, name: Seq<char>, k: int) -> int
    decreases bs.len() - k,
{
    if k < 0 || k >= bs.len() {
        bs.len() as int
    } else if bs[k] matches BlockV::Input(i) && i.name == name {
        k
    } else {
        input_named_from(bs, name, k + 1)
    }
}

pub proof fn lemma_input_named_from(bs: Seq<BlockV>, name: Seq<char>, k: int)
    requires
        0 <= k <= bs.len(),
    ensures
        k <= input_named_from(bs, name, k) <= bs.len(),
        input_named_from(bs, name, k) < bs.len() ==> (bs[input_named_from(bs, name, k)] matches BlockV::Input(i) && i.name == name),
    decreases bs.len() - k,
{
    if k < bs.len() {
        lemma_input_named_from(bs, name, k + 1);
    }
}

/// A value after one keystroke: a character added at the end, or the last
/// one taken away.
pub open spec fn edited_value(v: Seq<char>, e: InputEdit) -> Seq<char> {
    match e {
        InputEdit::Append(c) => v.push(c),
        InputEdit::Backspace => if v.len() > 0 {
            v.drop_last()
        } else {
            v
        },
    }
}

/// Typing a character and then a backspace leaves a value as it was.
pub proof fn lemma_backspace_undoes_append(v: Seq<char>, c: char)
    ensures
        edited_value(edited_value(v, InputEdit::Append(c)), InputEdit::Backspace) == v,
{
    assert(v.push(c).drop_last() =~= v);
}

pub open spec fn with_value(i: InputV, v: Seq<char>) -> InputV {
    InputV { name: i.name, label: i.label, value: v, placeholder: i.placeholder }
}

fn edit_value(v: &String, e: InputEdit) -> (r: String)
    ensures
        r@ == edited_value(v@, e),
{
    let mut cs = text::chars_of(v.as_str());
    match e {
        InputEdit::Append(c) => {
            cs.push(c);
        },
        InputEdit::Backspace => {
            if cs.len() > 0 {
                cs.pop();
            }
        },
    }
    text::string_from(cs.as_slice())
}

/// What a keystroke in the selected input does to the browser and the page;
/// see `edit_selected_input`.
pub open spec fn input_edited(s0: BrowserState, p0: LoadedPage, s1: BrowserState, p1: LoadedPage, edit: InputEdit) -> bool {
    let bs = p0.document@.blocks;
    match selected_input_name(p0.items@, s0.selected) {
        Some(name) => {
            let k = input_named_from(bs, name, 0);
            if k < bs.len() {
                let old_input = bs[k]->Input_0;
                let nv = edited_value(old_input.value, edit);
                &&& p1.document@.blocks == bs.update(k, BlockV::Input(with_value(old_input, nv)))
                &&& p1.document.metadata == p0.document.metadata
                &&& items_view(p1.items@) == items_of(p1.document@.blocks)
                &&& p1 == (LoadedPage { document: p1.document, items: p1.items, ..p0 })
                &&& s1.status@ == "Updated "@ + name + " = "@ + nv
                &&& s1 == (BrowserState { status: s1.status, pending_confirmation: None, ..s0 })
            } else {
                s1 == s0 && p1 == p0
            }
        },
        None => s1 == s0 && p1 == p0,
    }
}

/// Applies a keystroke to the input the selection is on. The first input
/// block with that input's name takes the edit, the status line shows the
/// new value, a pending confirmation is dropped and the items are read
/// again. When the selection is not on an input, or no block has its name,
/// nothing changes.
pub fn edit_selected_input(state: &mut BrowserState, page: &mut LoadedPage, edit: InputEdit)
    ensures
        input_edited(*old(state), *old(page), *final(state), *final(page), edit),
{
    let name = if state.selected < page.items.len() {
        match &page.items[state.selected] {
            InteractiveItem::Input(i) => i.name.clone(),
            _ => {
                return;
            },
        }
    } else {
        return;
    };
    let ghost bs = page.document@.blocks;
    let n = text::chars_of(name.as_str());
    let mut k: usize = 0;
    proof {
        lemma_input_named_from(bs, name@, 0);
    }
    while k < page.document.blocks.len()
        invariant
            k <= page.document.blocks@.len(),
            *page == *old(page),
            *state == *old(state),
            bs == page.document@.blocks,
            n@ == name@,
            selected_input_name(page.items@, state.selected) == Some(name@),
            input_named_from(bs, name@, k as int) == input_named_from(bs, name@, 0),
        decreases page.document.blocks@.len() - k,
    {
        let hit = match &page.document.blocks[k] {
            Block::Input(i) => text::chars_eq(text::chars_of(i.name.as_str()).as_slice(), n.as_slice()),
            _ => false,
        };
        if hit {
            let ghost old_input = bs[k as int]->Input_0;
            let nb = match &page.document.blocks[k] {
                Block::Input(i) => {
                    let nv = edit_value(&i.value, edit);
                    Block::Input(
                        Input {
                            name: i.name.clone(),
                            label: i.label.clone(),
                            value: nv,
                            placeholder: copy_opt(&i.placeholder),
                        },
                    )
                },
                _ => {
                    return;
                },
            };
            let value = match &nb {
                Block::Input(i) => i.value.clone(),
                _ => String::new(),
            };
            page.document.blocks.set(k, nb);
            assert(page.document@.blocks =~= bs.update(k as int, BlockV::Input(with_value(old_input, edited_value(old_input.value, edit)))));
            let mut msg: Vec<char> = Vec::new();
            text::push_str(&mut msg, "Updated ");
            text::push_str(&mut msg, name.as_str());
            text::push_str(&mut msg, " = ");
            text::push_str(&mut msg, value.as_str());
            proof {
                reveal_strlit("Updated ");
                reveal_strlit(" = ");
            }
            state.pending_confirmation = None;
            state.status = text::string_from(msg.as_slice());
            page.items = collect_items(&page.document);
            return;
        }
        k = k + 1;
    }
}

// ----- How a page is shown -----

/// The number of lines `str::lines` finds in `t`.
pub open spec fn line_count(t: Seq<char>) -> int {
    text::lines(t).len() as int
}

/// How many screen lines a block takes: its own lines and a blank line
/// after it; a script takes none.
pub open spec fn block_lines(b: BlockV) -> int {
    match b {
        BlockV::Heading { .. } => 2,
        BlockV::Paragraph(t) => (if line_count(t) > 1 { line_count(t) } else { 1 }) + 1,
        BlockV::Link(_) => 1,
        BlockV::Input(_) => 1,
        BlockV::Button(_) => 1,
        BlockV::Image(_) => 1,
        BlockV::Quote(t) => line_count(t) + 1,
        BlockV::List(items) => items.len() as int + 1,
        BlockV::Rule => 2,
        BlockV::Table(t) => t.rows.len() as int + 3,
        BlockV::Preformatted { code, .. } => line_count(code) + 3,
        BlockV::Script { .. } => 0,
    }
}

fn count_lines(t: &String) -> (r: usize)
    ensures
        r == line_count(t@),
{
    let cs = text::chars_of(t.as_str());
    let ls = text::lines_of(cs.as_slice());
    ls.len()
}

/// The number of screen lines a block takes up.
pub fn block_line_count(block: &Block) -> (r: usize)
    requires
        block_lines(block@) <= usize::MAX,
    ensures
        r == block_lines(block@),
{
    match block {
        Block::Heading { .. } => 2,
        Block::Paragraph(t) => {
            let n = count_lines(t);
            (if n > 1 { n } else { 1 }) + 1
        },
        Block::Link(_) => 1,
        Block::Input(_) => 1,
        Block::Button(_) => 1,
        Block::Image(_) => 1,
        Block::Quote(t) => count_lines(t) + 1,
        Block::List(items) => items.len() + 1,
        Block::Rule => 2,
        Block::Table(t) => t.rows.len() + 3,
        Block::Preformatted { code, .. } => count_lines(code) + 3,
        Block::Script { .. } => 0,
    }
}

/// The status line for a selected input: its name and its value, or its
/// placeholder when the value is empty.
pub open spec fn input_status_text(i: InputV) -> Seq<char> {
    "Input "@ + i.name + " = "@ + if i.value.len() > 0 {
        i.value
    } else {
        match i.placeholder {
            Some(p) => p,
            None => Seq::empty(),
        }
    }
}

pub fn input_status(input: &Input) -> (r: String)
    ensures
        r@ == input_status_text(input@),
{
    let mut out = text::chars_of("Input ");
    text::push_str(&mut out, input.name.as_str());
    text::push_str(&mut out, " = ");
    let v = text::chars_of(input.value.as_str());
    if v.len() > 0 {
        text::push_str(&mut out, input.value.as_str());
    } else {
        match &input.placeholder {
            Some(p) => text::push_str(&mut out, p.as_str()),
            None => {},
        }
    }
    proof {
        reveal_strlit("Input ");
        reveal_strlit(" = ");
        if input.value@.len() == 0 {
            assert(input.value@ =~= Seq::<char>::empty());
        }
    }
    text::string_from(out.as_slice())
}

/// Keeps the selection on an existing item: on the last one when it is
/// past the end, on the first when there are none.
pub fn clamp_selection(state: &mut BrowserState, item_count: usize)
    ensures
        final(state).selected == (if item_count == 0 {
            0
        } else if old(state).selected >= item_count {
            (item_count - 1) as usize
        } else {
            old(state).selected
        }),
        *final(state) == (BrowserState { selected: final(state).selected, ..*old(state) }),
{
    if item_count == 0 {
        state.selected = 0;
    } else if state.selected >= item_count {
        state.selected = item_count - 1;
    }
}

// ----- Network pages -----

/// The target of the first redirect tag.
pub open spec fn first_redirect(tags: Seq<ResponseTagV>) -> Option<Seq<char>>
    decreases tags.len(),
{
    if tags.len() == 0 {
        None
    } else {
        match tags[0] {
            ResponseTagV::Redirect { target } => Some(target),
            _ => first_redirect(tags.drop_first()),
        }
    }
}

/// Where a response sends the reader on, if it redirects.
pub fn redirect_target(response: &Response) -> (r: Option<&str>)
    ensures
        match first_redirect(response@.tags) {
            Some(t) => r matches Some(x) && x@ == t,
            None => r is None,
        },
{
    let mut i: usize = 0;
    assert(response@.tags.skip(0) =~= response@.tags);
    while i < response.tags.len()
        invariant
            i <= response.tags@.len(),
            response@.tags.len() == response.tags@.len(),
            first_redirect(response@.tags.skip(i as int)) == first_redirect(response@.tags),
        decreases response.tags@.len() - i,
    {
        assert(response@.tags.skip(i as int).drop_first() =~= response@.tags.skip(i + 1));
        match &response.tags[i] {
            ResponseTag::Redirect { target } => {
                return Some(target.as_str());
            },
            _ => {},
        }
        i = i + 1;
    }
    None
}

/// The page shown when a network page cannot be loaded.
pub fn network_error_page(location: JaringanUrl, message: String) -> (r: LoadedPage)
    ensures
        r.location@ == LocationV::Network(location@),
        r.document@.blocks == seq![
            BlockV::Heading { level: 1, text: "Network error"@ },
            BlockV::Preformatted { code: message@, language: None },
        ],
        r.document.metadata is None,
        r.items@.len() == 0,
        r.signature_status == SignatureStatus::Unsigned,
        r.raw_body is None,
        r.content_type@ == "error"@,
        r.body_size == 0,
        r.load_time_ms == 0,
{
    let ghost m = message@;
    let blocks = vec![
        Block::Heading { level: 1, text: String::from_str("Network error") },
        Block::Preformatted { code: message, language: None },
    ];
    assert(document::blocks_view(blocks@) =~= seq![
        BlockV::Heading { level: 1, text: "Network error"@ },
        BlockV::Preformatted { code: m, language: None },
    ]);
    LoadedPage {
        location: PageLocation::Network(location),
        document: Document::new(blocks),
        items: Vec::new(),
        signature_status: SignatureStatus::Unsigned,
        raw_body: None,
        content_type: String::from_str("error"),
        body_size: 0,
        load_time_ms: 0,
    }
}

/// The text a response that is not a page is shown as: its body, after a
/// status line and a blank line unless the status is a success.
pub open spec fn response_text_shown(r: Response) -> Seq<char> {
    if r.status == StatusCode::Success {
        r.body@
    } else {
        status_text(r.status) + "\n\n"@ + r.body@
    }
}

/// The document a response shows: a page is parsed; anything else is
/// shown as preformatted text.
pub fn document_from_response(response: &Response) -> (r: Result<Document, ParseError>)
    ensures
        match response.content_type {
            ContentType::JaringanPage => match spec_parse_document(response.body@) {
                Ok(d) => r matches Ok(x) && x@ == d,
                Err(e) => r == Err::<Document, ParseError>(e),
            },
            _ => r matches Ok(d) && d@.metadata is None && d@.blocks == seq![
                BlockV::Preformatted { code: response_text_shown(*response), language: None },
            ],
        },
{
    match response.content_type {
        ContentType::JaringanPage => {
            return parse_document(response.body.as_str());
        },
        _ => {},
    }
    let shown = match response.status {
        StatusCode::Success => response.body.clone(),
        _ => {
            let mut out = text::chars_of("JRG/0.1 ");
            text::push_decimal(&mut out, response.status.as_u16() as usize);
            out.push(' ');
            text::push_str(&mut out, response.status.reason_phrase());
            text::push_str(&mut out, "\n\n");
            text::push_str(&mut out, response.body.as_str());
            proof {
                reveal_strlit("JRG/0.1 ");
                reveal_strlit("\n\n");
                assert(out@ =~= status_text(response.status) + "\n\n"@ + response.body@);
            }
            text::string_from(out.as_slice())
        },
    };
    let ghost code = shown@;
    let blocks = vec![Block::Preformatted { code: shown, language: None }];
    assert(document::blocks_view(blocks@) =~= seq![BlockV::Preformatted { code, language: None }]);
    Ok(Document::new(blocks))
}

/// Where a start target points: a `jrg://` URL is a network page, an
/// `http://` or `https://` URL a web page, anything else a file path.
pub open spec fn start_location(target: Seq<char>) -> Result<LocationV, UrlErrorV> {
    if target.len() >= 6 && target.take(6) == "jrg://"@ {
        match from_parsed(parsed_url(target)) {
            Ok(u) => Ok(LocationV::Network(u)),
            Err(e) => Err(e),
        }
    } else if (target.len() >= 7 && target.take(7) == "http://"@) || (target.len() >= 8 && target.take(8) == "https://"@) {
        Ok(LocationV::Web(target))
    } else {
        Ok(LocationV::File(target))
    }
}

pub open spec fn location_result(r: Result<PageLocation, UrlError>) -> Result<LocationV, UrlErrorV> {
    match r {
        Ok(l) => Ok(l@),
        Err(e) => Err(crate::jrg_url::url_error_view(e)),
    }
}

fn has_prefix(t: &str, p: &str) -> (r: bool)
    ensures
        r == (t@.len() >= p@.len() && t@.take(p@.len() as int) == p@),
{
    let a = text::chars_of(t);
    let b = text::chars_of(p);
    text::starts_with(a.as_slice(), b.as_slice())
}

/// The location a browser session starts at. A file path is kept as
/// given; making it canonical is left to the caller, which has the file
/// system.
pub fn parse_start_location(target: &str) -> (r: Result<PageLocation, UrlError>)
    ensures
        location_result(r) == start_location(target@),
{
    proof {
        reveal_strlit("jrg://");
        reveal_strlit("http://");
        reveal_strlit("https://");
    }
    if has_prefix(target, "jrg://") {
        let u = JaringanUrl::parse(target);
        match u {
            Ok(u) => Ok(PageLocation::Network(u)),
            Err(e) => Err(e),
        }
    } else if has_prefix(target, "http://") || has_prefix(target, "https://") {
        Ok(PageLocation::Web(target.to_string()))
    } else {
        Ok(PageLocation::File(target.to_string()))
    }
}

// ----- Small helpers of the browser -----

/// Whether `p` occurs in `s`.
pub open spec fn contains(s: Seq<char>, p: Seq<char>) -> bool {
    text::find(s, p) is Some
}

fn contains_exec(s: &[char], p: &str) -> (r: bool)
    ensures
        r == contains(s@, p@),
{
    let pv = text::chars_of(p);
    let f = text::find_sub(s, pv.as_slice(), 0);
    f.is_some()
}

/// An address with a port: `:7070`, after any trailing `/` is taken off,
/// unless the address names a port already (after the `]` of a bracketed
/// IPv6 host, or anywhere otherwise).
pub open spec fn with_port(a: Seq<char>) -> Seq<char> {
    let stripped = a.take(text::back_lead(a, '/', 0, a.len() as int));
    if a.len() > 0 && a[0] == '[' {
        let cb = text::char_from(a, ']', 0);
        if cb + 1 < a.len() && a[cb + 1] == ':' {
            a
        } else {
            stripped + ":7070"@
        }
    } else if contains(a, ":"@) {
        a
    } else {
        stripped + ":7070"@
    }
}

fn trim_end_slashes(s: &[char]) -> (r: Vec<char>)
    ensures
        r@ == s@.take(text::back_lead(s@, '/', 0, s@.len() as int)),
{
    let mut hi = s.len();
    while hi > 0 && s[hi - 1] == '/'
        invariant
            hi <= s@.len(),
            text::back_lead(s@, '/', 0, hi as int) == text::back_lead(s@, '/', 0, s@.len() as int),
        decreases hi,
    {
        hi = hi - 1;
    }
    assert(s@.subrange(0, hi as int) =~= s@.take(hi as int));
    text::slice_of(s, 0, hi)
}

/// Appends the default port `7070` to an address that has none.
pub fn ensure_port(addr: &str) -> (r: String)
    ensures
        r@ == with_port(addr@),
{
    let a = text::chars_of(addr);
    proof {
        reveal_strlit(":7070");
        reveal_strlit(":");
        text::lemma_char_from(a@, ']', 0);
    }
    let has_port = if a.len() > 0 && a[0] == '[' {
        let cb = text::find_char(a.as_slice(), ']', 0);
        cb < a.len() && cb + 1 < a.len() && a[cb + 1] == ':'
    } else {
        contains_exec(a.as_slice(), ":")
    };
    if has_port {
        addr.to_string()
    } else {
        let mut out = trim_end_slashes(a.as_slice());
        text::push_str(&mut out, ":7070");
        text::string_from(out.as_slice())
    }
}

/// The file name a download of `url` is saved under: the last piece of
/// the path before any `?`, or `download` when that is empty, `.` or `..`.
pub open spec fn download_name(url: Seq<char>) -> Seq<char> {
    let path = url.take(text::char_from(url, '?', 0));
    let name = text::split_on(path, '/').last();
    if name.len() == 0 || name == "."@ || name == ".."@ {
        "download"@
    } else {
        name
    }
}

pub fn filename_from_url(url: &str) -> (r: String)
    ensures
        r@ == download_name(url@),
{
    let u = text::chars_of(url);
    proof {
        text::lemma_char_from(u@, '?', 0);
        reveal_strlit("download");
        reveal_strlit(".");
        reveal_strlit("..");
    }
    let q = text::find_char(u.as_slice(), '?', 0);
    let path = text::slice_of(u.as_slice(), 0, q);
    assert(path@ =~= u@.take(q as int));
    let parts = text::split_vecs(path.as_slice(), '/');
    proof {
        text::lemma_split_on_len(path@, '/');
    }
    let name = &parts[parts.len() - 1];
    assert(name@ == text::split_on(path@, '/').last());
    let dot = ['.'];
    let dots = ['.', '.'];
    assert(dot@ == "."@);
    assert(dots@ == ".."@);
    if name.len() == 0 || text::chars_eq(name.as_slice(), dot.as_slice()) || text::chars_eq(name.as_slice(), dots.as_slice()) {
        String::from_str("download")
    } else {
        text::string_from(name.as_slice())
    }
}

/// Whether the browser shows a body of this content type itself.
pub open spec fn renderable(ct: Seq<char>) -> bool {
    contains(ct, "jrg"@) || contains(ct, "text/plain"@) || contains(ct, "text/html"@) || contains(ct, "json"@)
        || (ct.len() >= 3 && ct.take(3) == "dir"@) || ct.len() == 0 || contains(ct, "error"@)
}

pub fn is_renderable_content_type(ct: &str) -> (r: bool)
    ensures
        r == renderable(ct@),
{
    let c = text::chars_of(ct);
    let dir = ['d', 'i', 'r'];
    proof {
        reveal_strlit("dir");
    }
    assert(dir@ == "dir"@);
    contains_exec(c.as_slice(), "jrg") || contains_exec(c.as_slice(), "text/plain") || contains_exec(
        c.as_slice(),
        "text/html",
    ) || contains_exec(c.as_slice(), "json") || text::starts_with(c.as_slice(), dir.as_slice()) || c.len() == 0
        || contains_exec(c.as_slice(), "error")
}

/// A local search result's URL as a path: without its `jrg://local/`.
pub open spec fn local_target(url: Seq<char>) -> Seq<char> {
    let p = "jrg://local/"@;
    if url.len() >= p.len() && url.take(p.len() as int) == p {
        url.skip(p.len() as int)
    } else {
        url
    }
}

pub fn local_result_target(url: &str) -> (r: String)
    ensures
        r@ == local_target(url@),
{
    let u = text::chars_of(url);
    let p = text::chars_of("jrg://local/");
    if text::starts_with(u.as_slice(), p.as_slice()) {
        let rest = text::slice_of(u.as_slice(), p.len(), u.len());
        text::string_from(rest.as_slice())
    } else {
        url.to_string()
    }
}

/// The link a search result is listed as.
pub open spec fn result_link(r: SearchResultV) -> BlockV {
    BlockV::Link(document::LinkV {
        target: local_target(r.entry.url),
        label: r.entry.title + " \u{2014} "@ + r.snippet,
    })
}

/// The page that lists the results of a search of local pages.
pub open spec fn results_page(rs: Seq<SearchResultV>, query: Seq<char>) -> Seq<BlockV> {
    seq![BlockV::Heading { level: 1, text: "Search results for "@ + query }] + if rs.len() == 0 {
        seq![BlockV::Paragraph("No results found."@)]
    } else {
        rs.map_values(|r: SearchResultV| result_link(r))
    }
}

pub fn local_search_results_document(index: &SearchIndex, query: &str) -> (r: Document)
    ensures
        r@.blocks == results_page(search_spec(index@, query@), query@),
        r@.metadata is None,
{
    let mut head = text::chars_of("Search results for ");
    text::push_str(&mut head, query);
    let mut blocks: Vec<Block> = vec![Block::Heading { level: 1, text: text::string_from(head.as_slice()) }];
    proof {
        reveal_strlit("Search results for ");
    }
    let results = index.search(query);
    let ghost rv = results_view(results@);
    let ghost first = document::blocks_view(blocks@);
    if results.len() == 0 {
        blocks.push(Block::Paragraph(String::from_str("No results found.")));
        assert(document::blocks_view(blocks@) =~= first.push(BlockV::Paragraph("No results found."@)));
    } else {
        let mut i: usize = 0;
        assert(rv.take(0).map_values(|r: SearchResultV| result_link(r)) =~= Seq::<BlockV>::empty());
        assert(document::blocks_view(blocks@) =~= first + rv.take(0).map_values(|r: SearchResultV| result_link(r)));
        while i < results.len()
            invariant
                i <= results@.len(),
                rv == results_view(results@),
                document::blocks_view(blocks@) == first + rv.take(i as int).map_values(|r: SearchResultV| result_link(r)),
            decreases results@.len() - i,
        {
            let res = &results[i];
            let target = local_result_target(res.entry.url.as_str());
            let mut label = text::chars_of(res.entry.title.as_str());
            text::push_str(&mut label, " \u{2014} ");
            text::push_str(&mut label, res.snippet.as_str());
            let ghost before = blocks@;
            blocks.push(Block::Link(document::Link { target, label: text::string_from(label.as_slice()) }));
            assert(rv.take(i + 1).map_values(|r: SearchResultV| result_link(r)) =~= rv.take(i as int).map_values(|r: SearchResultV| result_link(r)).push(result_link(rv[i as int])));
            assert(document::blocks_view(blocks@) =~= document::blocks_view(before).push(result_link(rv[i as int])));
            i = i + 1;
        }
        assert(rv.take(results@.len() as int) =~= rv);
    }
    Document::new(blocks)
}

/// The lines whose lower-cased text holds the lower-cased query.
pub open spec fn matching_lines(lowered: Seq<Seq<char>>, q: Seq<char>) -> Seq<usize>
    decreases lowered.len(),
{
    if lowered.len() == 0 {
        Seq::empty()
    } else {
        matching_lines(lowered.drop_last(), q) + if contains(lowered.last(), q) {
            seq![(lowered.len() - 1) as usize]
        } else {
            Seq::empty()
        }
    }
}

pub open spec fn strings_view(v: Seq<String>) -> Seq<Seq<char>> {
    v.map_values(|s: String| s@)
}

/// The indices of the lines that hold `q`; the lines and the query are
/// given already lower-cased.
pub fn lines_matching(lowered: &[String], q: &str) -> (r: Vec<usize>)
    ensures
        r@ == matching_lines(strings_view(lowered@), q@),
{
    let mut out: Vec<usize> = Vec::new();
    let mut i: usize = 0;
    while i < lowered.len()
        invariant
            i <= lowered@.len(),
            out@ == matching_lines(strings_view(lowered@).take(i as int), q@),
        decreases lowered@.len() - i,
    {
        let l = text::chars_of(lowered[i].as_str());
        assert(strings_view(lowered@).take(i + 1).drop_last() =~= strings_view(lowered@).take(i as int));
        if contains_exec(l.as_slice(), q) {
            out.push(i);
        }
        i = i + 1;
    }
    assert(strings_view(lowered@).take(lowered@.len() as int) =~= strings_view(lowered@));
    out
}

/// The indices of the shown lines that hold the query, ignoring case;
/// none for an empty query.
pub fn compute_find_matches(lines: &[String], query: &str) -> (r: Vec<usize>)
    ensures
        query@.len() == 0 ==> r@.len() == 0,
        query@.len() > 0 ==> r@ == matching_lines(
            strings_view(lines@).map_values(|l: Seq<char>| text::unicode_lower(l)),
            text::unicode_lower(query@),
        ),
{
    let qc = text::chars_of(query);
    if qc.len() == 0 {
        return Vec::new();
    }
    let q = text::to_lowercase(query);
    let mut lowered: Vec<String> = Vec::new();
    let mut i: usize = 0;
    while i < lines.len()
        invariant
            i <= lines@.len(),
            strings_view(lowered@) == strings_view(lines@).take(i as int).map_values(|l: Seq<char>| text::unicode_lower(l)),
        decreases lines@.len() - i,
    {
        let ghost before = lowered@;
        lowered.push(text::to_lowercase(lines[i].as_str()));
        assert(strings_view(lowered@) =~= strings_view(before).push(text::unicode_lower(lines@[i as int]@)));
        assert(strings_view(lines@).take(i + 1).map_values(|l: Seq<char>| text::unicode_lower(l)) =~= strings_view(lines@).take(i as int).map_values(|l: Seq<char>| text::unicode_lower(l)).push(text::unicode_lower(lines@[i as int]@)));
        i = i + 1;
    }
    assert(strings_view(lines@).take(lines@.len() as int) =~= strings_view(lines@));
    lines_matching(lowered.as_slice(), q.as_str())
}

/// The page a browser opens with when it is given nothing to open.
pub open spec fn welcome_blocks() -> Seq<BlockV> {
    seq![
        BlockV::Heading { level: 1, text: "Welcome to Jaringan"@ },
        BlockV::Paragraph("Jaringan is a terminal-native browser for Jaringan pages - a lightweight, signed page format for local and network content."@),
        BlockV::Heading { level: 2, text: "Getting Started"@ },
        BlockV::Link(document::LinkV { target: "."@, label: "Browse .jrg files in current directory"@ }),
        BlockV::Paragraph("Press Enter on the link above, or run:"@),
        BlockV::Preformatted { code: "  jaringan-browser open <path-or-jrg-url>"@, language: None },
        BlockV::Heading { level: 2, text: "Quick Commands"@ },
        BlockV::List(seq![
            "j/k down/up - Move selection"@,
            "Enter - Open link / press button"@,
            "b/f - Back / Forward"@,
            "H - History panel"@,
            "B - Bookmarks panel"@,
            "Ctrl+d - Bookmark/unbookmark page"@,
            "? - Toggle help"@,
        ]),
        BlockV::Heading { level: 2, text: "Scaffold a New Site"@ },
        BlockV::Paragraph("Create a new Jaringan site with:"@),
        BlockV::Preformatted { code: "  jaringan-browser init ./my-site"@, language: None },
        BlockV::Rule,
        BlockV::Paragraph("Press ? for full help, or q to quit."@),
    ]
}

pub fn welcome_document() -> (r: Document)
    ensures
        r@.blocks == welcome_blocks(),
        r@.metadata is None,
{
    let items = vec![
        String::from_str("j/k down/up - Move selection"),
        String::from_str("Enter - Open link / press button"),
        String::from_str("b/f - Back / Forward"),
        String::from_str("H - History panel"),
        String::from_str("B - Bookmarks panel"),
        String::from_str("Ctrl+d - Bookmark/unbookmark page"),
        String::from_str("? - Toggle help"),
    ];
    assert(document::strs(items@) =~= seq![
        "j/k down/up - Move selection"@,
        "Enter - Open link / press button"@,
        "b/f - Back / Forward"@,
        "H - History panel"@,
        "B - Bookmarks panel"@,
        "Ctrl+d - Bookmark/unbookmark page"@,
        "? - Toggle help"@,
    ]);
    let blocks = vec![
        Block::Heading { level: 1, text: String::from_str("Welcome to Jaringan") },
        Block::Paragraph(String::from_str("Jaringan is a terminal-native browser for Jaringan pages - a lightweight, signed page format for local and network content.")),
        Block::Heading { level: 2, text: String::from_str("Getting Started") },
        Block::Link(document::Link { target: String::from_str("."), label: String::from_str("Browse .jrg files in current directory") }),
        Block::Paragraph(String::from_str("Press Enter on the link above, or run:")),
        Block::Preformatted { code: String::from_str("  jaringan-browser open <path-or-jrg-url>"), language: None },
        Block::Heading { level: 2, text: String::from_str("Quick Commands") },
        Block::List(items),
        Block::Heading { level: 2, text: String::from_str("Scaffold a New Site") },
        Block::Paragraph(String::from_str("Create a new Jaringan site with:")),
        Block::Preformatted { code: String::from_str("  jaringan-browser init ./my-site"), language: None },
        Block::Rule,
        Block::Paragraph(String::from_str("Press ? for full help, or q to quit.")),
    ];
    assert(document::blocks_view(blocks@) =~= welcome_blocks());
    Document::new(blocks)
}

/// The payload the page's inputs make, as its actions send it.
pub fn input_payload(page: &LoadedPage) -> (r: String)
    ensures
        r@ == text::join(input_pairs(page.document@.blocks), seq!['&']),
{
    input_payload_from_blocks(page.document.blocks.as_slice())
}

// ----- Tables on screen -----

/// The widest a table column is drawn.
pub const MAX_COL_WIDTH: usize = 40;

/// The longest of some lines, in characters (0 when there are none).
pub open spec fn longest(ls: Seq<Seq<char>>) -> nat
    decreases ls.len(),
{
    if ls.len() == 0 {
        0
    } else {
        let rest = longest(ls.drop_last());
        if ls.last().len() > rest {
            ls.last().len()
        } else {
            rest
        }
    }
}

/// How wide the rows make a column: the longest line of any cell in it.
pub open spec fn rows_width(rows: Seq<Seq<Seq<char>>>, col: int) -> nat
    decreases rows.len(),
{
    if rows.len() == 0 {
        0
    } else {
        let rest = rows_width(rows.drop_last(), col);
        let w = if 0 <= col < rows.last().len() {
            longest(text::lines(rows.last()[col]))
        } else {
            0
        };
        if w > rest {
            w
        } else {
            rest
        }
    }
}

/// The number of cells in the longest row.
pub open spec fn widest_row(rows: Seq<Seq<Seq<char>>>) -> nat
    decreases rows.len(),
{
    if rows.len() == 0 {
        0
    } else {
        let rest = widest_row(rows.drop_last());
        if rows.last().len() > rest {
            rows.last().len()
        } else {
            rest
        }
    }
}

/// The number of columns a table is drawn with.
pub open spec fn column_count(t: document::TableV) -> nat {
    if t.headers.len() > widest_row(t.rows) {
        t.headers.len()
    } else {
        widest_row(t.rows)
    }
}

/// The width of column `col`: its header or widest cell line, at most
/// `MAX_COL_WIDTH`.
pub open spec fn column_width(t: document::TableV, col: int) -> usize {
    let h = if 0 <= col < t.headers.len() {
        t.headers[col].len()
    } else {
        0
    };
    let r = rows_width(t.rows, col);
    let w = if h > r {
        h
    } else {
        r
    };
    if w > MAX_COL_WIDTH {
        MAX_COL_WIDTH
    } else {
        w as usize
    }
}

pub open spec fn column_widths(t: document::TableV) -> Seq<usize> {
    Seq::new(column_count(t), |c: int| column_width(t, c))
}

fn longest_line(cell: &String) -> (r: usize)
    ensures
        r == longest(text::lines(cell@)),
{
    let cs = text::chars_of(cell.as_str());
    let ls = text::lines_of(cs.as_slice());
    let mut best: usize = 0;
    let mut i: usize = 0;
    while i < ls.len()
        invariant
            i <= ls@.len(),
            text::views(ls@) == text::lines(cell@),
            best == longest(text::views(ls@).take(i as int)),
        decreases ls@.len() - i,
    {
        assert(text::views(ls@).take(i + 1).drop_last() =~= text::views(ls@).take(i as int));
        if ls[i].len() > best {
            best = ls[i].len();
        }
        i = i + 1;
    }
    assert(text::views(ls@).take(ls@.len() as int) =~= text::views(ls@));
    best
}

/// The width of every column of a table.
pub fn table_column_widths(table: &Table) -> (r: Vec<usize>)
    ensures
        r@ == column_widths(table@),
{
    let ghost t = table@;
    let mut cols: usize = table.headers.len();
    let mut k: usize = 0;
    while k < table.rows.len()
        invariant
            k <= table.rows@.len(),
            t == table@,
            cols == (if t.headers.len() > widest_row(t.rows.take(k as int)) {
                t.headers.len()
            } else {
                widest_row(t.rows.take(k as int))
            }),
        decreases table.rows@.len() - k,
    {
        assert(t.rows.take(k + 1).drop_last() =~= t.rows.take(k as int));
        if table.rows[k].len() > cols {
            cols = table.rows[k].len();
        }
        k = k + 1;
    }
    assert(t.rows.take(table.rows@.len() as int) =~= t.rows);
    let mut widths: Vec<usize> = Vec::new();
    let mut col: usize = 0;
    while col < cols
        invariant
            col <= cols,
            cols == column_count(t),
            t == table@,
            widths@ == column_widths(t).take(col as int),
        decreases cols - col,
    {
        let mut w: usize = if col < table.headers.len() {
            text::chars_of(table.headers[col].as_str()).len()
        } else {
            0
        };
        let ghost h = w;
        let mut r: usize = 0;
        let mut j: usize = 0;
        while j < table.rows.len()
            invariant
                j <= table.rows@.len(),
                t == table@,
                r == rows_width(t.rows.take(j as int), col as int),
            decreases table.rows@.len() - j,
        {
            assert(t.rows.take(j + 1).drop_last() =~= t.rows.take(j as int));
            if col < table.rows[j].len() {
                let lw = longest_line(&table.rows[j][col]);
                if lw > r {
                    r = lw;
                }
            }
            j = j + 1;
        }
        assert(t.rows.take(table.rows@.len() as int) =~= t.rows);
        if r > w {
            w = r;
        }
        if w > MAX_COL_WIDTH {
            w = MAX_COL_WIDTH;
        }
        widths.push(w);
        assert(column_widths(t).take(col + 1) =~= column_widths(t).take(col as int).push(column_width(t, col as int)));
        col = col + 1;
    }
    assert(column_widths(t).take(cols as int) =~= column_widths(t));
    widths
}

/// `n` copies of `c`.
pub open spec fn run_of(c: char, n: nat) -> Seq<char> {
    Seq::new(n, |i: int| c)
}

/// A line between table rows, drawn with `c`: each column `width + 2` wide.
pub open spec fn separator_text(widths: Seq<usize>, c: char) -> Seq<char> {
    "  \u{251c}"@ + text::join(widths.map_values(|w: usize| run_of(c, (w + 2) as nat)), seq!['\u{253c}']) + seq!['\u{2524}']
}

fn push_run(out: &mut Vec<char>, c: char, n: usize)
    ensures
        final(out)@ == old(out)@ + run_of(c, n as nat),
{
    let mut i: usize = 0;
    while i < n
        invariant
            i <= n,
            out@ == old(out)@ + run_of(c, i as nat),
        decreases n - i,
    {
        out.push(c);
        i = i + 1;
        assert(out@ =~= old(out)@ + run_of(c, i as nat));
    }
}

fn separator_with(widths: &[usize], c: char) -> (r: String)
    requires
        forall|i: int| 0 <= i < widths@.len() ==> widths@[i] + 2 <= usize::MAX,
    ensures
        r@ == separator_text(widths@, c),
{
    let mut out = text::chars_of("  \u{251c}");
    let ghost base = out@;
    let ghost runs = widths@.map_values(|w: usize| run_of(c, (w + 2) as nat));
    let mut i: usize = 0;
    assert(runs.take(0) =~= Seq::<Seq<char>>::empty());
    while i < widths.len()
        invariant
            i <= widths@.len(),
            forall|k: int| 0 <= k < widths@.len() ==> widths@[k] + 2 <= usize::MAX,
            runs == widths@.map_values(|w: usize| run_of(c, (w + 2) as nat)),
            out@ == base + text::join(runs.take(i as int), seq!['\u{253c}']),
        decreases widths@.len() - i,
    {
        assert(runs.take(i + 1).drop_last() =~= runs.take(i as int));
        if i > 0 {
            out.push('\u{253c}');
        }
        push_run(&mut out, c, widths[i] + 2);
        proof {
            let j = runs.take(i as int);
            if i == 0 {
                assert(out@ =~= base + runs.take(1)[0]);
            } else {
                assert(out@ =~= base + (text::join(j, seq!['\u{253c}']) + seq!['\u{253c}'] + runs[i as int]));
            }
        }
        i = i + 1;
    }
    assert(runs.take(widths@.len() as int) =~= runs);
    out.push('\u{2524}');
    text::string_from(out.as_slice())
}

/// The line under a table's header.
pub fn browser_table_separator(widths: &[usize]) -> (r: String)
    requires
        forall|i: int| 0 <= i < widths@.len() ==> widths@[i] + 2 <= usize::MAX,
    ensures
        r@ == separator_text(widths@, '\u{2500}'),
{
    separator_with(widths, '\u{2500}')
}

/// The thin line between the lines of a row whose cells span lines.
pub fn browser_table_row_separator(widths: &[usize]) -> (r: String)
    requires
        forall|i: int| 0 <= i < widths@.len() ==> widths@[i] + 2 <= usize::MAX,
    ensures
        r@ == separator_text(widths@, '\u{2504}'),
{
    separator_with(widths, '\u{2504}')
}

/// A cell cut to its column: when wider, one character short of the width
/// and an ellipsis.
pub open spec fn fitted(cell: Seq<char>, w: nat) -> Seq<char> {
    if cell.len() > w {
        cell.take(if w >= 1 {
            w - 1
        } else {
            0
        }) + seq!['\u{2026}']
    } else {
        cell
    }
}

/// `s` filled with spaces on the right up to `w` characters.
pub open spec fn padded(s: Seq<char>, w: nat) -> Seq<char> {
    if s.len() >= w {
        s
    } else {
        s + run_of(' ', (w - s.len()) as nat)
    }
}

/// One cell as drawn: a space, the fitted text left-aligned in its width, a
/// space and the column's right border.
pub open spec fn cell_text(cell: Seq<char>, w: nat) -> Seq<char> {
    seq![' '] + padded(fitted(cell, w), w) + seq![' ', '\u{2502}']
}

pub open spec fn cell_at(row: Seq<Seq<char>>, i: int) -> Seq<char> {
    if 0 <= i < row.len() {
        row[i]
    } else {
        Seq::empty()
    }
}

/// A table line: an indent and left border, then every column's cell; a
/// row with fewer cells than columns is drawn with empty cells.
pub open spec fn row_text(row: Seq<Seq<char>>, widths: Seq<usize>) -> Seq<char> {
    "  \u{2502}"@ + Seq::new(widths.len(), |i: int| cell_text(cell_at(row, i), widths[i] as nat)).flatten()
}

fn cell_exec(out: &mut Vec<char>, cell: &[char], w: usize)
    ensures
        final(out)@ == old(out)@ + cell_text(cell@, w as nat),
{
    out.push(' ');
    let ghost start = out@;
    let shown: Vec<char> = if cell.len() > w {
        let keep = if w >= 1 { w - 1 } else { 0 };
        let mut v = text::slice_of(cell, 0, keep);
        v.push('\u{2026}');
        assert(v@ =~= cell@.take(keep as int) + seq!['\u{2026}']);
        v
    } else {
        text::copy_chars(cell)
    };
    text::push_chars(out, shown.as_slice());
    if shown.len() < w {
        push_run(out, ' ', w - shown.len());
    }
    out.push(' ');
    out.push('\u{2502}');
    assert(out@ =~= old(out)@ + cell_text(cell@, w as nat));
}

/// The text of one table line.
pub fn browser_table_row(row: &[String], widths: &[usize]) -> (r: String)
    ensures
        r@ == row_text(document::strs(row@), widths@),
{
    let mut out = text::chars_of("  \u{2502}");
    let ghost base = out@;
    let ghost cells = Seq::new(widths@.len(), |i: int| cell_text(cell_at(document::strs(row@), i), widths@[i] as nat));
    let mut i: usize = 0;
    assert(cells.take(0) =~= Seq::<Seq<char>>::empty());
    while i < widths.len()
        invariant
            i <= widths@.len(),
            cells == Seq::new(widths@.len(), |i: int| cell_text(cell_at(document::strs(row@), i), widths@[i] as nat)),
            out@ == base + cells.take(i as int).flatten(),
        decreases widths@.len() - i,
    {
        let cell: Vec<char> = if i < row.len() {
            text::chars_of(row[i].as_str())
        } else {
            Vec::new()
        };
        assert(cell@ == cell_at(document::strs(row@), i as int));
        let ghost before = out@;
        cell_exec(&mut out, cell.as_slice(), widths[i]);
        proof {
            assert(cells.take(i + 1) =~= cells.take(i as int).push(cells[i as int]));
            cells.take(i as int).lemma_flatten_push(cells[i as int]);
            assert(out@ =~= base + cells.take(i + 1).flatten());
        }
        i = i + 1;
    }
    assert(cells.take(widths@.len() as int) =~= cells);
    text::string_from(out.as_slice())
}

/// How many lines a row's tallest cell has (at least one).
pub open spec fn row_height(cells: Seq<Seq<char>>) -> nat
    decreases cells.len(),
{
    if cells.len() == 0 {
        1
    } else {
        let rest = row_height(cells.drop_last());
        let h = if line_count(cells.last()) > 1 {
            line_count(cells.last()) as nat
        } else {
            1
        };
        if h > rest {
            h
        } else {
            rest
        }
    }
}

/// The `k`th line of each cell of a row, over `columns` columns.
pub open spec fn sub_row(row: Seq<Seq<char>>, columns: nat, k: int) -> Seq<Seq<char>> {
    Seq::new(columns, |c: int| {
        let ls = text::lines(cell_at(row, c));
        if 0 <= k < ls.len() {
            ls[k]
        } else {
            Seq::empty()
        }
    })
}

/// The first `n` lines of a row whose cells span lines, with a thin
/// separator between each two.
pub open spec fn sub_lines(row: Seq<Seq<char>>, widths: Seq<usize>, n: nat) -> Seq<Seq<char>>
    decreases n,
{
    if n == 0 {
        Seq::empty()
    } else {
        sub_lines(row, widths, (n - 1) as nat) + (if n > 1 {
            seq![separator_text(widths, '\u{2504}')]
        } else {
            Seq::empty()
        }) + seq![row_text(sub_row(row, widths.len(), n - 1), widths)]
    }
}

/// The lines a row is drawn as.
pub open spec fn row_lines(row: Seq<Seq<char>>, widths: Seq<usize>) -> Seq<Seq<char>> {
    if row_height(row) > 1 {
        sub_lines(row, widths, row_height(row))
    } else {
        seq![row_text(row, widths)]
    }
}

/// The lines of a table as drawn: the header, the line under it, then
/// each row; nothing for a table without columns.
pub open spec fn table_lines(t: document::TableV) -> Seq<Seq<char>> {
    let ws = column_widths(t);
    if column_count(t) == 0 {
        Seq::empty()
    } else {
        seq![row_text(t.headers, ws), separator_text(ws, '\u{2500}')] + t.rows.map_values(
            |r: Seq<Seq<char>>| row_lines(r, ws),
        ).flatten()
    }
}

fn row_height_exec(row: &Vec<String>) -> (r: usize)
    ensures
        r == row_height(document::strs(row@)),
{
    let mut h: usize = 1;
    let mut i: usize = 0;
    while i < row.len()
        invariant
            i <= row@.len(),
            h == row_height(document::strs(row@).take(i as int)),
        decreases row@.len() - i,
    {
        assert(document::strs(row@).take(i + 1).drop_last() =~= document::strs(row@).take(i as int));
        let n = count_lines(&row[i]);
        let c = if n > 1 { n } else { 1 };
        if c > h {
            h = c;
        }
        i = i + 1;
    }
    assert(document::strs(row@).take(row@.len() as int) =~= document::strs(row@));
    h
}

fn sub_row_exec(row: &Vec<String>, columns: usize, k: usize) -> (r: Vec<String>)
    ensures
        document::strs(r@) == sub_row(document::strs(row@), columns as nat, k as int),
{
    let mut out: Vec<String> = Vec::new();
    let mut c: usize = 0;
    while c < columns
        invariant
            c <= columns,
            document::strs(out@) == sub_row(document::strs(row@), columns as nat, k as int).take(c as int),
        decreases columns - c,
    {
        let piece: String = if c < row.len() {
            let cs = text::chars_of(row[c].as_str());
            let ls = text::lines_of(cs.as_slice());
            if k < ls.len() {
                text::string_from(ls[k].as_slice())
            } else {
                String::new()
            }
        } else {
            String::new()
        };
        let ghost before = out@;
        out.push(piece);
        assert(document::strs(out@) =~= document::strs(before).push(piece@));
        assert(sub_row(document::strs(row@), columns as nat, k as int).take(c + 1) =~= sub_row(
            document::strs(row@),
            columns as nat,
            k as int,
        ).take(c as int).push(piece@));
        c = c + 1;
    }
    assert(sub_row(document::strs(row@), columns as nat, k as int).take(columns as int) =~= sub_row(
        document::strs(row@),
        columns as nat,
        k as int,
    ));
    out
}

/// The text of the lines a table is drawn as.
pub fn render_browser_table(table: &Table) -> (r: Vec<String>)
    ensures
        strings_view(r@) == table_lines(table@),
{
    let ghost t = table@;
    let widths = table_column_widths(table);
    let ghost ws = widths@;
    if widths.len() == 0 {
        return Vec::new();
    }
    assert(forall|i: int| 0 <= i < ws.len() ==> ws[i] <= MAX_COL_WIDTH);
    let mut out: Vec<String> = Vec::new();
    out.push(browser_table_row(table.headers.as_slice(), widths.as_slice()));
    out.push(browser_table_separator(widths.as_slice()));
    let ghost head = strings_view(out@);
    let ghost rl = t.rows.map_values(|r: Seq<Seq<char>>| row_lines(r, ws));
    assert(rl.take(0) =~= Seq::<Seq<Seq<char>>>::empty());
    assert(strings_view(out@) =~= head + rl.take(0).flatten());
    let mut i: usize = 0;
    while i < table.rows.len()
        invariant
            i <= table.rows@.len(),
            t == table@,
            ws == widths@,
            ws == column_widths(t),
            forall|j: int| 0 <= j < ws.len() ==> ws[j] <= MAX_COL_WIDTH,
            rl == t.rows.map_values(|r: Seq<Seq<char>>| row_lines(r, ws)),
            strings_view(out@) == head + rl.take(i as int).flatten(),
        decreases table.rows@.len() - i,
    {
        let row = &table.rows[i];
        let ghost rv = document::strs(row@);
        assert(rv == t.rows[i as int]);
        let ghost before = strings_view(out@);
        let h = row_height_exec(row);
        if h > 1 {
            let mut k: usize = 0;
            while k < h
                invariant
                    k <= h,
                    h == row_height(rv),
                    rv == document::strs(row@),
                    forall|j: int| 0 <= j < ws.len() ==> ws[j] <= MAX_COL_WIDTH,
                    ws == widths@,
                    strings_view(out@) == before + sub_lines(rv, ws, k as nat),
                decreases h - k,
            {
                let ghost mid = strings_view(out@);
                let ghost sep: Seq<Seq<char>> = if k > 0 {
                    seq![separator_text(ws, '\u{2504}')]
                } else {
                    Seq::empty()
                };
                if k > 0 {
                    let line = browser_table_row_separator(widths.as_slice());
                    out.push(line);
                    assert(strings_view(out@) =~= mid + sep);
                } else {
                    assert(strings_view(out@) =~= mid + sep);
                }
                let ghost mid2 = strings_view(out@);
                let sub = sub_row_exec(row, widths.len(), k);
                let line = browser_table_row(sub.as_slice(), widths.as_slice());
                out.push(line);
                assert(strings_view(out@) =~= mid2.push(line@));
                assert(line@ == row_text(sub_row(rv, ws.len(), k as int), ws));
                assert(sub_lines(rv, ws, (k + 1) as nat) == sub_lines(rv, ws, k as nat) + sep + seq![row_text(sub_row(rv, ws.len(), k as int), ws)]);
                assert(strings_view(out@) =~= before + sub_lines(rv, ws, (k + 1) as nat));
                k = k + 1;
            }
        } else {
            out.push(browser_table_row(row.as_slice(), widths.as_slice()));
            assert(strings_view(out@) =~= before + seq![row_text(rv, ws)]);
        }
        proof {
            assert(rl.take(i + 1) =~= rl.take(i as int).push(row_lines(rv, ws)));
            rl.take(i as int).lemma_flatten_push(row_lines(rv, ws));
        }
        i = i + 1;
    }
    assert(rl.take(table.rows@.len() as int) =~= rl);
    out
}

// ----- Selected text -----

/// A position in the shown lines: a row and a column, in characters.
#[derive(Debug, Clone, Copy, PartialEq, Eq)]
pub struct TextSelectPos {
    pub row: u16,
    pub col: u16,
}

pub open spec fn min_nat(a: int, b: int) -> int {
    if a < b {
        a
    } else {
        b
    }
}

/// The part of line `r` a selection covers: between the two columns on a
/// one-line selection, from the first column on the first line, up to the
/// last column on the last line, and all of a line in between.
pub open spec fn selected_piece(l: Seq<char>, r: int, lo: int, hi: int, cs: int, ce: int) -> Seq<char> {
    let n = l.len() as int;
    if r == lo && r == hi {
        let a = min_nat(cs, n);
        let b = if min_nat(ce, n) > a {
            min_nat(ce, n)
        } else {
            a
        };
        l.subrange(a, b)
    } else if r == lo {
        l.skip(min_nat(cs, n))
    } else if r == hi {
        l.take(min_nat(ce, n))
    } else {
        l
    }
}

/// The selected text of rows `r` to `hi`: each row that exists gives its
/// piece and, before the last row, a line break.
pub open spec fn selected_rows(lines: Seq<Seq<char>>, r: int, lo: int, hi: int, cs: int, ce: int) -> Seq<char>
    decreases hi + 1 - r,
{
    if r > hi {
        Seq::empty()
    } else if r >= lines.len() {
        selected_rows(lines, r + 1, lo, hi, cs, ce)
    } else {
        selected_piece(lines[r], r, lo, hi, cs, ce) + (if r < hi {
            seq!['\n']
        } else {
            Seq::empty()
        }) + selected_rows(lines, r + 1, lo, hi, cs, ce)
    }
}

/// The text between two positions: the rows between them, the first cut
/// at the upper position's column and the last at the lower one's.
pub open spec fn selected_text(lines: Seq<Seq<char>>, start: TextSelectPos, end: TextSelectPos) -> Seq<char> {
    let lo = min_nat(start.row as int, end.row as int);
    let hi = if start.row > end.row {
        start.row as int
    } else {
        end.row as int
    };
    let cs = if start.row < end.row {
        start.col as int
    } else {
        end.col as int
    };
    let ce = if start.row < end.row {
        end.col as int
    } else {
        start.col as int
    };
    selected_rows(lines, lo, lo, hi, cs, ce)
}

/// The text of the shown lines between two positions.
pub fn extract_selected_text(lines: &[String], start: TextSelectPos, end: TextSelectPos) -> (r: String)
    ensures
        r@ == selected_text(strings_view(lines@), start, end),
{
    let lo: usize = if start.row < end.row { start.row as usize } else { end.row as usize };
    let hi: usize = if start.row > end.row { start.row as usize } else { end.row as usize };
    let cs: usize = if start.row < end.row { start.col as usize } else { end.col as usize };
    let ce: usize = if start.row < end.row { end.col as usize } else { start.col as usize };
    let ghost ls = strings_view(lines@);
    let mut out: Vec<char> = Vec::new();
    let mut row: usize = lo;
    while row <= hi
        invariant
            lo <= row <= hi + 1,
            hi <= u16::MAX,
            ls == strings_view(lines@),
            out@ + selected_rows(ls, row as int, lo as int, hi as int, cs as int, ce as int) == selected_rows(ls, lo as int, lo as int, hi as int, cs as int, ce as int),
        decreases hi + 1 - row,
    {
        if row < lines.len() {
            let l = text::chars_of(lines[row].as_str());
            let n = l.len();
            let ghost before = out@;
            let piece: Vec<char> = if row == lo && row == hi {
                let a = if cs < n { cs } else { n };
                let e = if ce < n { ce } else { n };
                let b = if e > a { e } else { a };
                text::slice_of(l.as_slice(), a, b)
            } else if row == lo {
                let a = if cs < n { cs } else { n };
                text::slice_of(l.as_slice(), a, n)
            } else if row == hi {
                let e = if ce < n { ce } else { n };
                text::slice_of(l.as_slice(), 0, e)
            } else {
                l
            };
            assert(piece@ =~= selected_piece(ls[row as int], row as int, lo as int, hi as int, cs as int, ce as int));
            text::push_chars(&mut out, piece.as_slice());
            if row < hi {
                out.push('\n');
            }
        }
        row = row + 1;
    }
    text::string_from(out.as_slice())
}

// ----- Pressing a button -----

/// What pressing a button leads to once it is confirmed. The steps that
/// send or search are carried out by the caller, which has the network
/// and the file system.
#[derive(Debug)]
pub enum ButtonStep {
    /// The button asks to be confirmed; its prompt is on the status line.
    AskConfirm,
    /// The payload is posted to this URL over the network.
    PostNetwork { url: JaringanUrl, payload: String, auth: Option<String> },
    /// The payload is posted to a page of the local site that holds the
    /// current file.
    PostLocal { url: JaringanUrl, payload: String, auth: Option<String> },
    /// The local site's pages are searched for this query.
    SearchLocal { query: String },
    /// Nothing is sent; the status line names the confirmed action.
    Confirmed,
    /// The action's target does not make a URL.
    BadTarget(UrlError),
}

pub ghost enum ButtonStepV {
    AskConfirm,
    PostNetwork { url: JaringanUrlV, payload: Seq<char>, auth: Option<Seq<char>> },
    PostLocal { url: JaringanUrlV, payload: Seq<char>, auth: Option<Seq<char>> },
    SearchLocal { query: Seq<char> },
    Confirmed,
    BadTarget(UrlErrorV),
}

impl View for ButtonStep {
    type V = ButtonStepV;

    open spec fn view(&self) -> ButtonStepV {
        match self {
            ButtonStep::AskConfirm => ButtonStepV::AskConfirm,
            ButtonStep::PostNetwork { url, payload, auth } => ButtonStepV::PostNetwork {
                url: url@,
                payload: payload@,
                auth: opt_str(*auth),
            },
            ButtonStep::PostLocal { url, payload, auth } => ButtonStepV::PostLocal {
                url: url@,
                payload: payload@,
                auth: opt_str(*auth),
            },
            ButtonStep::SearchLocal { query } => ButtonStepV::SearchLocal { query: query@ },
            ButtonStep::Confirmed => ButtonStepV::Confirmed,
            ButtonStep::BadTarget(e) => ButtonStepV::BadTarget(crate::jrg_url::url_error_view(*e)),
        }
    }
}

/// `t` without the `./` pieces it starts with.
pub open spec fn strip_dot_slash(t: Seq<char>) -> Seq<char>
    decreases t.len(),
{
    if t.len() >= 2 && t[0] == '.' && t[1] == '/' {
        strip_dot_slash(t.skip(2))
    } else {
        t
    }
}

/// The URL text a local action target is posted to.
pub open spec fn local_action_text(target: Seq<char>) -> Seq<char> {
    if target.len() > 0 && target[0] == '/' {
        "jrg://localhost"@ + target
    } else {
        "jrg://localhost/"@ + strip_dot_slash(target)
    }
}

fn local_action_exec(target: &str) -> (r: String)
    ensures
        r@ == local_action_text(target@),
{
    let t = text::chars_of(target);
    proof {
        reveal_strlit("jrg://localhost");
        reveal_strlit("jrg://localhost/");
    }
    if t.len() > 0 && t[0] == '/' {
        let mut out = text::chars_of("jrg://localhost");
        text::push_chars(&mut out, t.as_slice());
        return text::string_from(out.as_slice());
    }
    let mut i: usize = 0;
    assert(t@.skip(0) =~= t@);
    while i < t.len() && t.len() - i >= 2 && t[i] == '.' && t[i + 1] == '/'
        invariant
            i <= t@.len(),
            strip_dot_slash(t@.skip(i as int)) == strip_dot_slash(t@),
        decreases t@.len() - i,
    {
        assert(t@.skip(i as int).skip(2) =~= t@.skip(i + 2));
        i = i + 2;
    }
    let rest = text::slice_of(t.as_slice(), i, t.len());
    assert(rest@ =~= t@.skip(i as int));
    let mut out = text::chars_of("jrg://localhost/");
    text::push_chars(&mut out, rest.as_slice());
    text::string_from(out.as_slice())
}

/// The payload a page's inputs make.
pub open spec fn page_payload(bs: Seq<BlockV>) -> Seq<char> {
    text::join(input_pairs(bs), seq!['&'])
}

/// The query of a local search: the payload's `q`, or nothing.
pub open spec fn search_query(payload: Seq<char>) -> Seq<char> {
    match first_payload_value(text::split_on(payload, '&'), "q"@) {
        Some(v) => v,
        None => Seq::empty(),
    }
}

/// What a confirmed button does from a page at `loc`: a POST from a
/// network page goes to the target read against the page's URL, a POST
/// from a file to the target on the local site, a GET of `/search` from a
/// file searches the local site, and anything else only confirms.
pub open spec fn button_step(loc: LocationV, bs: Seq<BlockV>, b: ButtonV) -> ButtonStepV {
    let payload = page_payload(bs);
    match (loc, b.method) {
        (LocationV::Network(cur), ActionMethod::Post) => match from_parsed(joined_url(cur.serialization, b.target)) {
            Ok(u) => ButtonStepV::PostNetwork { url: u, payload, auth: b.auth },
            Err(e) => ButtonStepV::BadTarget(e),
        },
        (LocationV::File(_), ActionMethod::Post) => match from_parsed(parsed_url(local_action_text(b.target))) {
            Ok(u) => ButtonStepV::PostLocal { url: u, payload, auth: b.auth },
            Err(e) => ButtonStepV::BadTarget(e),
        },
        (LocationV::File(_), ActionMethod::Get) => if b.target == "/search"@ {
            ButtonStepV::SearchLocal { query: search_query(payload) }
        } else {
            ButtonStepV::Confirmed
        },
        _ => ButtonStepV::Confirmed,
    }
}

/// ` (unnamed action)` after a status when the button has no label.
pub open spec fn with_unnamed(status: Seq<char>, label: Seq<char>) -> Seq<char> {
    if label.len() == 0 {
        status + " (unnamed action)"@
    } else {
        status
    }
}

/// The status line of an action that only confirms.
pub open spec fn confirmed_status(b: ButtonV, bs: Seq<BlockV>) -> Seq<char> {
    let head = match b.method {
        ActionMethod::Get => "Confirmed GET action: "@,
        ActionMethod::Post => "Confirmed POST action: "@,
    };
    with_unnamed(head + with_payload(b.target, page_payload(bs)), b.label)
}

fn status_with_unnamed(mut out: Vec<char>, label: &String) -> (r: String)
    ensures
        r@ == with_unnamed(out@, label@),
{
    let l = text::chars_of(label.as_str());
    if l.len() == 0 {
        text::push_str(&mut out, " (unnamed action)");
    }
    text::string_from(out.as_slice())
}

/// What pressing a button decides; see `plan_button`.
pub open spec fn button_planned(s0: BrowserState, s1: BrowserState, page: LoadedPage, action: ButtonAction, r: ButtonStepV) -> bool {
    let same = match s0.pending_confirmation {
        Some(p) => p.id@ == action.id@ && p.target@ == action.target@,
        None => false,
    };
    &&& s1 == (BrowserState { status: s1.status, pending_confirmation: s1.pending_confirmation, ..s0 })
    &&& if action.confirm is Some && !same {
        &&& r == ButtonStepV::AskConfirm
        &&& s1.status@ == action.confirm->0@ + " Press Enter again to confirm."@
        &&& s1.pending_confirmation matches Some(p) && p.id@ == action.id@ && p.target@ == action.target@
    } else {
        &&& r == button_step(page.location@, page.document@.blocks, action@)
        &&& s1.pending_confirmation is None
        &&& r == ButtonStepV::Confirmed ==> s1.status@ == confirmed_status(action@, page.document@.blocks)
        &&& r != ButtonStepV::Confirmed ==> s1.status == s0.status
    }
}

/// Decides what pressing a button does. A button with a prompt that was
/// not just pressed asks for confirmation (see `confirm_action`);
/// otherwise a pending confirmation is dropped and the step follows
/// `button_step`. An action that only confirms sets the status line.
pub fn plan_button(state: &mut BrowserState, page: &LoadedPage, action: &ButtonAction) -> (r: ButtonStep)
    ensures
        button_planned(*old(state), *final(state), *page, *action, r@),
{
    let confirm: Option<&str> = match &action.confirm {
        Some(c) => Some(c.as_str()),
        None => None,
    };
    let go = confirm_action(state, action.id.as_str(), action.target.as_str(), confirm);
    if !go {
        return ButtonStep::AskConfirm;
    }
    let payload = input_payload(page);
    proof {
        reveal_strlit("/search");
        reveal_strlit("q");
    }
    match (&page.location, action.method) {
        (PageLocation::Network(cur), ActionMethod::Post) => {
            match cur.resolve(action.target.as_str()) {
                Ok(u) => ButtonStep::PostNetwork { url: u, payload, auth: copy_opt(&action.auth) },
                Err(e) => ButtonStep::BadTarget(e),
            }
        },
        (PageLocation::File(_), ActionMethod::Post) => {
            let text = local_action_exec(action.target.as_str());
            match JaringanUrl::parse(text.as_str()) {
                Ok(u) => ButtonStep::PostLocal { url: u, payload, auth: copy_opt(&action.auth) },
                Err(e) => ButtonStep::BadTarget(e),
            }
        },
        _ => {
            let t = text::chars_of(action.target.as_str());
            let search = text::chars_of("/search");
            let is_file = match &page.location {
                PageLocation::File(_) => true,
                _ => false,
            };
            let is_get = match action.method {
                ActionMethod::Get => true,
                ActionMethod::Post => false,
            };
            if is_file && is_get && text::chars_eq(t.as_slice(), search.as_slice()) {
                let query = match payload_value(payload.as_str(), "q") {
                    Some(q) => q,
                    None => String::new(),
                };
                ButtonStep::SearchLocal { query }
            } else {
                let mut out = match action.method {
                    ActionMethod::Get => text::chars_of("Confirmed GET action: "),
                    ActionMethod::Post => text::chars_of("Confirmed POST action: "),
                };
                let twp = target_with_payload(action.target.as_str(), payload.as_str());
                text::push_str(&mut out, twp.as_str());
                state.status = status_with_unnamed(out, &action.label);
                ButtonStep::Confirmed
            }
        },
    }
}

/// The status line after an action's answer is shown.
pub open spec fn done_status(step: ButtonStepV, b: ButtonV) -> Seq<char> {
    with_unnamed(
        match step {
            ButtonStepV::PostNetwork { payload, .. } => "Submitted POST action: "@ + with_payload(b.target, payload),
            ButtonStepV::PostLocal { payload, .. } => "Submitted local POST action: "@ + with_payload(b.target, payload),
            ButtonStepV::SearchLocal { query } => "Searched local index for: "@ + query,
            _ => Seq::empty(),
        },
        b.label,
    )
}

/// Shows the page that a posted action or a local search answered with:
/// the page takes the document and its items, a network action moves to
/// the action's URL, and the status line says what was done.
pub fn finish_button(state: &mut BrowserState, page: &mut LoadedPage, step: &ButtonStep, action: &ButtonAction, document: Document)
    requires
        step is PostNetwork || step is PostLocal || step is SearchLocal,
    ensures
        final(page).document == document,
        items_view(final(page).items@) == items_of(document@.blocks),
        final(page).signature_status == SignatureStatus::Unsigned,
        final(page).raw_body is None,
        final(page).content_type@ == "jrg"@,
        final(page).body_size == 0,
        final(page).load_time_ms == 0,
        final(state).status@ == done_status(step@, action@),
        match step {
            ButtonStep::PostNetwork { url, .. } => {
                &&& final(page).location@ == LocationV::Network(url@)
                &&& nav_of(*final(state)) == nav_to(nav_of(*old(state)), LocationV::Network(url@))
                &&& *final(state) == (BrowserState {
                    current: final(state).current,
                    back_stack: final(state).back_stack,
                    forward_stack: final(state).forward_stack,
                    selected: 0,
                    scroll_offset: 0,
                    overlay: None,
                    status: final(state).status,
                    ..*old(state)
                })
            },
            _ => final(page).location == old(page).location && *final(state) == (BrowserState { status: final(state).status, ..*old(state) }),
        },
{
    let mut out: Vec<char> = Vec::new();
    let mut location = PageLocation::Unsupported(String::new());
    std::mem::swap(&mut location, &mut page.location);
    match step {
        ButtonStep::PostNetwork { url, payload, .. } => {
            navigate_to(state, PageLocation::Network(url.duplicate()));
            out = text::chars_of("Submitted POST action: ");
            let twp = target_with_payload(action.target.as_str(), payload.as_str());
            text::push_str(&mut out, twp.as_str());
            location = PageLocation::Network(url.duplicate());
        },
        ButtonStep::PostLocal { payload, .. } => {
            out = text::chars_of("Submitted local POST action: ");
            let twp = target_with_payload(action.target.as_str(), payload.as_str());
            text::push_str(&mut out, twp.as_str());
        },
        ButtonStep::SearchLocal { query } => {
            out = text::chars_of("Searched local index for: ");
            text::push_str(&mut out, query.as_str());
        },
        _ => {},
    }
    proof {
        reveal_strlit("Submitted POST action: ");
        reveal_strlit("Submitted local POST action: ");
        reveal_strlit("Searched local index for: ");
    }
    state.status = status_with_unnamed(out, &action.label);
    let items = collect_items(&document);
    *page = LoadedPage {
        location,
        document,
        items,
        signature_status: SignatureStatus::Unsigned,
        raw_body: None,
        content_type: String::from_str("jrg"),
        body_size: 0,
        load_time_ms: 0,
    };
}

// ----- Block summaries -----

/// The name of a block's kind.
pub open spec fn block_kind(b: BlockV) -> Seq<char> {
    match b {
        BlockV::Heading { .. } => "heading"@,
        BlockV::Paragraph(_) => "paragraph"@,
        BlockV::Link(_) => "link"@,
        BlockV::Input(_) => "input"@,
        BlockV::Button(_) => "button"@,
        BlockV::Image(_) => "image"@,
        BlockV::Quote(_) => "quote"@,
        BlockV::List(_) => "list"@,
        BlockV::Rule => "rule"@,
        BlockV::Table(_) => "table"@,
        BlockV::Preformatted { .. } => "preformatted"@,
        BlockV::Script { .. } => "script"@,
    }
}

/// The text a summary shows of a block: that of a paragraph, quote,
/// heading or preformatted block.
pub open spec fn block_text(b: BlockV) -> Option<Seq<char>> {
    match b {
        BlockV::Paragraph(t) => Some(t),
        BlockV::Quote(t) => Some(t),
        BlockV::Heading { text, .. } => Some(text),
        BlockV::Preformatted { code, .. } => Some(code),
        _ => None,
    }
}

/// A block's kind and text, as a session reports its blocks.
pub fn block_summary(block: &Block) -> (r: (&'static str, Option<String>))
    ensures
        r.0@ == block_kind(block@),
        opt_str(r.1) == block_text(block@),
{
    let kind = match block {
        Block::Heading { .. } => "heading",
        Block::Paragraph(_) => "paragraph",
        Block::Link(_) => "link",
        Block::Input(_) => "input",
        Block::Button(_) => "button",
        Block::Image(_) => "image",
        Block::Quote(_) => "quote",
        Block::List(_) => "list",
        Block::Rule => "rule",
        Block::Table(_) => "table",
        Block::Preformatted { .. } => "preformatted",
        Block::Script { .. } => "script",
    };
    let text = match block {
        Block::Paragraph(t) => Some(t.clone()),
        Block::Quote(t) => Some(t.clone()),
        Block::Heading { text, .. } => Some(text.clone()),
        Block::Preformatted { code, .. } => Some(code.clone()),
        _ => None,
    };
    (kind, text)
}

// ----- Directory listings -----

/// An entry of a directory, as the file system lists it.
#[derive(Debug, Clone)]
pub struct DirEntryInfo {
    pub name: String,
    pub is_dir: bool,
}

pub ghost struct DirEntryV {
    pub name: Seq<char>,
    pub is_dir: bool,
}

impl View for DirEntryInfo {
    type V = DirEntryV;

    open spec fn view(&self) -> DirEntryV {
        DirEntryV { name: self.name@, is_dir: self.is_dir }
    }
}

pub open spec fn entries_view(v: Seq<DirEntryInfo>) -> Seq<DirEntryV> {
    v.map_values(|e: DirEntryInfo| e@)
}

/// The position of the last `.` among the first `k` characters, or -1.
pub open spec fn last_dot_from(s: Seq<char>, k: int) -> int
    decreases k,
{
    if k <= 0 {
        -1
    } else if s[k - 1] == '.' {
        k - 1
    } else {
        last_dot_from(s, k - 1)
    }
}

pub proof fn lemma_last_dot_from(s: Seq<char>, k: int)
    requires
        0 <= k <= s.len(),
    ensures
        -1 <= last_dot_from(s, k) < k,
    decreases k,
{
    if k > 0 && s[k - 1] != '.' {
        lemma_last_dot_from(s, k - 1);
    }
}

/// The extension of a file name, as std's `Path::extension` reads it:
/// what follows the last `.`, unless that dot starts the name.
pub open spec fn file_ext(name: Seq<char>) -> Option<Seq<char>> {
    let i = last_dot_from(name, name.len() as int);
    if name != ".."@ && i > 0 {
        Some(name.skip(i + 1))
    } else {
        None
    }
}

/// The stem of a file name, as std's `Path::file_stem` reads it.
pub open spec fn file_stem(name: Seq<char>) -> Seq<char> {
    let i = last_dot_from(name, name.len() as int);
    if name != ".."@ && i > 0 {
        name.take(i)
    } else {
        name
    }
}

pub open spec fn is_jrg_name(name: Seq<char>) -> bool {
    file_ext(name) == Some("jrg"@)
}

/// A directory listing shows `.jrg` files and subdirectories.
pub open spec fn listed(e: DirEntryV) -> bool {
    is_jrg_name(e.name) || e.is_dir
}

/// `x` placed before the first entry whose name comes after its own.
pub open spec fn insert_named(s: Seq<DirEntryV>, x: DirEntryV) -> Seq<DirEntryV>
    decreases s.len(),
{
    if s.len() == 0 {
        seq![x]
    } else if seq_lt(x.name, s[0].name) {
        seq![x] + s
    } else {
        seq![s[0]] + insert_named(s.drop_first(), x)
    }
}

/// The listed entries in name order; equal names keep their order.
pub open spec fn listing(es: Seq<DirEntryV>) -> Seq<DirEntryV>
    decreases es.len(),
{
    if es.len() == 0 {
        Seq::empty()
    } else if listed(es.last()) {
        insert_named(listing(es.drop_last()), es.last())
    } else {
        listing(es.drop_last())
    }
}

pub open spec fn jrg_count(es: Seq<DirEntryV>) -> nat
    decreases es.len(),
{
    if es.len() == 0 {
        0
    } else {
        jrg_count(es.drop_last()) + if is_jrg_name(es.last().name) {
            1nat
        } else {
            0nat
        }
    }
}

/// The link an entry is listed as: a page by its stem, a directory by its
/// name.
pub open spec fn entry_link(e: DirEntryV) -> BlockV {
    if is_jrg_name(e.name) {
        BlockV::Link(document::LinkV { target: e.name, label: file_stem(e.name) })
    } else {
        BlockV::Link(document::LinkV { target: e.name, label: "Directory: "@ + e.name + "/"@ })
    }
}

/// The page a directory shows as.
pub open spec fn directory_blocks(dir: Seq<char>, es: Seq<DirEntryV>) -> Seq<BlockV> {
    let l = listing(es);
    seq![
        BlockV::Heading { level: 1, text: "Directory: "@ + dir },
        BlockV::Paragraph("Found "@ + text::decimal(jrg_count(es)) + " .jrg files"@),
    ] + if l.len() == 0 {
        seq![BlockV::Paragraph("No .jrg files found. Run `jaringan-browser init` or create .jrg files manually."@)]
    } else {
        l.map_values(|e: DirEntryV| entry_link(e))
    }
}

proof fn lemma_insert_named(s: Seq<DirEntryV>, x: DirEntryV, j: int)
    requires
        0 <= j <= s.len(),
        forall|k: int| 0 <= k < j ==> !seq_lt(x.name, #[trigger] s[k].name),
        j < s.len() ==> seq_lt(x.name, s[j].name),
    ensures
        insert_named(s, x) == s.insert(j, x),
    decreases j,
{
    if s.len() == 0 {
        assert(s.insert(j, x) =~= seq![x]);
    } else if j == 0 {
        assert(s.insert(0, x) =~= seq![x] + s);
    } else {
        assert(!seq_lt(x.name, s[0].name));
        lemma_insert_named(s.drop_first(), x, j - 1);
        assert(seq![s[0]] + s.drop_first().insert(j - 1, x) =~= s.insert(j, x));
    }
}

fn last_dot(name: &[char]) -> (r: Option<usize>)
    ensures
        match r {
            Some(i) => last_dot_from(name@, name@.len() as int) == i,
            None => last_dot_from(name@, name@.len() as int) == -1,
        },
{
    let mut k = name.len();
    while k > 0 && name[k - 1] != '.'
        invariant
            k <= name@.len(),
            last_dot_from(name@, k as int) == last_dot_from(name@, name@.len() as int),
        decreases k,
    {
        k = k - 1;
    }
    if k == 0 {
        None
    } else {
        Some(k - 1)
    }
}

fn is_jrg_exec(name: &[char]) -> (r: bool)
    ensures
        r == is_jrg_name(name@),
{
    let dd = ['.', '.'];
    let jrg = ['j', 'r', 'g'];
    proof {
        reveal_strlit("..");
        reveal_strlit("jrg");
        lemma_last_dot_from(name@, name@.len() as int);
    }
    assert(dd@ == ".."@);
    assert(jrg@ == "jrg"@);
    if text::chars_eq(name, dd.as_slice()) {
        return false;
    }
    match last_dot(name) {
        Some(i) => {
            if i == 0 {
                false
            } else {
                proof {
                    lemma_last_dot_from(name@, name@.len() as int);
                }
                let n = name.len();
                assert(i < n);
                let ext = text::slice_of(name, i + 1, n);
                assert(ext@ =~= name@.skip(i + 1));
                text::chars_eq(ext.as_slice(), jrg.as_slice())
            }
        },
        None => false,
    }
}

fn stem_exec(name: &[char]) -> (r: Vec<char>)
    ensures
        r@ == file_stem(name@),
{
    let dd = ['.', '.'];
    proof {
        reveal_strlit("..");
        lemma_last_dot_from(name@, name@.len() as int);
    }
    assert(dd@ == ".."@);
    if text::chars_eq(name, dd.as_slice()) {
        return text::copy_chars(name);
    }
    match last_dot(name) {
        Some(i) => if i > 0 {
            let r = text::slice_of(name, 0, i);
            assert(r@ =~= name@.take(i as int));
            r
        } else {
            text::copy_chars(name)
        },
        None => text::copy_chars(name),
    }
}

/// The listing page of a directory: its `.jrg` files and subdirectories
/// in name order, after a heading and a count of the pages.
pub fn directory_page(dir: &str, entries: &[DirEntryInfo]) -> (r: LoadedPage)
    ensures
        r.location@ == LocationV::File(dir@),
        r.document@.blocks == directory_blocks(dir@, entries_view(entries@)),
        r.document@.metadata is None,
        items_view(r.items@) == items_of(r.document@.blocks),
        r.signature_status == SignatureStatus::Unsigned,
        r.raw_body is None,
        r.content_type@ == "dir"@,
        r.body_size == 0,
        r.load_time_ms == 0,
{
    let ghost ev = entries_view(entries@);
    let mut shown: Vec<DirEntryInfo> = Vec::new();
    let mut count: usize = 0;
    let mut i: usize = 0;
    while i < entries.len()
        invariant
            i <= entries@.len(),
            ev == entries_view(entries@),
            entries_view(shown@) == listing(ev.take(i as int)),
            count == jrg_count(ev.take(i as int)),
            count <= i,
        decreases entries@.len() - i,
    {
        assert(ev.take(i + 1).drop_last() =~= ev.take(i as int));
        let name = text::chars_of(entries[i].name.as_str());
        let jrg = is_jrg_exec(name.as_slice());
        if jrg {
            count = count + 1;
        }
        if jrg || entries[i].is_dir {
            let ghost cur = entries_view(shown@);
            let mut j: usize = 0;
            while j < shown.len() && !chars_lt(name.as_slice(), text::chars_of(shown[j].name.as_str()).as_slice())
                invariant
                    j <= shown@.len(),
                    cur == entries_view(shown@),
                    name@ == entries@[i as int].name@,
                    forall|k: int| 0 <= k < j ==> !seq_lt(name@, #[trigger] cur[k].name),
                decreases shown@.len() - j,
            {
                j = j + 1;
            }
            let e = DirEntryInfo { name: entries[i].name.clone(), is_dir: entries[i].is_dir };
            proof {
                lemma_insert_named(cur, e@, j as int);
            }
            shown.insert(j, e);
            assert(entries_view(shown@) =~= cur.insert(j as int, e@));
        }
        i = i + 1;
    }
    assert(ev.take(entries@.len() as int) =~= ev);
    let mut head = text::chars_of("Directory: ");
    text::push_str(&mut head, dir);
    let mut found = text::chars_of("Found ");
    text::push_decimal(&mut found, count);
    text::push_str(&mut found, " .jrg files");
    let mut blocks: Vec<Block> = vec![
        Block::Heading { level: 1, text: text::string_from(head.as_slice()) },
        Block::Paragraph(text::string_from(found.as_slice())),
    ];
    let ghost first = document::blocks_view(blocks@);
    let ghost lv = entries_view(shown@);
    if shown.len() == 0 {
        blocks.push(Block::Paragraph(String::from_str("No .jrg files found. Run `jaringan-browser init` or create .jrg files manually.")));
        assert(document::blocks_view(blocks@) =~= first + seq![BlockV::Paragraph("No .jrg files found. Run `jaringan-browser init` or create .jrg files manually."@)]);
    } else {
        let mut k: usize = 0;
        assert(lv.take(0).map_values(|e: DirEntryV| entry_link(e)) =~= Seq::<BlockV>::empty());
        assert(document::blocks_view(blocks@) =~= first + lv.take(0).map_values(|e: DirEntryV| entry_link(e)));
        while k < shown.len()
            invariant
                k <= shown@.len(),
                lv == entries_view(shown@),
                document::blocks_view(blocks@) == first + lv.take(k as int).map_values(|e: DirEntryV| entry_link(e)),
            decreases shown@.len() - k,
        {
            let name = text::chars_of(shown[k].name.as_str());
            let label = if is_jrg_exec(name.as_slice()) {
                stem_exec(name.as_slice())
            } else {
                let mut l = text::chars_of("Directory: ");
                text::push_chars(&mut l, name.as_slice());
                l.push('/');
                l
            };
            proof {
                reveal_strlit("Directory: ");
                reveal_strlit("/");
            }
            let ghost before = blocks@;
            let target = shown[k].name.clone();
            let lab = text::string_from(label.as_slice());
            assert(target@ == lv[k as int].name);
            assert(lab@ == entry_link(lv[k as int])->Link_0.label);
            blocks.push(Block::Link(document::Link { target, label: lab }));
            assert(document::blocks_view(blocks@) =~= document::blocks_view(before).push(entry_link(lv[k as int])));
            assert(lv.take(k + 1).map_values(|e: DirEntryV| entry_link(e)) =~= lv.take(k as int).map_values(|e: DirEntryV| entry_link(e)).push(entry_link(lv[k as int])));
            k = k + 1;
        }
        assert(lv.take(shown@.len() as int) =~= lv);
    }
    proof {
        reveal_strlit("Directory: ");
        reveal_strlit("Found ");
        reveal_strlit(" .jrg files");
    }
    let document = Document::new(blocks);
    let items = collect_items(&document);
    LoadedPage {
        location: PageLocation::File(dir.to_string()),
        document,
        items,
        signature_status: SignatureStatus::Unsigned,
        raw_body: None,
        content_type: String::from_str("dir"),
        body_size: 0,
        load_time_ms: 0,
    }
}

// ----- Images -----

/// `name` read against the folder of the file `page` (`.` when the page's
/// path has no parent), by the platform's reading of paths.
pub open spec fn next_to(page: Seq<char>, name: Seq<char>) -> Seq<char> {
    crate::paths::joined_path(
        match crate::paths::parent_path(page) {
            Some(b) => b,
            None => "."@,
        },
        name,
    )
}

/// Where an image a page shows comes from.
#[derive(Debug, Clone, PartialEq, Eq)]
pub enum ImageSource {
    /// A web image, fetched into the image cache.
    Remote(String),
    /// An image of a network page; only its reference is shown.
    Network(String),
    /// A file next to the page's own file.
    Local(String),
}

pub ghost enum ImageSourceV {
    Remote(Seq<char>),
    Network(Seq<char>),
    Local(Seq<char>),
}

pub open spec fn image_source_kind(r: ImageSource) -> ImageSourceV {
    match r {
        ImageSource::Remote(u) => ImageSourceV::Remote(u@),
        ImageSource::Network(m) => ImageSourceV::Network(m@),
        ImageSource::Local(p) => ImageSourceV::Local(p@),
    }
}

/// Where an image is found: a `http://` or `https://` source is fetched, a
/// network page's image is only named, and a file page's image is read
/// next to the page (see `next_to`).
pub fn image_source(location: &PageLocation, image: &Image) -> (r: ImageSource)
    ensures
        image_source_kind(r) == (if (image.source@.len() >= 7 && image.source@.take(7) == "http://"@) || (image.source@.len() >= 8 && image.source@.take(8) == "https://"@) {
            ImageSourceV::Remote(image.source@)
        } else {
            match location@ {
                LocationV::File(page) => ImageSourceV::Local(next_to(page, image.source@)),
                _ => ImageSourceV::Network("Network image reference: "@ + image.source@),
            }
        }),
{
    proof {
        reveal_strlit(".");
        reveal_strlit("http://");
        reveal_strlit("https://");
        reveal_strlit("Network image reference: ");
    }
    if has_prefix(image.source.as_str(), "http://") || has_prefix(image.source.as_str(), "https://") {
        return ImageSource::Remote(image.source.clone());
    }
    match location {
        PageLocation::File(page_path) => {
            let dir = match crate::paths::path_parent(page_path.as_str()) {
                Some(p) => p,
                None => String::from_str("."),
            };
            ImageSource::Local(crate::paths::path_join(dir.as_str(), image.source.as_str()))
        },
        _ => {
            let mut out = text::chars_of("Network image reference: ");
            text::push_str(&mut out, image.source.as_str());
            ImageSource::Network(text::string_from(out.as_slice()))
        },
    }
}

/// The status line for a local image, once it is known whether the file
/// is there.
pub fn local_image_status(path: &str, exists: bool) -> (r: String)
    ensures
        r@ == (if exists {
            "Local image available: "@
        } else {
            "Image missing: "@
        }) + path@,
{
    let mut out = if exists {
        text::chars_of("Local image available: ")
    } else {
        text::chars_of("Image missing: ")
    };
    text::push_str(&mut out, path);
    text::string_from(out.as_slice())
}

} // verus!
