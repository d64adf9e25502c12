//! The block model that page scripts see, the data handed to them, and the
//! conversion between it and document blocks.

use vstd::prelude::*;
use crate::text;
use crate::document::{self, Block, BlockV, Image, Link, Table};

verus! {

broadcast use vstd::string::group_string_axioms;

#[derive(Debug, Clone)]
pub struct ScriptInputField {
    pub name: String,
    pub label: String,
    pub value: Option<String>,
    pub placeholder: Option<String>,
}

/// A block as a script reads and writes it.
#[derive(Debug, Clone)]
pub enum ScriptBlock {
    Heading { level: u8, text: String },
    Paragraph { text: String },
    Code { language: Option<String>, text: String },
    List { items: Vec<String>, ordered: bool },
    Table { headers: Vec<String>, rows: Vec<Vec<String>> },
    Image { url: String, alt: Option<String> },
    Link { url: String, text: String },
    Quote { text: String, attribution: Option<String> },
}

pub ghost enum ScriptBlockV {
    Heading { level: u8, text: Seq<char> },
    Paragraph { text: Seq<char> },
    Code { language: Option<Seq<char>>, text: Seq<char> },
    List { items: Seq<Seq<char>>, ordered: bool },
    Table { headers: Seq<Seq<char>>, rows: Seq<Seq<Seq<char>>> },
    Image { url: Seq<char>, alt: Option<Seq<char>> },
    Link { url: Seq<char>, text: Seq<char> },
    Quote { text: Seq<char>, attribution: Option<Seq<char>> },
}

impl View for ScriptBlock {
    type V = ScriptBlockV;

    open spec fn view(&self) -> ScriptBlockV {
        match self {
            ScriptBlock::Heading { level, text } => ScriptBlockV::Heading { level: *level, text: text@ },
            ScriptBlock::Paragraph { text } => ScriptBlockV::Paragraph { text: text@ },
            ScriptBlock::Code { language, text } => ScriptBlockV::Code {
                language: document::opt_str(*language),
                text: text@,
            },
            ScriptBlock::List { items, ordered } => ScriptBlockV::List {
                items: document::strs(items@),
                ordered: *ordered,
            },
            ScriptBlock::Table { headers, rows } => ScriptBlockV::Table {
                headers: document::strs(headers@),
                rows: document::rows_view(rows@),
            },
            ScriptBlock::Image { url, alt } => ScriptBlockV::Image {
                url: url@,
                alt: document::opt_str(*alt),
            },
            ScriptBlock::Link { url, text } => ScriptBlockV::Link { url: url@, text: text@ },
            ScriptBlock::Quote { text, attribution } => ScriptBlockV::Quote {
                text: text@,
                attribution: document::opt_str(*attribution),
            },
        }
    }
}

pub open spec fn script_blocks_view(v: Seq<ScriptBlock>) -> Seq<ScriptBlockV> {
    v.map_values(|b: ScriptBlock| b@)
}

/// The page the script runs in, as the terminal shows it.
#[derive(Debug, Clone)]
pub struct TuiContext {
    pub current_url: Option<String>,
    pub current_title: Option<String>,
    pub scroll_offset: u64,
    pub selected_index: usize,
    pub mode: String,
}

#[derive(Debug, Clone)]
pub struct ScriptMetadata {
    pub url: Option<String>,
    pub domain: Option<String>,
    pub title: Option<String>,
}

/// What a script is given.
#[derive(Debug, Clone)]
pub struct ScriptInput {
    pub title: Option<String>,
    pub inputs: Vec<ScriptInputField>,
    pub metadata: Option<ScriptMetadata>,
    pub blocks: Vec<ScriptBlock>,
    pub tui: Option<TuiContext>,
}

/// What a script gives back.
#[derive(Debug, Clone)]
pub struct ScriptOutput {
    pub blocks: Vec<ScriptBlock>,
}

pub open spec fn rule_line() -> Seq<char> {
    "───────────────"@
}

/// A document block as scripts see it. Inputs, buttons, rules and scripts
/// have no script form of their own and are shown as text.
pub open spec fn to_script(b: BlockV) -> ScriptBlockV {
    match b {
        BlockV::Heading { level, text } => ScriptBlockV::Heading { level, text },
        BlockV::Paragraph(t) => ScriptBlockV::Paragraph { text: t },
        BlockV::Link(l) => ScriptBlockV::Link { url: l.target, text: l.label },
        BlockV::Input(i) => ScriptBlockV::Paragraph { text: i.label + ": "@ + i.value },
        BlockV::Button(bt) => ScriptBlockV::Paragraph { text: "◉ "@ + bt.label + " -> "@ + bt.target },
        BlockV::Image(im) => ScriptBlockV::Image { url: im.source, alt: Some(im.alt) },
        BlockV::Quote(t) => ScriptBlockV::Quote { text: t, attribution: None },
        BlockV::List(items) => ScriptBlockV::List { items, ordered: false },
        BlockV::Rule => ScriptBlockV::List { items: seq![rule_line()], ordered: false },
        BlockV::Table(t) => ScriptBlockV::Table { headers: t.headers, rows: t.rows },
        BlockV::Preformatted { code, language } => ScriptBlockV::Code { language, text: code },
        BlockV::Script { .. } => ScriptBlockV::Paragraph { text: "[script block]"@ },
    }
}

/// A script block as a document block; an image without alt text gets an
/// empty one, and quote attributions and list ordering are dropped.
pub open spec fn from_script(b: ScriptBlockV) -> BlockV {
    match b {
        ScriptBlockV::Heading { level, text } => BlockV::Heading { level, text },
        ScriptBlockV::Paragraph { text } => BlockV::Paragraph(text),
        ScriptBlockV::Code { language, text } => BlockV::Preformatted { code: text, language },
        ScriptBlockV::List { items, .. } => BlockV::List(items),
        ScriptBlockV::Table { headers, rows } => BlockV::Table(document::TableV { headers, rows }),
        ScriptBlockV::Image { url, alt } => BlockV::Image(
            document::ImageV {
                source: url,
                alt: match alt {
                    Some(a) => a,
                    None => Seq::empty(),
                },
            },
        ),
        ScriptBlockV::Link { url, text } => BlockV::Link(document::LinkV { target: url, label: text }),
        ScriptBlockV::Quote { text, .. } => BlockV::Quote(text),
    }
}

fn to_script_exec(b: &Block) -> (r: ScriptBlock)
    ensures
        r@ == to_script(b@),
{
    match b {
        Block::Heading { level, text } => ScriptBlock::Heading { level: *level, text: text.clone() },
        Block::Paragraph(t) => ScriptBlock::Paragraph { text: t.clone() },
        Block::Link(l) => ScriptBlock::Link { url: l.target.clone(), text: l.label.clone() },
        Block::Input(i) => {
            let mut v = text::chars_of(i.label.as_str());
            text::push_str(&mut v, ": ");
            text::push_str(&mut v, i.value.as_str());
            ScriptBlock::Paragraph { text: text::string_from(v.as_slice()) }
        },
        Block::Button(bt) => {
            let mut v = text::chars_of("◉ ");
            text::push_str(&mut v, bt.label.as_str());
            text::push_str(&mut v, " -> ");
            text::push_str(&mut v, bt.target.as_str());
            ScriptBlock::Paragraph { text: text::string_from(v.as_slice()) }
        },
        Block::Image(im) => ScriptBlock::Image { url: im.source.clone(), alt: Some(im.alt.clone()) },
        Block::Quote(t) => ScriptBlock::Quote { text: t.clone(), attribution: None },
        Block::List(items) => ScriptBlock::List { items: document::copy_strings(items), ordered: false },
        Block::Rule => {
            let mut items: Vec<String> = Vec::new();
            items.push(String::from_str("───────────────"));
            assert(document::strs(items@) =~= seq![rule_line()]);
            ScriptBlock::List { items, ordered: false }
        },
        Block::Table(t) => ScriptBlock::Table { headers: document::copy_strings(&t.headers), rows: document::copy_rows(&t.rows) },
        Block::Preformatted { code, language } => ScriptBlock::Code {
            language: document::copy_opt(language),
            text: code.clone(),
        },
        Block::Script { .. } => ScriptBlock::Paragraph { text: String::from_str("[script block]") },
    }
}

fn from_script_exec(b: &ScriptBlock) -> (r: Block)
    ensures
        r@ == from_script(b@),
{
    match b {
        ScriptBlock::Heading { level, text } => Block::Heading { level: *level, text: text.clone() },
        ScriptBlock::Paragraph { text } => Block::Paragraph(text.clone()),
        ScriptBlock::Code { language, text } => Block::Preformatted {
            code: text.clone(),
            language: document::copy_opt(language),
        },
        ScriptBlock::List { items, .. } => Block::List(document::copy_strings(items)),
        ScriptBlock::Table { headers, rows } => Block::Table(
            Table { headers: document::copy_strings(headers), rows: document::copy_rows(rows) },
        ),
        ScriptBlock::Image { url, alt } => Block::Image(
            Image {
                source: url.clone(),
                alt: match alt {
                    Some(a) => a.clone(),
                    None => String::new(),
                },
            },
        ),
        ScriptBlock::Link { url, text } => Block::Link(Link { target: url.clone(), label: text.clone() }),
        ScriptBlock::Quote { text, .. } => Block::Quote(text.clone()),
    }
}

/// Each block in its script form; see `to_script`.
pub fn blocks_to_script_blocks(blocks: &[Block]) -> (r: Vec<ScriptBlock>)
    ensures
        script_blocks_view(r@) == document::blocks_view(blocks@).map_values(|b: BlockV| to_script(b)),
{
    let ghost m = document::blocks_view(blocks@).map_values(|b: BlockV| to_script(b));
    let mut out: Vec<ScriptBlock> = Vec::new();
    let mut i: usize = 0;
    while i < blocks.len()
        invariant
            i <= blocks@.len(),
            m == document::blocks_view(blocks@).map_values(|b: BlockV| to_script(b)),
            script_blocks_view(out@) == m.take(i as int),
        decreases blocks@.len() - i,
    {
        let x = to_script_exec(&blocks[i]);
        let ghost before = out@;
        out.push(x);
        assert(script_blocks_view(out@) =~= script_blocks_view(before).push(x@));
        assert(m.take(i + 1) =~= m.take(i as int).push(m[i as int]));
        i = i + 1;
    }
    assert(m.take(blocks@.len() as int) =~= m);
    out
}

/// Each script block as a document block; see `from_script`.
pub fn script_blocks_to_blocks(script_blocks: &[ScriptBlock]) -> (r: Vec<Block>)
    ensures
        document::blocks_view(r@) == script_blocks_view(script_blocks@).map_values(
            |b: ScriptBlockV| from_script(b),
        ),
{
    let ghost m = script_blocks_view(script_blocks@).map_values(|b: ScriptBlockV| from_script(b));
    let mut out: Vec<Block> = Vec::new();
    let mut i: usize = 0;
    while i < script_blocks.len()
        invariant
            i <= script_blocks@.len(),
            m == script_blocks_view(script_blocks@).map_values(|b: ScriptBlockV| from_script(b)),
            document::blocks_view(out@) == m.take(i as int),
        decreases script_blocks@.len() - i,
    {
        let x = from_script_exec(&script_blocks[i]);
        let ghost before = out@;
        out.push(x);
        assert(document::blocks_view(out@) =~= document::blocks_view(before).push(x@));
        assert(m.take(i + 1) =~= m.take(i as int).push(m[i as int]));
        i = i + 1;
    }
    assert(m.take(script_blocks@.len() as int) =~= m);
    out
}

/// The blocks that come back unchanged from their script form: all but
/// inputs, buttons, rules and scripts.
pub open spec fn survives_script(b: BlockV) -> bool {
    !(b is Input || b is Button || b is Rule || b is Script)
}

/// Converting blocks to their script form and back gives the same blocks,
/// when none of them is an input, a button, a rule or a script.
pub proof fn lemma_script_round_trip(bs: Seq<BlockV>)
    requires
        forall|i: int| 0 <= i < bs.len() ==> survives_script(#[trigger] bs[i]),
    ensures
        bs.map_values(|b: BlockV| to_script(b)).map_values(|b: ScriptBlockV| from_script(b)) == bs,
{
    assert forall|i: int| 0 <= i < bs.len() implies from_script(to_script(bs[i])) == bs[i] by {
        assert(survives_script(bs[i]));
        match bs[i] {
            BlockV::Table(t) => {
                assert(from_script(to_script(bs[i])) == BlockV::Table(document::TableV { headers: t.headers, rows: t.rows }));
            },
            _ => {},
        }
    }
    assert(bs.map_values(|b: BlockV| to_script(b)).map_values(|b: ScriptBlockV| from_script(b)) =~= bs);
}

} // verus!
