//! Writing a document back out as canonical Jaringan markup, and linting
//! a source text against its parsed document.

use vstd::prelude::*;
use crate::text;
use crate::utf8;
use crate::document::{
    self, ActionMethod, Block, BlockV, Button, ButtonV, Document, DocumentV, Image, ImageV, Input,
    InputV, Link, LinkV, Table, TableV,
};

verus! {

broadcast use vstd::string::group_string_axioms;

/// How the formatter lays out its output.
#[derive(Debug, Clone)]
pub struct FormatOptions {
    pub indent_size: usize,
    pub max_line_width: usize,
    pub trailing_newline: bool,
}

impl Default for FormatOptions {
    /// Indent 2, lines of at most 80 characters, a final line feed.
    fn default() -> (r: FormatOptions)
        ensures
            r.indent_size == 2,
            r.max_line_width == 80,
            r.trailing_newline,
    {
        FormatOptions { indent_size: 2, max_line_width: 80, trailing_newline: true }
    }
}

/// Formats and lints Jaringan documents.
pub struct JrgFormatter {
    options: FormatOptions,
}

pub open spec fn nl() -> Seq<char> {
    seq!['\n']
}

pub open spec fn repeat_char(c: char, n: nat) -> Seq<char> {
    Seq::new(n, |i: int| c)
}

/// `key="value"`.
pub open spec fn quoted(key: Seq<char>, v: Seq<char>) -> Seq<char> {
    key + seq!['=', '"'] + v + seq!['"']
}

/// `head`, then a space and the attributes separated by spaces, if any.
pub open spec fn with_attrs(head: Seq<char>, attrs: Seq<Seq<char>>) -> Seq<char> {
    if attrs.len() > 0 {
        head + seq![' '] + text::join(attrs, seq![' '])
    } else {
        head
    }
}

pub open spec fn opt_attr(key: Seq<char>, v: Option<Seq<char>>) -> Seq<Seq<char>> {
    match v {
        Some(x) => seq![quoted(key, x)],
        None => Seq::empty(),
    }
}

pub open spec fn link_markup(l: LinkV) -> Seq<char> {
    "=> "@ + l.target + if l.label != l.target {
        seq![' '] + l.label
    } else {
        Seq::empty()
    }
}

pub open spec fn input_attrs(i: InputV) -> Seq<Seq<char>> {
    (if i.label != i.name {
        seq![quoted("label"@, i.label)]
    } else {
        Seq::empty()
    }) + (if i.value.len() > 0 {
        seq![quoted("value"@, i.value)]
    } else {
        Seq::empty()
    }) + opt_attr("placeholder"@, i.placeholder)
}

pub open spec fn input_markup(i: InputV) -> Seq<char> {
    with_attrs(seq!['?'] + i.name, input_attrs(i))
}

pub open spec fn button_attrs(b: ButtonV) -> Seq<Seq<char>> {
    seq![quoted("label"@, b.label), quoted("target"@, b.target)] + (if b.method != ActionMethod::Get {
        seq![quoted("method"@, b.method.name())]
    } else {
        Seq::empty()
    }) + opt_attr("confirm"@, b.confirm) + opt_attr("auth"@, b.auth)
}

pub open spec fn button_markup(b: ButtonV) -> Seq<char> {
    with_attrs(seq!['!'] + b.id, button_attrs(b))
}

pub open spec fn image_markup(im: ImageV) -> Seq<char> {
    seq!['@'] + im.source + if im.alt != im.source {
        " alt=\""@ + im.alt + seq!['"']
    } else {
        Seq::empty()
    }
}

/// Each line with `p` in front and a line feed after.
pub open spec fn prefixed_lines(p: Seq<char>, ls: Seq<Seq<char>>) -> Seq<char> {
    ls.map_values(|l: Seq<char>| p + l + nl()).flatten()
}

pub open spec fn table_row_markup(cells: Seq<Seq<char>>) -> Seq<char> {
    "| "@ + text::join(cells, " | "@) + " |\n"@
}

/// The separator cell under a header: as many dashes as the header has
/// bytes, and at least three.
pub open spec fn sep_cell(h: Seq<char>) -> Seq<char> {
    repeat_char('-', if utf8::str_len(h) < 3 { 3 } else { utf8::str_len(h) })
}

pub open spec fn table_markup(t: TableV) -> Seq<char> {
    table_row_markup(t.headers) + table_row_markup(t.headers.map_values(|h: Seq<char>| sep_cell(h)))
        + t.rows.map_values(|r: Seq<Seq<char>>| table_row_markup(r)).flatten()
}

pub open spec fn ends_nl(s: Seq<char>) -> bool {
    s.len() > 0 && s.last() == '\n'
}

/// `s`, with a line feed added unless it already ends with one.
pub open spec fn close_nl(s: Seq<char>) -> Seq<char> {
    if ends_nl(s) {
        s
    } else {
        s + nl()
    }
}

pub open spec fn opt_text(o: Option<Seq<char>>) -> Seq<char> {
    match o {
        Some(t) => t,
        None => Seq::empty(),
    }
}

pub open spec fn fence() -> Seq<char> {
    seq!['`', '`', '`']
}

pub open spec fn pre_markup(code: Seq<char>, language: Option<Seq<char>>) -> Seq<char> {
    fence() + opt_text(language) + nl() + close_nl(code) + fence() + nl()
}

pub open spec fn script_markup(label: Option<Seq<char>>) -> Seq<char> {
    match label {
        Some(l) => "~> "@ + l + nl(),
        None => "~>"@ + nl(),
    }
}

/// The markup of one block, ending with a line feed.
pub open spec fn block_markup(b: BlockV) -> Seq<char> {
    match b {
        BlockV::Heading { level, text } => repeat_char('#', level as nat) + seq![' '] + text + nl(),
        BlockV::Paragraph(t) => t + nl(),
        BlockV::Link(l) => link_markup(l) + nl(),
        BlockV::Input(i) => input_markup(i) + nl(),
        BlockV::Button(bt) => button_markup(bt) + nl(),
        BlockV::Image(im) => image_markup(im) + nl(),
        BlockV::Quote(t) => prefixed_lines("> "@, text::lines(t)),
        BlockV::List(items) => prefixed_lines("- "@, items),
        BlockV::Rule => "---"@ + nl(),
        BlockV::Table(t) => table_markup(t),
        BlockV::Preformatted { code, language } => pre_markup(code, language),
        BlockV::Script { label, .. } => script_markup(label),
    }
}

pub open spec fn metadata_markup(m: Option<Seq<char>>) -> Seq<char> {
    match m {
        Some(t) => "~~~~~"@ + nl() + close_nl(t),
        None => Seq::empty(),
    }
}

/// The formatted text of a document: the blocks separated by blank lines,
/// then the metadata after a `~~~~~` line; with `trailing_newline` a final
/// line feed is added if the text does not end with one.
pub open spec fn formatted(trailing_newline: bool, d: DocumentV) -> Seq<char> {
    let out = text::join(d.blocks.map_values(|b: BlockV| block_markup(b)), nl())
        + metadata_markup(d.metadata);
    if trailing_newline && !ends_nl(out) {
        out + nl()
    } else {
        out
    }
}

pub(crate) fn push_string(out: &mut Vec<char>, s: &String)
    ensures
        final(out)@ == old(out)@ + s@,
{
    text::push_str(out, s.as_str());
}

fn quoted_exec(key: &str, v: &String) -> (r: Vec<char>)
    ensures
        r@ == quoted(key@, v@),
{
    let mut r = text::chars_of(key);
    r.push('=');
    r.push('"');
    push_string(&mut r, v);
    r.push('"');
    r
}

fn strings_eq(a: &String, b: &String) -> (r: bool)
    ensures
        r == (a@ == b@),
{
    let x = text::chars_of(a.as_str());
    let y = text::chars_of(b.as_str());
    text::chars_eq(x.as_slice(), y.as_slice())
}

fn with_attrs_exec(out: &mut Vec<char>, attrs: &Vec<Vec<char>>)
    ensures
        final(out)@ == with_attrs(old(out)@, text::views(attrs@)),
{
    if attrs.len() > 0 {
        out.push(' ');
        let sp = [' '];
        assert(sp@ == seq![' ']);
        let j = text::join_vecs(attrs.as_slice(), sp.as_slice());
        text::push_chars(out, j.as_slice());
    }
}

fn push_attr(attrs: &mut Vec<Vec<char>>, a: Vec<char>)
    ensures
        text::views(final(attrs)@) == text::views(old(attrs)@) + seq![a@],
{
    let ghost before = attrs@;
    attrs.push(a);
    assert(text::views(attrs@) =~= text::views(before) + seq![a@]);
}

fn push_opt_attr(attrs: &mut Vec<Vec<char>>, key: &str, v: &Option<String>)
    ensures
        text::views(final(attrs)@) == text::views(old(attrs)@) + opt_attr(key@, document::opt_str(*v)),
{
    match v {
        Some(x) => push_attr(attrs, quoted_exec(key, x)),
        None => {
            assert(text::views(attrs@) =~= text::views(attrs@) + Seq::<Seq<char>>::empty());
        },
    }
}

fn link_markup_exec(out: &mut Vec<char>, l: &Link)
    ensures
        final(out)@ == old(out)@ + link_markup(l@),
{
    text::push_str(out, "=> ");
    push_string(out, &l.target);
    if !strings_eq(&l.label, &l.target) {
        out.push(' ');
        push_string(out, &l.label);
    }
    assert(out@ =~= old(out)@ + link_markup(l@));
}

pub(crate) fn input_markup_exec(out: &mut Vec<char>, i: &Input)
    ensures
        final(out)@ == old(out)@ + input_markup(i@),
{
    let mut head: Vec<char> = Vec::new();
    head.push('?');
    push_string(&mut head, &i.name);
    let mut attrs: Vec<Vec<char>> = Vec::new();
    if !strings_eq(&i.label, &i.name) {
        push_attr(&mut attrs, quoted_exec("label", &i.label));
    }
    if i.value.as_str().unicode_len() > 0 {
        push_attr(&mut attrs, quoted_exec("value", &i.value));
    }
    push_opt_attr(&mut attrs, "placeholder", &i.placeholder);
    assert(text::views(attrs@) =~= input_attrs(i@));
    with_attrs_exec(&mut head, &attrs);
    text::push_chars(out, head.as_slice());
}

pub(crate) fn button_markup_exec(out: &mut Vec<char>, b: &Button)
    ensures
        final(out)@ == old(out)@ + button_markup(b@),
{
    let mut head: Vec<char> = Vec::new();
    head.push('!');
    push_string(&mut head, &b.id);
    let mut attrs: Vec<Vec<char>> = Vec::new();
    push_attr(&mut attrs, quoted_exec("label", &b.label));
    push_attr(&mut attrs, quoted_exec("target", &b.target));
    match b.method {
        ActionMethod::Get => {},
        ActionMethod::Post => {
            let m = String::from_str(b.method.as_str());
            push_attr(&mut attrs, quoted_exec("method", &m));
        },
    }
    push_opt_attr(&mut attrs, "confirm", &b.confirm);
    push_opt_attr(&mut attrs, "auth", &b.auth);
    assert(text::views(attrs@) =~= button_attrs(b@));
    with_attrs_exec(&mut head, &attrs);
    text::push_chars(out, head.as_slice());
}

fn image_markup_exec(out: &mut Vec<char>, im: &Image)
    ensures
        final(out)@ == old(out)@ + image_markup(im@),
{
    out.push('@');
    push_string(out, &im.source);
    if !strings_eq(&im.alt, &im.source) {
        text::push_str(out, " alt=\"");
        push_string(out, &im.alt);
        out.push('"');
    }
    assert(out@ =~= old(out)@ + image_markup(im@));
}

pub(crate) fn prefixed_lines_exec(out: &mut Vec<char>, p: &str, ls: &Vec<Vec<char>>)
    ensures
        final(out)@ == old(out)@ + prefixed_lines(p@, text::views(ls@)),
{
    let ghost m = text::views(ls@).map_values(|l: Seq<char>| p@ + l + nl());
    let mut i: usize = 0;
    assert(m.take(0) =~= Seq::<Seq<char>>::empty());
    assert(out@ =~= old(out)@ + m.take(0).flatten());
    while i < ls.len()
        invariant
            i <= ls@.len(),
            m == text::views(ls@).map_values(|l: Seq<char>| p@ + l + nl()),
            out@ == old(out)@ + m.take(i as int).flatten(),
        decreases ls@.len() - i,
    {
        let ghost before = out@;
        text::push_str(out, p);
        text::push_chars(out, ls[i].as_slice());
        out.push('\n');
        proof {
            assert(out@ =~= before + m[i as int]);
            assert(m.take(i + 1) =~= m.take(i as int).push(m[i as int]));
            m.take(i as int).lemma_flatten_push(m[i as int]);
        }
        i = i + 1;
    }
    assert(m.take(ls@.len() as int) =~= m);
}

pub(crate) fn string_vecs(v: &Vec<String>) -> (r: Vec<Vec<char>>)
    ensures
        text::views(r@) == document::strs(v@),
{
    let mut out: Vec<Vec<char>> = Vec::new();
    let mut i: usize = 0;
    while i < v.len()
        invariant
            i <= v@.len(),
            text::views(out@) == document::strs(v@).take(i as int),
        decreases v@.len() - i,
    {
        let c = text::chars_of(v[i].as_str());
        let ghost before = out@;
        out.push(c);
        assert(text::views(out@) =~= text::views(before).push(c@));
        assert(document::strs(v@).take(i + 1) =~= document::strs(v@).take(i as int).push(v@[i as int]@));
        i = i + 1;
    }
    assert(document::strs(v@).take(v@.len() as int) =~= document::strs(v@));
    out
}

fn table_row_exec(out: &mut Vec<char>, cells: &Vec<Vec<char>>)
    ensures
        final(out)@ == old(out)@ + table_row_markup(text::views(cells@)),
{
    text::push_str(out, "| ");
    let sep = text::chars_of(" | ");
    let j = text::join_vecs(cells.as_slice(), sep.as_slice());
    text::push_chars(out, j.as_slice());
    text::push_str(out, " |\n");
    assert(out@ =~= old(out)@ + table_row_markup(text::views(cells@)));
}

pub(crate) fn repeat_exec(c: char, n: usize) -> (r: Vec<char>)
    ensures
        r@ == repeat_char(c, n as nat),
{
    let mut r: Vec<char> = Vec::new();
    let mut i: usize = 0;
    while i < n
        invariant
            i <= n,
            r@ == repeat_char(c, i as nat),
        decreases n - i,
    {
        r.push(c);
        i = i + 1;
        assert(r@ =~= repeat_char(c, i as nat));
    }
    r
}

fn table_markup_exec(out: &mut Vec<char>, t: &Table)
    ensures
        final(out)@ == old(out)@ + table_markup(t@),
{
    let hs = string_vecs(&t.headers);
    table_row_exec(out, &hs);
    let seps = sep_cells_exec(&t.headers);
    table_row_exec(out, &seps);
    let ghost rm = t@.rows.map_values(|r: Seq<Seq<char>>| table_row_markup(r));
    let ghost base = out@;
    let mut k: usize = 0;
    assert(rm.take(0) =~= Seq::<Seq<char>>::empty());
    assert(out@ =~= base + rm.take(0).flatten());
    while k < t.rows.len()
        invariant
            k <= t.rows@.len(),
            t@.rows.len() == t.rows@.len(),
            rm == t@.rows.map_values(|r: Seq<Seq<char>>| table_row_markup(r)),
            out@ == base + rm.take(k as int).flatten(),
        decreases t.rows@.len() - k,
    {
        let cells = string_vecs(&t.rows[k]);
        let ghost before = out@;
        table_row_exec(out, &cells);
        proof {
            assert(t@.rows[k as int] == document::strs(t.rows@[k as int]@));
            assert(out@ =~= before + rm[k as int]);
            assert(rm.take(k + 1) =~= rm.take(k as int).push(rm[k as int]));
            rm.take(k as int).lemma_flatten_push(rm[k as int]);
        }
        k = k + 1;
    }
    assert(rm.take(t.rows@.len() as int) =~= rm);
    assert(out@ =~= old(out)@ + table_markup(t@));
}

pub(crate) fn sep_cells_exec(headers: &Vec<String>) -> (r: Vec<Vec<char>>)
    ensures
        text::views(r@) == document::strs(headers@).map_values(|h: Seq<char>| sep_cell(h)),
{
    let mut seps: Vec<Vec<char>> = Vec::new();
    let mut i: usize = 0;
    let ghost sm = document::strs(headers@).map_values(|h: Seq<char>| sep_cell(h));
    while i < headers.len()
        invariant
            i <= headers@.len(),
            sm == document::strs(headers@).map_values(|h: Seq<char>| sep_cell(h)),
            text::views(seps@) == sm.take(i as int),
        decreases headers@.len() - i,
    {
        let w = headers[i].as_str().len();
        let width = if w < 3 {
            3
        } else {
            w
        };
        let d = repeat_exec('-', width);
        let ghost before = seps@;
        seps.push(d);
        assert(text::views(seps@) =~= text::views(before).push(d@));
        assert(sm.take(i + 1) =~= sm.take(i as int).push(sm[i as int]));
        i = i + 1;
    }
    assert(sm.take(headers@.len() as int) =~= sm);
    seps
}

pub(crate) fn close_nl_exec(out: &mut Vec<char>, s: &String)
    ensures
        final(out)@ == old(out)@ + close_nl(s@),
{
    let cs = text::chars_of(s.as_str());
    text::push_chars(out, cs.as_slice());
    if !(cs.len() > 0 && cs[cs.len() - 1] == '\n') {
        out.push('\n');
    }
    assert(out@ =~= old(out)@ + close_nl(s@));
}

pub(crate) fn opt_string_text(o: &Option<String>) -> (r: Vec<char>)
    ensures
        r@ == opt_text(document::opt_str(*o)),
{
    match o {
        Some(s) => text::chars_of(s.as_str()),
        None => Vec::new(),
    }
}

fn block_markup_exec(b: &Block) -> (r: Vec<char>)
    ensures
        r@ == block_markup(b@),
{
    let mut out: Vec<char> = Vec::new();
    match b {
        Block::Heading { level, text } => {
            let h = repeat_exec('#', *level as usize);
            text::push_chars(&mut out, h.as_slice());
            out.push(' ');
            push_string(&mut out, text);
            out.push('\n');
        },
        Block::Paragraph(t) => {
            push_string(&mut out, t);
            out.push('\n');
        },
        Block::Link(l) => {
            link_markup_exec(&mut out, l);
            out.push('\n');
        },
        Block::Input(i) => {
            input_markup_exec(&mut out, i);
            out.push('\n');
        },
        Block::Button(bt) => {
            button_markup_exec(&mut out, bt);
            out.push('\n');
        },
        Block::Image(im) => {
            image_markup_exec(&mut out, im);
            out.push('\n');
        },
        Block::Quote(t) => {
            let cs = text::chars_of(t.as_str());
            let ls = text::lines_of(cs.as_slice());
            prefixed_lines_exec(&mut out, "> ", &ls);
        },
        Block::List(items) => {
            let vs = string_vecs(items);
            prefixed_lines_exec(&mut out, "- ", &vs);
        },
        Block::Rule => {
            text::push_str(&mut out, "---");
            out.push('\n');
        },
        Block::Table(t) => {
            table_markup_exec(&mut out, t);
        },
        Block::Preformatted { code, language } => {
            let f = ['`', '`', '`'];
            assert(f@ == fence());
            text::push_chars(&mut out, f.as_slice());
            let l = opt_string_text(language);
            text::push_chars(&mut out, l.as_slice());
            out.push('\n');
            close_nl_exec(&mut out, code);
            text::push_chars(&mut out, f.as_slice());
            out.push('\n');
        },
        Block::Script { label, .. } => {
            match label {
                Some(l) => {
                    text::push_str(&mut out, "~> ");
                    push_string(&mut out, l);
                    out.push('\n');
                },
                None => {
                    text::push_str(&mut out, "~>");
                    out.push('\n');
                },
            }
        },
    }
    assert(out@ =~= block_markup(b@));
    out
}

impl JrgFormatter {
    /// The options this formatter was made with.
    pub closed spec fn spec_options(&self) -> FormatOptions {
        self.options
    }

    pub(crate) fn options_ref(&self) -> (r: &FormatOptions)
        ensures
            *r == self.spec_options(),
    {
        &self.options
    }

    pub fn new(options: FormatOptions) -> (r: JrgFormatter)
        ensures
            r.spec_options() == options,
    {
        JrgFormatter { options }
    }

    /// The document as canonical markup; see `formatted`.
    pub fn format_document(&self, doc: &Document) -> (r: String)
        ensures
            r@ == formatted(self.spec_options().trailing_newline, doc@),
    {
        let ghost m = doc@.blocks.map_values(|b: BlockV| block_markup(b));
        let mut parts: Vec<Vec<char>> = Vec::new();
        let mut i: usize = 0;
        while i < doc.blocks.len()
            invariant
                i <= doc.blocks@.len(),
                doc@.blocks.len() == doc.blocks@.len(),
                m == doc@.blocks.map_values(|b: BlockV| block_markup(b)),
                text::views(parts@) == m.take(i as int),
            decreases doc.blocks@.len() - i,
        {
            let x = block_markup_exec(&doc.blocks[i]);
            let ghost before = parts@;
            parts.push(x);
            assert(text::views(parts@) =~= text::views(before).push(x@));
            assert(m.take(i + 1) =~= m.take(i as int).push(m[i as int]));
            i = i + 1;
        }
        assert(m.take(doc.blocks@.len() as int) =~= m);
        let nlc = ['\n'];
        assert(nlc@ == nl());
        let mut out = text::join_vecs(parts.as_slice(), nlc.as_slice());
        match &doc.metadata {
            Some(meta) => {
                text::push_str(&mut out, "~~~~~");
                out.push('\n');
                close_nl_exec(&mut out, meta);
            },
            None => {},
        }
        let ghost body = out@;
        assert(body =~= text::join(m, nl()) + metadata_markup(doc@.metadata));
        if self.options.trailing_newline && !(out.len() > 0 && out[out.len() - 1] == '\n') {
            out.push('\n');
        }
        text::string_from(out.as_slice())
    }
}

/// What a failed parse is reported as.
pub open spec fn parse_failure(e: crate::parser::ParseError) -> Seq<char> {
    "parse error: "@ + e.spec_message()
}

impl JrgFormatter {
    /// Parses `source` and formats the document; a source that does not
    /// parse gives `parse error: ` and the parser's message.
    pub fn format_source(&self, source: &str) -> (r: Result<String, String>)
        ensures
            match crate::parser::spec_parse_document(source@) {
                Ok(d) => r matches Ok(s) && s@ == formatted(self.spec_options().trailing_newline, d),
                Err(e) => r matches Err(m) && m@ == parse_failure(e),
            },
    {
        match crate::parser::parse_document(source) {
            Ok(doc) => Ok(self.format_document(&doc)),
            Err(e) => {
                let mut v = text::chars_of("parse error: ");
                let m = e.message();
                push_string(&mut v, &m);
                Err(text::string_from(v.as_slice()))
            },
        }
    }
}

// ----- Formatted inputs read back -----

/// An attribute name as the formatter writes them: lower-case letters.
pub open spec fn attr_word(k: Seq<char>) -> bool {
    k.len() > 0 && forall|j: int| 0 <= j < k.len() ==> 'a' <= #[trigger] k[j] && k[j] <= 'z'
}

/// An attribute value that its quotes carry unchanged: no `"` and no `=`.
pub open spec fn attr_safe(v: Seq<char>) -> bool {
    text::free_of(v, '"') && text::free_of(v, '=')
}

/// The value the first pair named `key` has.
pub open spec fn first_value(pairs: Seq<(Seq<char>, Seq<char>)>, key: Seq<char>) -> Option<Seq<char>>
    decreases pairs.len(),
{
    if pairs.len() == 0 {
        None
    } else if pairs[0].0 == key {
        Some(pairs[0].1)
    } else {
        first_value(pairs.drop_first(), key)
    }
}

pub open spec fn pair_texts(pairs: Seq<(Seq<char>, Seq<char>)>) -> Seq<Seq<char>> {
    pairs.map_values(|p: (Seq<char>, Seq<char>)| quoted(p.0, p.1))
}

proof fn lemma_find_at(s: Seq<char>, p: Seq<char>, i: int, j: int)
    requires
        0 <= i <= j,
        text::occurs_at(s, p, j),
        forall|k: int| i <= k < j ==> !text::occurs_at(s, p, k),
    ensures
        text::find_from(s, p, i) == Some(j),
    decreases j - i,
{
    if i < j {
        lemma_find_at(s, p, i + 1, j);
    }
}

proof fn lemma_find_none(s: Seq<char>, p: Seq<char>, i: int)
    requires
        0 <= i,
        forall|k: int| i <= k ==> !text::occurs_at(s, p, k),
    ensures
        text::find_from(s, p, i) is None,
    decreases s.len() + 1 - i,
{
    if i + p.len() <= s.len() {
        lemma_find_none(s, p, i + 1);
    }
}

/// Searching from `off` on in `s` is searching `s.skip(off)`, shifted.
proof fn lemma_find_shift(s: Seq<char>, p: Seq<char>, off: int, i: int)
    requires
        0 <= off <= s.len(),
        0 <= i,
    ensures
        text::find_from(s, p, off + i) == match text::find_from(s.skip(off), p, i) {
            Some(k) => Some(off + k),
            None => None::<int>,
        },
    decreases s.len() + 1 - (off + i),
{
    let t = s.skip(off);
    if off + i + p.len() > s.len() {
    } else {
        assert(text::occurs_at(s, p, off + i) == text::occurs_at(t, p, i)) by {
            assert(s.subrange(off + i, off + i + p.len()) =~= t.subrange(i, i + p.len()));
        }
        if !text::occurs_at(s, p, off + i) {
            lemma_find_shift(s, p, off, i + 1);
        }
    }
}

proof fn lemma_skip_misses(s: Seq<char>, p: Seq<char>, i: int, j: int)
    requires
        0 <= i <= j,
        forall|k: int| i <= k < j ==> !text::occurs_at(s, p, k),
    ensures
        text::find_from(s, p, i) == text::find_from(s, p, j),
    decreases j - i,
{
    if i < j {
        lemma_skip_misses(s, p, i + 1, j);
    }
}

proof fn lemma_join_front(a: Seq<char>, rest: Seq<Seq<char>>, sep: Seq<char>)
    requires
        rest.len() > 0,
    ensures
        text::join(seq![a] + rest, sep) == a + sep + text::join(rest, sep),
    decreases rest.len(),
{
    let all = seq![a] + rest;
    if rest.len() == 1 {
        assert(all.drop_last() =~= seq![a]);
        assert(all.last() == rest[0]);
        assert(text::join(seq![a], sep) == a);
        assert(text::join(rest, sep) == rest[0]);
    } else {
        lemma_join_front(a, rest.drop_last(), sep);
        assert(all.drop_last() =~= seq![a] + rest.drop_last());
        assert(all.last() == rest.last());
        assert(text::join(rest, sep) == text::join(rest.drop_last(), sep) + sep + rest.last());
        assert(text::join(all, sep) == text::join(all.drop_last(), sep) + sep + all.last());
        assert(a + sep + text::join(rest.drop_last(), sep) + sep + rest.last() =~= a + sep + (text::join(
            rest.drop_last(),
            sep,
        ) + sep + rest.last()));
    }
}

/// `key="` does not start at `j` in text that starts with an attribute of
/// another name (and ends there or goes on with a space).
proof fn lemma_no_needle(a: Seq<char>, k0: Seq<char>, v0: Seq<char>, key: Seq<char>, j: int)
    requires
        attr_word(k0),
        attr_word(key),
        attr_safe(v0),
        k0 != key,
        !key.is_suffix_of(k0),
        a.len() >= quoted(k0, v0).len(),
        a.take(quoted(k0, v0).len() as int) == quoted(k0, v0),
        a.len() > quoted(k0, v0).len() ==> a[quoted(k0, v0).len() as int] == ' ',
        0 <= j <= quoted(k0, v0).len(),
    ensures
        !text::occurs_at(a, key + seq!['=', '"'], j),
{
    let s0 = quoted(k0, v0);
    let n = key + seq!['=', '"'];
    if text::occurs_at(a, n, j) {
        let e = j + key.len();
        assert(a[e] == n[key.len() as int]);
        assert(a[e] == '=');
        assert(a[e + 1] == a.subrange(j, j + n.len())[key.len() as int + 1]);
        assert(a[e + 1] == '"');
        assert forall|q: int| j <= q < e implies 'a' <= #[trigger] a[q] && a[q] <= 'z' by {
            assert(a[q] == a.subrange(j, j + n.len())[q - j]);
            assert(n[q - j] == key[q - j]);
        }
        if e < s0.len() {
            assert(a[e] == s0[e]);
            if e < k0.len() {
                assert(s0[e] == k0[e]);
            } else if e > k0.len() + 1 {
                if e < s0.len() - 1 {
                    assert(s0[e] == v0[e - k0.len() - 2]);
                }
            } else if e == k0.len() + 1 {
                assert(s0[e] == '"');
            }
            assert(e == k0.len());
            let st = k0.len() - key.len();
            assert(st == j);
            assert(key.is_suffix_of(k0)) by {
                assert forall|q: int| 0 <= q < key.len() implies k0.subrange(st, k0.len() as int)[q] == key[q] by {
                    assert(a[j + q] == s0[j + q]);
                    assert(s0[j + q] == k0[j + q]);
                    assert(a[j + q] == n[q]);
                }
                assert(k0.subrange(st, k0.len() as int) =~= key);
            }
        } else if j < s0.len() {
            let q = s0.len() - 1;
            assert(a[q] == s0[q]);
            assert(s0[q] == '"');
        } else {
            assert(a[j] == ' ');
        }
    }
}

/// In attributes written one after another, separated by spaces, the
/// value read for a name is that of the first attribute with that name.
proof fn lemma_attr_of_pairs(pairs: Seq<(Seq<char>, Seq<char>)>, key: Seq<char>)
    requires
        attr_word(key),
        forall|m: int| 0 <= m < pairs.len() ==> attr_word(#[trigger] pairs[m].0) && attr_safe(pairs[m].1),
        forall|m: int| 0 <= m < pairs.len() ==> (#[trigger] pairs[m].0) == key || !key.is_suffix_of(pairs[m].0),
    ensures
        crate::parser::attr(text::join(pair_texts(pairs), seq![' ']), key) == first_value(pairs, key),
    decreases pairs.len(),
{
    let n = key + seq!['=', '"'];
    let a = text::join(pair_texts(pairs), seq![' ']);
    if pairs.len() == 0 {
        assert(a.len() == 0);
        lemma_find_none(a, n, 0);
    } else {
        let k0 = pairs[0].0;
        let v0 = pairs[0].1;
        let s0 = quoted(k0, v0);
        let texts = pair_texts(pairs);
        assert(texts[0] == s0);
        let rest = pairs.drop_first();
        assert(pair_texts(rest) =~= texts.drop_first());
        let tail = text::join(pair_texts(rest), seq![' ']);
        if pairs.len() == 1 {
            assert(a == s0);
        } else {
            assert(texts =~= seq![s0] + texts.drop_first());
            lemma_join_front(s0, texts.drop_first(), seq![' ']);
            assert(a == s0 + seq![' '] + tail);
        }
        assert(a.take(s0.len() as int) =~= s0);
        if k0 == key {
            assert(a.subrange(0, n.len() as int) =~= n);
            lemma_find_at(a, n, 0, 0);
            let r = a.skip(n.len() as int);
            assert(r.take(v0.len() as int) =~= v0);
            assert(r[v0.len() as int] == '"');
            assert forall|q: int| 0 <= q < v0.len() implies r[q] != '"' by {
                assert(r[q] == v0[q]);
            }
            assert forall|q: int| 0 <= q < v0.len() implies r[q] != '"' by {
                assert(r[q] == v0[q]);
            }
            text::lemma_char_from(r, '"', 0);
            let c = text::char_from(r, '"', 0);
            assert(c == v0.len()) by {
                if c < v0.len() {
                    assert(r[c] == v0[c]);
                }
            }
        } else {
            assert forall|j: int| 0 <= j <= s0.len() implies !text::occurs_at(a, n, j) by {
                lemma_no_needle(a, k0, v0, key, j);
            }
            if pairs.len() == 1 {
                assert forall|j: int| 0 <= j implies !text::occurs_at(a, n, j) by {
                    if j <= s0.len() {
                        lemma_no_needle(a, k0, v0, key, j);
                    }
                }
                lemma_find_none(a, n, 0);
                assert(first_value(rest, key) is None);
            } else {
                let off = s0.len() + 1;
                assert(a.skip(off as int) =~= tail);
                lemma_skip_misses(a, n, 0, off as int);
                lemma_find_shift(a, n, off as int, 0);
                assert forall|m: int| 0 <= m < rest.len() implies attr_word(#[trigger] rest[m].0) && attr_safe(
                    rest[m].1,
                ) by {
                    assert(rest[m] == pairs[m + 1]);
                }
                assert forall|m: int| 0 <= m < rest.len() implies (#[trigger] rest[m].0) == key || !key.is_suffix_of(
                    rest[m].0,
                ) by {
                    assert(rest[m] == pairs[m + 1]);
                }
                lemma_attr_of_pairs(rest, key);
                match text::find_from(tail, n, 0) {
                    Some(k) => {
                        text::lemma_find_from_bounds(tail, n, 0);
                        assert(a.skip(off + k + n.len()) =~= tail.skip(k + n.len()));
                    },
                    None => {},
                }
            }
        }
    }
}

proof fn lemma_first_value_absent(pairs: Seq<(Seq<char>, Seq<char>)>, key: Seq<char>)
    requires
        forall|m: int| 0 <= m < pairs.len() ==> (#[trigger] pairs[m]).0 != key,
    ensures
        first_value(pairs, key) is None,
    decreases pairs.len(),
{
    if pairs.len() > 0 {
        assert forall|m: int| 0 <= m < pairs.drop_first().len() implies (#[trigger] pairs.drop_first()[m]).0 != key by {
            assert(pairs.drop_first()[m] == pairs[m + 1]);
        }
        lemma_first_value_absent(pairs.drop_first(), key);
    }
}

proof fn lemma_first_value_at(pairs: Seq<(Seq<char>, Seq<char>)>, key: Seq<char>, m: int)
    requires
        0 <= m < pairs.len(),
        pairs[m].0 == key,
        forall|q: int| 0 <= q < m ==> (#[trigger] pairs[q]).0 != key,
    ensures
        first_value(pairs, key) == Some(pairs[m].1),
    decreases m,
{
    if m > 0 {
        assert forall|q: int| 0 <= q < m - 1 implies (#[trigger] pairs.drop_first()[q]).0 != key by {
            assert(pairs.drop_first()[q] == pairs[q + 1]);
        }
        lemma_first_value_at(pairs.drop_first(), key, m - 1);
    }
}

proof fn lemma_ws_free_run(s: Seq<char>, i: int, k: int)
    requires
        0 <= i <= k <= s.len(),
        forall|j: int| i <= j < k ==> !text::is_ws(#[trigger] s[j]),
        k == s.len() || text::is_ws(s[k]),
    ensures
        text::ws_from(s, i) == k,
    decreases k - i,
{
    if i < k {
        lemma_ws_free_run(s, i + 1, k);
    }
}

proof fn lemma_join_last(ls: Seq<Seq<char>>, sep: Seq<char>)
    requires
        ls.len() > 0,
        ls.last().len() > 0,
    ensures
        text::join(ls, sep).len() > 0,
        text::join(ls, sep).last() == ls.last().last(),
{
}

/// The attributes an input is written with, as name and value pairs.
pub open spec fn written_input_pairs(i: InputV) -> Seq<(Seq<char>, Seq<char>)> {
    (if i.label != i.name {
        seq![(crate::parser::k_label(), i.label)]
    } else {
        Seq::empty()
    }) + (if i.value.len() > 0 {
        seq![(crate::parser::k_value(), i.value)]
    } else {
        Seq::empty()
    }) + match i.placeholder {
        Some(p) => seq![(crate::parser::k_placeholder(), p)],
        None => Seq::empty(),
    }
}

proof fn lemma_written_attrs(i: InputV)
    requires
        attr_safe(i.label),
        attr_safe(i.value),
        i.placeholder matches Some(p) ==> attr_safe(p),
    ensures
        ({
            let j = text::join(input_attrs(i), seq![' ']);
            &&& crate::parser::attr(j, crate::parser::k_label()) == if i.label != i.name {
                Some(i.label)
            } else {
                None
            }
            &&& crate::parser::attr(j, crate::parser::k_value()) == if i.value.len() > 0 {
                Some(i.value)
            } else {
                None
            }
            &&& crate::parser::attr(j, crate::parser::k_placeholder()) == i.placeholder
        }),
{
    reveal_strlit("label");
    reveal_strlit("value");
    reveal_strlit("placeholder");
    let kl = crate::parser::k_label();
    let kv = crate::parser::k_value();
    let kp = crate::parser::k_placeholder();
    assert("label"@ =~= kl);
    assert("value"@ =~= kv);
    assert("placeholder"@ =~= kp);
    let pairs = written_input_pairs(i);
    assert(pair_texts(pairs) =~= input_attrs(i));
    assert(attr_word(kl) && attr_word(kv) && attr_word(kp));
    assert(!kl.is_suffix_of(kv) && !kl.is_suffix_of(kp)) by {
        if kl.is_suffix_of(kp) {
            assert(kp.subrange(6, 11)[0] == kp[6]);
        }
    }
    assert(!kv.is_suffix_of(kl) && !kv.is_suffix_of(kp)) by {
        if kv.is_suffix_of(kp) {
            assert(kp.subrange(6, 11)[0] == kp[6]);
        }
        if kv.is_suffix_of(kl) {
            assert(kl.subrange(0, 5)[0] == kl[0]);
        }
    }
    assert(!kp.is_suffix_of(kl) && !kp.is_suffix_of(kv));
    assert(kl != kv && kl != kp && kv != kp) by {
        assert(kl[0] != kv[0] && kl[0] != kp[0] && kv[0] != kp[0]);
    }
    assert forall|m: int| 0 <= m < pairs.len() implies attr_word(#[trigger] pairs[m].0) && attr_safe(pairs[m].1)
        && (pairs[m].0 == kl || pairs[m].0 == kv || pairs[m].0 == kp) by {
    }
    lemma_attr_of_pairs(pairs, kl);
    lemma_attr_of_pairs(pairs, kv);
    lemma_attr_of_pairs(pairs, kp);
    let nl0: int = if i.label != i.name { 1 } else { 0 };
    let nv0: int = if i.value.len() > 0 { 1 } else { 0 };
    if i.label != i.name {
        lemma_first_value_at(pairs, kl, 0);
    } else {
        lemma_first_value_absent(pairs, kl);
    }
    if i.value.len() > 0 {
        lemma_first_value_at(pairs, kv, nl0);
    } else {
        lemma_first_value_absent(pairs, kv);
    }
    if i.placeholder is Some {
        lemma_first_value_at(pairs, kp, nl0 + nv0);
    } else {
        lemma_first_value_absent(pairs, kp);
    }
}

proof fn lemma_input_line(i: InputV)
    requires
        i.name.len() > 0,
        forall|j: int| 0 <= j < i.name.len() ==> !text::is_ws(#[trigger] i.name[j]),
    ensures
        ({
            let t = input_markup(i);
            let rem = text::trim(t.skip(1));
            &&& t.len() > 0 && t[0] == '?'
            &&& crate::parser::head_word(rem) == i.name
            &&& crate::parser::attrs_of(rem) == text::join(input_attrs(i), seq![' '])
        }),
{
    let attrs = input_attrs(i);
    let t = input_markup(i);
    let name = i.name;
    let j = text::join(attrs, seq![' ']);
    assert(t.skip(1) =~= if attrs.len() > 0 {
        name + seq![' '] + j
    } else {
        name
    });
    let rem0 = t.skip(1);
    assert(!text::is_ws(rem0[0]));
    if attrs.len() > 0 {
        lemma_join_last(attrs, seq![' ']);
        assert(rem0.last() == j.last());
        assert(j.last() == '"');
    } else {
        assert(rem0.last() == name.last());
    }
    text::lemma_trim_plain(rem0);
    let rem = text::trim(rem0);
    if attrs.len() > 0 {
        assert(rem[name.len() as int] == ' ');
        lemma_ws_free_run(rem, 0, name.len() as int);
        assert(rem.skip(name.len() as int + 1) =~= j);
    } else {
        lemma_ws_free_run(rem, 0, name.len() as int);
        assert(j.len() == 0);
    }
    assert(rem.take(name.len() as int) =~= name);
    text::lemma_trim_plain(name);
}

/// Formatting an input and reading the line back gives the same input:
/// its name, label, value and placeholder, whenever the name is one word
/// and the label, value and placeholder hold no `"` and no `=`.
pub proof fn lemma_input_markup_round_trip(i: InputV)
    requires
        i.name.len() > 0,
        forall|j: int| 0 <= j < i.name.len() ==> !text::is_ws(#[trigger] i.name[j]),
        attr_safe(i.label),
        attr_safe(i.value),
        i.placeholder matches Some(p) ==> attr_safe(p),
    ensures
        crate::parser::spec_input(input_markup(i)) == Some(i),
{
    lemma_input_line(i);
    lemma_written_attrs(i);
    let j = text::join(input_attrs(i), seq![' ']);
    let label = crate::parser::attr_or_spec(j, crate::parser::k_label(), i.name);
    let value = crate::parser::attr_or_spec(j, crate::parser::k_value(), Seq::empty());
    assert(label == i.label);
    assert(value =~= i.value);
    let back = InputV {
        name: i.name,
        label,
        value,
        placeholder: crate::parser::attr(j, crate::parser::k_placeholder()),
    };
    assert(back == i);
}

/// A page of one input, formatted and parsed again, is the same page: the
/// input keeps its name, label, value and placeholder, whenever the name
/// is one word and the label, value and placeholder hold no `"`, no `=`
/// and no line feed.
pub proof fn lemma_formatted_input_page(trailing_newline: bool, i: InputV)
    requires
        i.name.len() > 0,
        forall|j: int| 0 <= j < i.name.len() ==> !text::is_ws(#[trigger] i.name[j]),
        attr_safe(i.label) && text::free_of(i.label, '\n'),
        attr_safe(i.value) && text::free_of(i.value, '\n'),
        i.placeholder matches Some(p) ==> attr_safe(p) && text::free_of(p, '\n'),
    ensures
        crate::parser::spec_parse_document(
            formatted(trailing_newline, DocumentV { blocks: seq![BlockV::Input(i)], metadata: None }),
        ) == Ok::<DocumentV, crate::parser::ParseError>(
            DocumentV { blocks: seq![BlockV::Input(i)], metadata: None },
        ),
{
    let d = DocumentV { blocks: seq![BlockV::Input(i)], metadata: None };
    let l = input_markup(i);
    lemma_input_markup_round_trip(i);
    lemma_input_line(i);
    // The text is the input's line.
    assert(d.blocks.map_values(|b: BlockV| block_markup(b)) =~= seq![l + nl()]);
    assert(metadata_markup(d.metadata) =~= Seq::<char>::empty());
    assert(formatted(trailing_newline, d) =~= l + nl());
    // One line, without a line feed inside.
    let attrs = input_attrs(i);
    let j = text::join(attrs, seq![' ']);
    assert(text::free_of(l, '\n')) by {
        assert forall|m: int| 0 <= m < attrs.len() implies text::free_of(#[trigger] attrs[m], '\n') by {
            let a = attrs[m];
            assert forall|q: int| 0 <= q < a.len() implies a[q] != '\n' by {
                reveal_strlit("label");
                reveal_strlit("value");
                reveal_strlit("placeholder");
            }
        }
        text::lemma_join_free(attrs, seq![' '], '\n');
        assert forall|q: int| 0 <= q < l.len() implies l[q] != '\n' by {
            if q > 0 && q <= i.name.len() {
                assert(l[q] == i.name[q - 1]);
                assert(!text::is_ws(i.name[q - 1]));
            } else if q > i.name.len() + 1 {
                assert(l[q] == j[q - i.name.len() - 2]);
            }
        }
    }
    crate::parser::lemma_one_line(l);
    let rem0 = l.skip(1);
    assert(l.last() == rem0.last());
    text::lemma_trim_plain(rem0);
    assert(!text::is_ws(l.last()));
    assert(text::strip_cr(l) == l);
    text::lemma_trim_plain(l);
    let ls = seq![l];
    let t = crate::parser::tl(ls, 0);
    assert(t == l);
    assert(t[0] == '?');
    assert(t != crate::parser::tilde5());
    assert(!crate::parser::fence().is_prefix_of(t)) by {
        if crate::parser::fence().is_prefix_of(t) {
            assert(t.subrange(0, 3)[0] == t[0]);
        }
    }
    assert(crate::parser::spec_list_item(t) is None) by {
        if seq!['-', ' '].is_prefix_of(t) || seq!['*', ' '].is_prefix_of(t) {
            assert(t.subrange(0, 2)[0] == t[0]);
        }
    }
    assert(!crate::parser::spec_is_rule(t)) by {
        if crate::parser::spec_is_rule(t) {
            assert(t[0] != '?');
        }
    }
    text::lemma_lead(t, '#', 0);
    assert(crate::parser::spec_heading(t) is None);
    assert(crate::parser::spec_link(t) is None) by {
        if seq!['=', '>'].is_prefix_of(t) {
            assert(t.subrange(0, 2)[0] == t[0]);
        }
    }
    let b = BlockV::Input(i);
    assert(crate::parser::parse_from(ls, 1) == Ok::<(Seq<BlockV>, Option<Seq<char>>), crate::parser::ParseError>(
        (Seq::empty(), None),
    ));
    assert(seq![b] + Seq::<BlockV>::empty() =~= seq![b]);
}

} // verus!
