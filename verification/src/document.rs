//! The Jaringan document model: a page is a list of blocks followed by
//! optional free-form metadata written after a `~~~~~` delimiter.

use vstd::prelude::*;
use crate::text;
use vstd::string::StrSliceExecFns;

verus! {

/// The characters of each string in a sequence.
pub open spec fn strs(v: Seq<String>) -> Seq<Seq<char>> {
    v.map_values(|s: String| s@)
}

pub open spec fn opt_str(o: Option<String>) -> Option<Seq<char>> {
    match o {
        Some(s) => Some(s@),
        None => None,
    }
}

pub open spec fn rows_view(rows: Seq<Vec<String>>) -> Seq<Seq<Seq<char>>> {
    rows.map_values(|r: Vec<String>| strs(r@))
}

#[derive(Debug, Clone, PartialEq, Eq)]
pub struct Table {
    pub headers: Vec<String>,
    pub rows: Vec<Vec<String>>,
}

pub ghost struct TableV {
    pub headers: Seq<Seq<char>>,
    pub rows: Seq<Seq<Seq<char>>>,
}

impl View for Table {
    type V = TableV;

    open spec fn view(&self) -> TableV {
        TableV { headers: strs(self.headers@), rows: rows_view(self.rows@) }
    }
}

#[derive(Debug, Clone, PartialEq, Eq)]
pub struct Link {
    pub target: String,
    pub label: String,
}

pub ghost struct LinkV {
    pub target: Seq<char>,
    pub label: Seq<char>,
}

impl View for Link {
    type V = LinkV;

    open spec fn view(&self) -> LinkV {
        LinkV { target: self.target@, label: self.label@ }
    }
}

#[derive(Debug, Clone, PartialEq, Eq)]
pub struct Input {
    pub name: String,
    pub label: String,
    pub value: String,
    pub placeholder: Option<String>,
}

pub ghost struct InputV {
    pub name: Seq<char>,
    pub label: Seq<char>,
    pub value: Seq<char>,
    pub placeholder: Option<Seq<char>>,
}

impl View for Input {
    type V = InputV;

    open spec fn view(&self) -> InputV {
        InputV {
            name: self.name@,
            label: self.label@,
            value: self.value@,
            placeholder: opt_str(self.placeholder),
        }
    }
}

#[derive(Debug, Clone, Copy, PartialEq, Eq)]
pub enum ActionMethod {
    Get,
    Post,
}

impl ActionMethod {
    /// The method named by `input`, ignoring ASCII case.
    pub open spec fn spec_parse(input: Seq<char>) -> Option<ActionMethod> {
        if text::upper(input) == seq!['G', 'E', 'T'] {
            Some(ActionMethod::Get)
        } else if text::upper(input) == seq!['P', 'O', 'S', 'T'] {
            Some(ActionMethod::Post)
        } else {
            None
        }
    }

    pub(crate) fn parse(input: &[char]) -> (r: Option<ActionMethod>)
        ensures
            r == Self::spec_parse(input@),
    {
        let up = text::upper_vec(input);
        let get = ['G', 'E', 'T'];
        let post = ['P', 'O', 'S', 'T'];
        if text::chars_eq(up.as_slice(), get.as_slice()) {
            assert(get@ == seq!['G', 'E', 'T']);
            Some(ActionMethod::Get)
        } else if text::chars_eq(up.as_slice(), post.as_slice()) {
            assert(post@ == seq!['P', 'O', 'S', 'T']);
            Some(ActionMethod::Post)
        } else {
            proof {
                assert(get@ == seq!['G', 'E', 'T']);
                assert(post@ == seq!['P', 'O', 'S', 'T']);
            }
            None
        }
    }
}


impl ActionMethod {
    pub open spec fn name(self) -> Seq<char> {
        match self {
            ActionMethod::Get => "GET"@,
            ActionMethod::Post => "POST"@,
        }
    }

    pub fn as_str(self) -> (r: &'static str)
        ensures
            r@ == self.name(),
    {
        match self {
            ActionMethod::Get => "GET",
            ActionMethod::Post => "POST",
        }
    }
}

#[derive(Debug, Clone, PartialEq, Eq)]
pub struct Button {
    pub id: String,
    pub label: String,
    pub target: String,
    pub method: ActionMethod,
    pub confirm: Option<String>,
    pub auth: Option<String>,
}

pub ghost struct ButtonV {
    pub id: Seq<char>,
    pub label: Seq<char>,
    pub target: Seq<char>,
    pub method: ActionMethod,
    pub confirm: Option<Seq<char>>,
    pub auth: Option<Seq<char>>,
}

impl View for Button {
    type V = ButtonV;

    open spec fn view(&self) -> ButtonV {
        ButtonV {
            id: self.id@,
            label: self.label@,
            target: self.target@,
            method: self.method,
            confirm: opt_str(self.confirm),
            auth: opt_str(self.auth),
        }
    }
}

#[derive(Debug, Clone, PartialEq, Eq)]
pub struct Image {
    pub source: String,
    pub alt: String,
}

pub ghost struct ImageV {
    pub source: Seq<char>,
    pub alt: Seq<char>,
}

impl View for Image {
    type V = ImageV;

    open spec fn view(&self) -> ImageV {
        ImageV { source: self.source@, alt: self.alt@ }
    }
}

#[derive(Debug, Clone, PartialEq, Eq)]
pub enum Block {
    Heading { level: u8, text: String },
    Paragraph(String),
    Link(Link),
    Input(Input),
    Button(Button),
    Image(Image),
    Quote(String),
    List(Vec<String>),
    Rule,
    Table(Table),
    Preformatted { code: String, language: Option<String> },
    Script { wasm: Vec<u8>, label: Option<String> },
}

pub ghost enum BlockV {
    Heading { level: u8, text: Seq<char> },
    Paragraph(Seq<char>),
    Link(LinkV),
    Input(InputV),
    Button(ButtonV),
    Image(ImageV),
    Quote(Seq<char>),
    List(Seq<Seq<char>>),
    Rule,
    Table(TableV),
    Preformatted { code: Seq<char>, language: Option<Seq<char>> },
    Script { wasm: Seq<u8>, label: Option<Seq<char>> },
}

impl View for Block {
    type V = BlockV;

    open spec fn view(&self) -> BlockV {
        match self {
            Block::Heading { level, text } => BlockV::Heading { level: *level, text: text@ },
            Block::Paragraph(t) => BlockV::Paragraph(t@),
            Block::Link(l) => BlockV::Link(l@),
            Block::Input(i) => BlockV::Input(i@),
            Block::Button(b) => BlockV::Button(b@),
            Block::Image(i) => BlockV::Image(i@),
            Block::Quote(t) => BlockV::Quote(t@),
            Block::List(items) => BlockV::List(strs(items@)),
            Block::Rule => BlockV::Rule,
            Block::Table(t) => BlockV::Table(t@),
            Block::Preformatted { code, language } => BlockV::Preformatted {
                code: code@,
                language: opt_str(*language),
            },
            Block::Script { wasm, label } => BlockV::Script { wasm: wasm@, label: opt_str(*label) },
        }
    }
}

pub open spec fn blocks_view(v: Seq<Block>) -> Seq<BlockV> {
    v.map_values(|b: Block| b@)
}

#[derive(Debug, Clone, PartialEq, Eq, Default)]
pub struct Document {
    pub blocks: Vec<Block>,
    pub metadata: Option<String>,
}

pub ghost struct DocumentV {
    pub blocks: Seq<BlockV>,
    pub metadata: Option<Seq<char>>,
}

impl View for Document {
    type V = DocumentV;

    open spec fn view(&self) -> DocumentV {
        DocumentV { blocks: blocks_view(self.blocks@), metadata: opt_str(self.metadata) }
    }
}

/// The part of a line before its first `:` and the part after it.
pub open spec fn split_colon(l: Seq<char>) -> Option<(Seq<char>, Seq<char>)> {
    let i = text::char_from(l, ':', 0);
    if i < l.len() {
        Some((l.take(i), l.skip(i + 1)))
    } else {
        None
    }
}

/// The value a `key: value` line gives `key` (case-insensitive key, trimmed,
/// non-empty value).
pub open spec fn line_value(l: Seq<char>, key: Seq<char>) -> Option<Seq<char>> {
    match split_colon(l) {
        Some((k, v)) => if text::eq_ic(text::trim(k), key) && text::trim(v).len() > 0 {
            Some(text::trim(v))
        } else {
            None
        },
        None => None,
    }
}

/// The value of the first line of `ls` that gives `key` a value.
pub open spec fn first_value(ls: Seq<Seq<char>>, key: Seq<char>) -> Option<Seq<char>>
    decreases ls.len(),
{
    if ls.len() == 0 {
        None
    } else {
        match line_value(ls[0], key) {
            Some(v) => Some(v),
            None => first_value(ls.drop_first(), key),
        }
    }
}

/// The value that metadata gives `key`.
pub open spec fn metadata_value(meta: Seq<char>, key: Seq<char>) -> Option<Seq<char>> {
    first_value(text::lines(meta), key)
}

pub proof fn lemma_first_value_take(ls: Seq<Seq<char>>, key: Seq<char>, k: int)
    requires
        0 <= k < ls.len(),
        first_value(ls.take(k), key) is None,
    ensures
        first_value(ls.take(k + 1), key) == line_value(ls[k], key),
        first_value(ls, key) == (match line_value(ls[k], key) {
            Some(v) => Some(v),
            None => first_value(ls.skip(k + 1), key),
        }),
    decreases k,
{
    if k == 0 {
        assert(ls.take(1).drop_first() == Seq::<Seq<char>>::empty());
        assert(first_value(Seq::<Seq<char>>::empty(), key) is None);
        assert(ls.take(1)[0] == ls[0]);
        assert(ls.skip(1) == ls.drop_first());
    } else {
        assert(ls.take(k)[0] == ls[0]);
        assert(ls.take(k + 1)[0] == ls[0]);
        assert(line_value(ls[0], key) is None);
        assert(ls.take(k).drop_first() == ls.drop_first().take(k - 1));
        assert(ls.take(k + 1).drop_first() == ls.drop_first().take(k));
        assert(ls.drop_first().skip(k) == ls.skip(k + 1));
        lemma_first_value_take(ls.drop_first(), key, k - 1);
    }
}

/// The bounds, inside `s`, of the value the metadata `s` gives `key`.
pub fn metadata_value_bounds(s: &[char], key: &[char]) -> (r: Option<(usize, usize)>)
    ensures
        r is None ==> metadata_value(s@, key@) is None,
        r matches Some((a, b)) ==> a <= b <= s@.len() && metadata_value(s@, key@) == Some(
            s@.subrange(a as int, b as int),
        ),
{
    let rs = text::line_ranges(s);
    let ghost ls = text::lines(s@);
    let mut k: usize = 0;
    assert(ls.take(0) == Seq::<Seq<char>>::empty());
    while k < rs.len()
        invariant
            k <= rs@.len(),
            text::ranges_of(s@, rs@, ls),
            ls == text::lines(s@),
            first_value(ls.take(k as int), key@) is None,
        decreases rs@.len() - k,
    {
        let (a, b) = rs[k];
        proof {
            lemma_first_value_take(ls, key@, k as int);
        }
        let ghost l = s@.subrange(a as int, b as int);
        let c = text::find_char(s, ':', a);
        proof {
            text::lemma_char_from(s@, ':', a as int);
        }
        if c < b {
            proof {
                text::lemma_char_from(l, ':', 0);
                assert forall|j: int| 0 <= j < c - a implies l[j] != ':' by {
                    assert(l[j] == s@[a + j]);
                }
                assert(l[c - a] == ':');
                lemma_char_from_exact(l, ':', (c - a) as int);
            }
            let key_part = text::slice_of(s, a, c);
            let (ka, kb) = text::trim_bounds(key_part.as_slice());
            let key_trim = text::slice_of(key_part.as_slice(), ka, kb);
            let val_part = text::slice_of(s, c + 1, b);
            let (va, vb) = text::trim_bounds(val_part.as_slice());
            assert(key_part@ == l.take(c - a));
            assert(val_part@ == l.skip(c - a + 1));
            if va < vb && text::chars_eq_ic(key_trim.as_slice(), key) {
                assert(s@.subrange(c + 1 + va, c + 1 + vb) == val_part@.subrange(va as int, vb as int));
                return Some((c + 1 + va, c + 1 + vb));
            }
        } else {
            proof {
                assert forall|j: int| 0 <= j < l.len() implies l[j] != ':' by {
                    assert(l[j] == s@[a + j]);
                }
                lemma_char_absent(l, ':');
            }
        }
        assert(ls.take(k + 1) == ls.take(k as int).push(ls[k as int]));
        k = k + 1;
    }
    assert(ls.take(rs@.len() as int) == ls);
    None
}

proof fn lemma_char_from_exact(s: Seq<char>, c: char, k: int)
    requires
        0 <= k < s.len(),
        s[k] == c,
        forall|j: int| 0 <= j < k ==> s[j] != c,
    ensures
        text::char_from(s, c, 0) == k,
{
    text::lemma_char_from(s, c, 0);
}

proof fn lemma_char_absent(s: Seq<char>, c: char)
    requires
        forall|j: int| 0 <= j < s.len() ==> s[j] != c,
    ensures
        text::char_from(s, c, 0) == s.len(),
{
    text::lemma_char_from(s, c, 0);
}


pub open spec fn opt_strref(o: Option<&str>) -> Option<Seq<char>> {
    match o {
        Some(s) => Some(s@),
        None => None,
    }
}

pub open spec fn is_h1(b: BlockV) -> bool {
    b matches BlockV::Heading { level, .. } && level == 1
}

/// The text of the first level-1 heading.
pub open spec fn first_h1(bs: Seq<BlockV>) -> Option<Seq<char>>
    decreases bs.len(),
{
    if bs.len() == 0 {
        None
    } else {
        match bs[0] {
            BlockV::Heading { level, text } => if level == 1 {
                Some(text)
            } else {
                first_h1(bs.drop_first())
            },
            _ => first_h1(bs.drop_first()),
        }
    }
}

pub proof fn lemma_first_h1_take(bs: Seq<BlockV>, k: int)
    requires
        0 <= k < bs.len(),
        first_h1(bs.take(k)) is None,
    ensures
        first_h1(bs) == (match bs[k] {
            BlockV::Heading { level, text } => if level == 1 {
                Some(text)
            } else {
                first_h1(bs.skip(k + 1))
            },
            _ => first_h1(bs.skip(k + 1)),
        }),
    decreases k,
{
    if k == 0 {
        assert(bs.skip(1) == bs.drop_first());
    } else {
        assert(bs.take(k)[0] == bs[0]);
        assert(bs.take(k).drop_first() == bs.drop_first().take(k - 1));
        assert(bs.drop_first().skip(k) == bs.skip(k + 1));
        lemma_first_h1_take(bs.drop_first(), k - 1);
    }
}

pub proof fn lemma_first_h1_none(bs: Seq<BlockV>)
    requires
        forall|j: int| 0 <= j < bs.len() ==> !is_h1(#[trigger] bs[j]),
    ensures
        first_h1(bs) is None,
    decreases bs.len(),
{
    if bs.len() > 0 {
        lemma_first_h1_none(bs.drop_first());
    }
}

impl DocumentV {
    pub open spec fn title_key() -> Seq<char> {
        seq!['t', 'i', 't', 'l', 'e']
    }

    /// The non-empty `title:` value of the metadata.
    pub open spec fn metadata_title(self) -> Option<Seq<char>> {
        match self.metadata {
            Some(m) => metadata_value(m, Self::title_key()),
            None => None,
        }
    }

    /// The metadata title, or else the first level-1 heading.
    pub open spec fn title(self) -> Option<Seq<char>> {
        match self.metadata_title() {
            Some(t) => Some(t),
            None => first_h1(self.blocks),
        }
    }
}

impl Document {
    pub fn new(blocks: Vec<Block>) -> (r: Self)
        ensures
            r.blocks == blocks,
            r.metadata is None,
    {
        Document { blocks, metadata: None }
    }

    pub fn with_metadata(blocks: Vec<Block>, metadata: Option<String>) -> (r: Self)
        ensures
            r.blocks == blocks,
            r.metadata == metadata,
    {
        Document { blocks, metadata }
    }

    pub fn metadata_title(&self) -> (r: Option<&str>)
        ensures
            opt_strref(r) == self@.metadata_title(),
    {
        match &self.metadata {
            None => None,
            Some(meta) => {
                let m = meta.as_str();
                let cs = text::chars_of(m);
                let key = ['t', 'i', 't', 'l', 'e'];
                assert(key@ == DocumentV::title_key());
                match metadata_value_bounds(cs.as_slice(), key.as_slice()) {
                    Some((a, b)) => Some(m.substring_char(a, b)),
                    None => None,
                }
            },
        }
    }

    pub fn title(&self) -> (r: Option<&str>)
        ensures
            opt_strref(r) == self@.title(),
    {
        if let Some(t) = self.metadata_title() {
            return Some(t);
        }
        let mut i: usize = 0;
        let ghost bs = self@.blocks;
        assert(bs.take(0) == Seq::<BlockV>::empty());
        while i < self.blocks.len()
            invariant
                i <= self.blocks@.len(),
                bs == self@.blocks,
                bs.len() == self.blocks@.len(),
                self@.metadata_title() is None,
                forall|j: int| 0 <= j < i ==> !is_h1(#[trigger] bs[j]),
            decreases self.blocks@.len() - i,
        {
            proof {
                lemma_first_h1_none(bs.take(i as int));
                lemma_first_h1_take(bs, i as int);
            }
            match &self.blocks[i] {
                Block::Heading { level, text } => {
                    if *level == 1 {
                        return Some(text.as_str());
                    }
                },
                _ => {},
            }
            i = i + 1;
        }
        proof {
            lemma_first_h1_none(bs);
        }
        None
    }
}

pub(crate) fn copy_strings(v: &Vec<String>) -> (r: Vec<String>)
    ensures
        strs(r@) == strs(v@),
{
    let mut out: Vec<String> = Vec::new();
    let mut i: usize = 0;
    while i < v.len()
        invariant
            i <= v@.len(),
            strs(out@) == strs(v@).take(i as int),
        decreases v@.len() - i,
    {
        let s = v[i].clone();
        let ghost before = out@;
        out.push(s);
        assert(strs(out@) =~= strs(before).push(s@));
        assert(strs(v@).take(i + 1) =~= strs(v@).take(i as int).push(v@[i as int]@));
        i = i + 1;
    }
    assert(strs(v@).take(v@.len() as int) =~= strs(v@));
    out
}

pub(crate) fn copy_rows(v: &Vec<Vec<String>>) -> (r: Vec<Vec<String>>)
    ensures
        rows_view(r@) == rows_view(v@),
{
    let mut out: Vec<Vec<String>> = Vec::new();
    let mut i: usize = 0;
    while i < v.len()
        invariant
            i <= v@.len(),
            rows_view(out@) == rows_view(v@).take(i as int),
        decreases v@.len() - i,
    {
        let s = copy_strings(&v[i]);
        let ghost before = out@;
        out.push(s);
        assert(rows_view(out@) =~= rows_view(before).push(strs(s@)));
        assert(rows_view(v@).take(i + 1) =~= rows_view(v@).take(i as int).push(
            strs(v@[i as int]@),
        ));
        i = i + 1;
    }
    assert(rows_view(v@).take(v@.len() as int) =~= rows_view(v@));
    out
}

pub(crate) fn copy_opt(o: &Option<String>) -> (r: Option<String>)
    ensures
        opt_str(r) == opt_str(*o),
{
    match o {
        Some(s) => Some(s.clone()),
        None => None,
    }
}

pub(crate) fn copy_block(b: &Block) -> (r: Block)
    ensures
        r@ == b@,
{
    match b {
        Block::Heading { level, text } => Block::Heading { level: *level, text: text.clone() },
        Block::Paragraph(t) => Block::Paragraph(t.clone()),
        Block::Link(l) => Block::Link(Link { target: l.target.clone(), label: l.label.clone() }),
        Block::Input(i) => Block::Input(
            Input {
                name: i.name.clone(),
                label: i.label.clone(),
                value: i.value.clone(),
                placeholder: copy_opt(&i.placeholder),
            },
        ),
        Block::Button(bt) => Block::Button(
            Button {
                id: bt.id.clone(),
                label: bt.label.clone(),
                target: bt.target.clone(),
                method: bt.method,
                confirm: copy_opt(&bt.confirm),
                auth: copy_opt(&bt.auth),
            },
        ),
        Block::Image(im) => Block::Image(Image { source: im.source.clone(), alt: im.alt.clone() }),
        Block::Quote(t) => Block::Quote(t.clone()),
        Block::List(items) => Block::List(copy_strings(items)),
        Block::Rule => Block::Rule,
        Block::Table(t) => Block::Table(Table { headers: copy_strings(&t.headers), rows: copy_rows(&t.rows) }),
        Block::Preformatted { code, language } => Block::Preformatted {
            code: code.clone(),
            language: copy_opt(language),
        },
        Block::Script { wasm, label } => {
            let mut w: Vec<u8> = Vec::new();
            let mut i: usize = 0;
            while i < wasm.len()
                invariant
                    i <= wasm@.len(),
                    w@ == wasm@.take(i as int),
                decreases wasm@.len() - i,
            {
                w.push(wasm[i]);
                i = i + 1;
                assert(w@ =~= wasm@.take(i as int));
            }
            assert(wasm@.take(wasm@.len() as int) =~= wasm@);
            Block::Script { wasm: w, label: copy_opt(label) }
        },
    }
}

} // verus!
