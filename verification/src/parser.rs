//! The plain-text page syntax: one block per line (or per run of lines),
//! with metadata after a `~~~~~` line.

use vstd::prelude::*;
use crate::text;
use crate::document::{
    ActionMethod, Block, BlockV, Button, ButtonV, Document, DocumentV, Image, ImageV, Input, InputV,
    Link, LinkV, Table, TableV,
};

verus! {

/// The value of `key="..."` in an attribute list.
pub open spec fn attr(input: Seq<char>, key: Seq<char>) -> Option<Seq<char>> {
    let needle = key + seq!['=', '"'];
    match text::find(input, needle) {
        Some(i) => {
            let rest = input.skip(i + needle.len());
            let e = text::char_from(rest, '"', 0);
            if e < rest.len() {
                Some(rest.take(e))
            } else {
                None
            }
        },
        None => None,
    }
}

pub fn parse_quoted_attr(input: &[char], key: &[char]) -> (r: Option<Vec<char>>)
    ensures
        r matches Some(v) ==> attr(input@, key@) == Some(v@),
        r is None ==> attr(input@, key@) is None,
{
    let mut needle = text::copy_chars(key);
    needle.push('=');
    needle.push('"');
    assert(needle@ == key@ + seq!['=', '"']);
    match text::find_sub(input, needle.as_slice(), 0) {
        Some(i) => {
            proof {
                assert(text::find_from(input@, needle@, 0) == Some(i as int));
                text::lemma_find_from_bounds(input@, needle@, 0);
                assert(text::occurs_at(input@, needle@, i as int));
                assert(i + needle@.len() <= input@.len());
                assert(input@.len() == input.len());
            }
            let start = i + needle.len();
            let rest = text::slice_of(input, start, input.len());
            assert(rest@ == input@.skip(start as int));
            let e = text::find_char(rest.as_slice(), '"', 0);
            if e < rest.len() {
                let v = text::slice_of(rest.as_slice(), 0, e);
                assert(v@ == rest@.take(e as int));
                Some(v)
            } else {
                None
            }
        },
        None => None,
    }
}

fn opt_string(o: Option<Vec<char>>) -> (r: Option<String>)
    ensures
        o is None ==> r is None,
        o matches Some(v) ==> r matches Some(s) && s@ == v@,
{
    match o {
        Some(v) => Some(text::string_from(v.as_slice())),
        None => None,
    }
}

fn attr_or(attrs: &[char], key: &[char], dflt: &[char]) -> (r: String)
    ensures
        r@ == (match attr(attrs@, key@) {
            Some(v) => v,
            None => dflt@,
        }),
{
    match parse_quoted_attr(attrs, key) {
        Some(v) => text::string_from(v.as_slice()),
        None => text::string_from(dflt),
    }
}

/// A heading line: one to six `#` then a space.
pub open spec fn spec_heading(t: Seq<char>) -> Option<BlockV> {
    let h = text::lead(t, '#', 0);
    if h == 0 || h > 6 {
        None
    } else if h < t.len() && t[h] == ' ' {
        Some(BlockV::Heading { level: h as u8, text: text::trim(t.skip(h + 1)) })
    } else {
        None
    }
}

pub fn parse_heading(t: &[char]) -> (r: Option<Block>)
    ensures
        r matches Some(b) ==> spec_heading(t@) == Some(b@),
        r is None ==> spec_heading(t@) is None,
{
    let h = text::lead_count(t, '#');
    proof {
        text::lemma_lead(t@, '#', 0);
    }
    if h == 0 || h > 6 {
        None
    } else if h < t.len() && t[h] == ' ' {
        let rest = text::slice_of(t, h + 1, t.len());
        assert(rest@ == t@.skip(h + 1));
        let body = text::trimmed(rest.as_slice());
        Some(Block::Heading { level: h as u8, text: text::string_from(body.as_slice()) })
    } else {
        None
    }
}

/// A thematic break: `---`, `***` or `___`.
pub open spec fn spec_is_rule(t: Seq<char>) -> bool {
    ||| t == seq!['-', '-', '-']
    ||| t == seq!['*', '*', '*']
    ||| t == seq!['_', '_', '_']
}

pub fn is_rule(t: &[char]) -> (r: bool)
    ensures
        r == spec_is_rule(t@),
{
    if t.len() != 3 {
        return false;
    }
    let c = t[0];
    let r = (c == '-' || c == '*' || c == '_') && t[1] == c && t[2] == c;
    assert(r ==> t@ == seq![c, c, c]);
    r
}

/// The text of a list item: `- ` or `* ` then non-blank text.
pub open spec fn spec_list_item(t: Seq<char>) -> Option<Seq<char>> {
    if seq!['-', ' '].is_prefix_of(t) || seq!['*', ' '].is_prefix_of(t) {
        let x = text::trim(t.skip(2));
        if x.len() > 0 {
            Some(x)
        } else {
            None
        }
    } else {
        None
    }
}

pub fn list_item_text(t: &[char]) -> (r: Option<Vec<char>>)
    ensures
        r matches Some(v) ==> spec_list_item(t@) == Some(v@),
        r is None ==> spec_list_item(t@) is None,
{
    if t.len() >= 2 && (t[0] == '-' || t[0] == '*') && t[1] == ' ' {
        assert(seq![t@[0], ' '] =~= t@.take(2));
        let rest = text::slice_of(t, 2, t.len());
        assert(rest@ == t@.skip(2));
        let x = text::trimmed(rest.as_slice());
        if x.len() > 0 {
            Some(x)
        } else {
            None
        }
    } else {
        proof {
            if t@.len() >= 2 {
                assert(seq!['-', ' '].is_prefix_of(t@) ==> t@[0] == '-' && t@[1] == ' ');
                assert(seq!['*', ' '].is_prefix_of(t@) ==> t@[0] == '*' && t@[1] == ' ');
            }
        }
        None
    }
}

/// The part of a line after a marker, trimmed, cut at its first whitespace.
pub open spec fn head_word(rem: Seq<char>) -> Seq<char> {
    text::trim(rem.take(text::ws_from(rem, 0)))
}

/// What follows the first word: everything after the first whitespace character.
pub open spec fn tail_words(rem: Seq<char>) -> Option<Seq<char>> {
    let w = text::ws_from(rem, 0);
    if w < rem.len() {
        Some(rem.skip(w + 1))
    } else {
        None
    }
}

fn split_head(rem: &[char]) -> (r: (Vec<char>, Option<Vec<char>>))
    ensures
        r.0@ == head_word(rem@),
        r.1 is None ==> tail_words(rem@) is None,
        r.1 matches Some(v) ==> tail_words(rem@) == Some(v@),
{
    let w = text::find_ws(rem);
    let first = text::slice_of(rem, 0, w);
    assert(first@ == rem@.take(w as int));
    let head = text::trimmed(first.as_slice());
    if w < rem.len() {
        let tail = text::slice_of(rem, w + 1, rem.len());
        assert(tail@ == rem@.skip(w + 1));
        (head, Some(tail))
    } else {
        (head, None)
    }
}

/// A link line: `=> target [label]`.
pub open spec fn spec_link(t: Seq<char>) -> Option<LinkV> {
    if seq!['=', '>'].is_prefix_of(t) {
        let rem = text::trim(t.skip(2));
        if rem.len() == 0 {
            None
        } else {
            let target = head_word(rem);
            let label = match tail_words(rem) {
                Some(x) => if text::trim(x).len() > 0 {
                    text::trim(x)
                } else {
                    target
                },
                None => target,
            };
            Some(LinkV { target, label })
        }
    } else {
        None
    }
}

fn marker_rest(t: &[char], n: usize) -> (r: Vec<char>)
    requires
        n <= t@.len(),
    ensures
        r@ == text::trim(t@.skip(n as int)),
{
    let rest = text::slice_of(t, n, t.len());
    assert(rest@ == t@.skip(n as int));
    text::trimmed(rest.as_slice())
}

pub fn parse_link(t: &[char]) -> (r: Option<Link>)
    ensures
        r matches Some(l) ==> spec_link(t@) == Some(l@),
        r is None ==> spec_link(t@) is None,
{
    let arrow = ['=', '>'];
    assert(arrow@ == seq!['=', '>']);
    if !text::starts_with(t, arrow.as_slice()) {
        return None;
    }
    let rem = marker_rest(t, 2);
    if rem.len() == 0 {
        return None;
    }
    let (target, tail) = split_head(rem.as_slice());
    let label = match tail {
        Some(x) => {
            let tx = text::trimmed(x.as_slice());
            if tx.len() > 0 {
                tx
            } else {
                text::copy_chars(target.as_slice())
            }
        },
        None => text::copy_chars(target.as_slice()),
    };
    Some(Link {
        target: text::string_from(target.as_slice()),
        label: text::string_from(label.as_slice()),
    })
}


pub open spec fn k_label() -> Seq<char> {
    seq!['l', 'a', 'b', 'e', 'l']
}

pub open spec fn k_target() -> Seq<char> {
    seq!['t', 'a', 'r', 'g', 'e', 't']
}

pub open spec fn k_method() -> Seq<char> {
    seq!['m', 'e', 't', 'h', 'o', 'd']
}

pub open spec fn k_confirm() -> Seq<char> {
    seq!['c', 'o', 'n', 'f', 'i', 'r', 'm']
}

pub open spec fn k_auth() -> Seq<char> {
    seq!['a', 'u', 't', 'h']
}

pub open spec fn k_value() -> Seq<char> {
    seq!['v', 'a', 'l', 'u', 'e']
}

pub open spec fn k_placeholder() -> Seq<char> {
    seq!['p', 'l', 'a', 'c', 'e', 'h', 'o', 'l', 'd', 'e', 'r']
}

pub open spec fn k_alt() -> Seq<char> {
    seq!['a', 'l', 't']
}

pub open spec fn attr_or_spec(attrs: Seq<char>, key: Seq<char>, dflt: Seq<char>) -> Seq<char> {
    match attr(attrs, key) {
        Some(v) => v,
        None => dflt,
    }
}

/// The attribute list after the first word (empty when there is none).
pub open spec fn attrs_of(rem: Seq<char>) -> Seq<char> {
    match tail_words(rem) {
        Some(x) => x,
        None => Seq::empty(),
    }
}

/// A button line: `!id label="..." target="..." method="..." confirm="..." auth="..."`.
pub open spec fn spec_button(t: Seq<char>) -> Option<ButtonV> {
    if t.len() > 0 && t[0] == '!' {
        let rem = text::trim(t.skip(1));
        let id = head_word(rem);
        if id.len() == 0 {
            None
        } else {
            let attrs = attrs_of(rem);
            Some(
                ButtonV {
                    id,
                    label: attr_or_spec(attrs, k_label(), id),
                    target: attr_or_spec(attrs, k_target(), id),
                    method: match attr(attrs, k_method()) {
                        Some(m) => match ActionMethod::spec_parse(m) {
                            Some(am) => am,
                            None => ActionMethod::Get,
                        },
                        None => ActionMethod::Get,
                    },
                    confirm: attr(attrs, k_confirm()),
                    auth: attr(attrs, k_auth()),
                },
            )
        }
    } else {
        None
    }
}

fn head_and_attrs(t: &[char]) -> (r: (Vec<char>, Vec<char>))
    requires
        t@.len() > 0,
    ensures
        r.0@ == head_word(text::trim(t@.skip(1))),
        r.1@ == attrs_of(text::trim(t@.skip(1))),
{
    let rem = marker_rest(t, 1);
    let (head, tail) = split_head(rem.as_slice());
    let attrs = match tail {
        Some(x) => x,
        None => Vec::new(),
    };
    (head, attrs)
}

pub fn parse_button(t: &[char]) -> (r: Option<Button>)
    ensures
        r matches Some(b) ==> spec_button(t@) == Some(b@),
        r is None ==> spec_button(t@) is None,
{
    if t.len() == 0 || t[0] != '!' {
        return None;
    }
    let (id, attrs) = head_and_attrs(t);
    if id.len() == 0 {
        return None;
    }
    let kl = ['l', 'a', 'b', 'e', 'l'];
    let kt = ['t', 'a', 'r', 'g', 'e', 't'];
    let km = ['m', 'e', 't', 'h', 'o', 'd'];
    let kc = ['c', 'o', 'n', 'f', 'i', 'r', 'm'];
    let ka = ['a', 'u', 't', 'h'];
    assert(kl@ == k_label() && kt@ == k_target() && km@ == k_method());
    assert(kc@ == k_confirm() && ka@ == k_auth());
    let label = attr_or(attrs.as_slice(), kl.as_slice(), id.as_slice());
    let target = attr_or(attrs.as_slice(), kt.as_slice(), id.as_slice());
    let method = match parse_quoted_attr(attrs.as_slice(), km.as_slice()) {
        Some(m) => match ActionMethod::parse(m.as_slice()) {
            Some(am) => am,
            None => ActionMethod::Get,
        },
        None => ActionMethod::Get,
    };
    let confirm = opt_string(parse_quoted_attr(attrs.as_slice(), kc.as_slice()));
    let auth = opt_string(parse_quoted_attr(attrs.as_slice(), ka.as_slice()));
    Some(Button { id: text::string_from(id.as_slice()), label, target, method, confirm, auth })
}

/// An input line: `?name label="..." value="..." placeholder="..."`.
pub open spec fn spec_input(t: Seq<char>) -> Option<InputV> {
    if t.len() > 0 && t[0] == '?' {
        let rem = text::trim(t.skip(1));
        let name = head_word(rem);
        if name.len() == 0 {
            None
        } else {
            let attrs = attrs_of(rem);
            Some(
                InputV {
                    name,
                    label: attr_or_spec(attrs, k_label(), name),
                    value: attr_or_spec(attrs, k_value(), Seq::empty()),
                    placeholder: attr(attrs, k_placeholder()),
                },
            )
        }
    } else {
        None
    }
}

pub fn parse_input(t: &[char]) -> (r: Option<Input>)
    ensures
        r matches Some(i) ==> spec_input(t@) == Some(i@),
        r is None ==> spec_input(t@) is None,
{
    if t.len() == 0 || t[0] != '?' {
        return None;
    }
    let (name, attrs) = head_and_attrs(t);
    if name.len() == 0 {
        return None;
    }
    let kl = ['l', 'a', 'b', 'e', 'l'];
    let kv = ['v', 'a', 'l', 'u', 'e'];
    let kp = ['p', 'l', 'a', 'c', 'e', 'h', 'o', 'l', 'd', 'e', 'r'];
    assert(kl@ == k_label() && kv@ == k_value() && kp@ == k_placeholder());
    let empty: Vec<char> = Vec::new();
    let label = attr_or(attrs.as_slice(), kl.as_slice(), name.as_slice());
    let value = attr_or(attrs.as_slice(), kv.as_slice(), empty.as_slice());
    let placeholder = opt_string(parse_quoted_attr(attrs.as_slice(), kp.as_slice()));
    Some(Input { name: text::string_from(name.as_slice()), label, value, placeholder })
}

/// An image line: `@source alt="..."`.
pub open spec fn spec_image(t: Seq<char>) -> Option<ImageV> {
    if t.len() > 0 && t[0] == '@' {
        let rem = text::trim(t.skip(1));
        let source = head_word(rem);
        if source.len() == 0 {
            None
        } else {
            Some(ImageV { source, alt: attr_or_spec(attrs_of(rem), k_alt(), source) })
        }
    } else {
        None
    }
}

pub fn parse_image(t: &[char]) -> (r: Option<Image>)
    ensures
        r matches Some(i) ==> spec_image(t@) == Some(i@),
        r is None ==> spec_image(t@) is None,
{
    if t.len() == 0 || t[0] != '@' {
        return None;
    }
    let (source, attrs) = head_and_attrs(t);
    if source.len() == 0 {
        return None;
    }
    let ka = ['a', 'l', 't'];
    assert(ka@ == k_alt());
    let alt = attr_or(attrs.as_slice(), ka.as_slice(), source.as_slice());
    Some(Image { source: text::string_from(source.as_slice()), alt })
}


/// The trimmed cells of a table row, without the outer pipes.
pub open spec fn table_row(t: Seq<char>) -> Seq<Seq<char>> {
    text::split_on(text::trim_matches(t, '|'), '|').map_values(|c: Seq<char>| text::trim(c))
}

pub fn parse_table_row(t: &[char]) -> (r: Vec<Vec<char>>)
    ensures
        text::views(r@) == table_row(t@),
{
    let inner = text::trim_matches_vec(t, '|');
    let parts = text::split_vecs(inner.as_slice(), '|');
    let ghost ps = text::views(parts@);
    let mut out: Vec<Vec<char>> = Vec::new();
    let mut i: usize = 0;
    while i < parts.len()
        invariant
            i <= parts@.len(),
            ps == text::views(parts@),
            text::views(out@) == ps.take(i as int).map_values(|c: Seq<char>| text::trim(c)),
        decreases parts@.len() - i,
    {
        let c = text::trimmed(parts[i].as_slice());
        let ghost before = out@;
        out.push(c);
        assert(text::views(out@) == text::views(before).push(c@));
        assert(ps.take(i + 1) == ps.take(i as int).push(ps[i as int]));
        i = i + 1;
    }
    assert(ps.take(parts@.len() as int) == ps);
    out
}

pub open spec fn sep_char(c: char) -> bool {
    c == '-' || c == ':' || c == ' '
}

/// A cell of a table's separator row: at least three of `-`, `:` and space,
/// with at least one `-`.
pub open spec fn sep_cell(c: Seq<char>) -> bool {
    &&& c.len() >= 3
    &&& forall|j: int| 0 <= j < c.len() ==> sep_char(#[trigger] c[j])
    &&& exists|j: int| 0 <= j < c.len() && #[trigger] c[j] == '-'
}

pub open spec fn is_sep_row(cells: Seq<Seq<char>>) -> bool {
    cells.len() > 0 && forall|i: int| 0 <= i < cells.len() ==> sep_cell(text::trim(#[trigger] cells[i]))
}

fn is_sep_cell(c: &[char]) -> (r: bool)
    ensures
        r == sep_cell(c@),
{
    if c.len() < 3 {
        return false;
    }
    let mut i: usize = 0;
    let mut dash = false;
    while i < c.len()
        invariant
            i <= c@.len(),
            forall|j: int| 0 <= j < i ==> sep_char(#[trigger] c@[j]),
            dash <==> exists|j: int| 0 <= j < i && #[trigger] c@[j] == '-',
        decreases c@.len() - i,
    {
        let d = c[i];
        if !(d == '-' || d == ':' || d == ' ') {
            return false;
        }
        if d == '-' {
            dash = true;
        }
        i = i + 1;
    }
    dash
}

pub fn is_table_separator(cells: &Vec<Vec<char>>) -> (r: bool)
    ensures
        r == is_sep_row(text::views(cells@)),
{
    if cells.len() == 0 {
        return false;
    }
    let ghost cs = text::views(cells@);
    let mut i: usize = 0;
    while i < cells.len()
        invariant
            i <= cells@.len(),
            cs == text::views(cells@),
            forall|j: int| 0 <= j < i ==> sep_cell(text::trim(#[trigger] cs[j])),
        decreases cells@.len() - i,
    {
        let t = text::trimmed(cells[i].as_slice());
        if !is_sep_cell(t.as_slice()) {
            assert(!sep_cell(text::trim(cs[i as int])));
            return false;
        }
        i = i + 1;
    }
    true
}

pub open spec fn fence() -> Seq<char> {
    seq!['`', '`', '`']
}

pub open spec fn tilde5() -> Seq<char> {
    seq!['~', '~', '~', '~', '~']
}

/// Whether a trimmed line starts a block other than a paragraph.
pub open spec fn spec_block_start(t: Seq<char>) -> bool {
    ||| fence().is_prefix_of(t)
    ||| (t.len() > 0 && (t[0] == '|' || t[0] == '>'))
    ||| spec_list_item(t) is Some
    ||| spec_is_rule(t)
    ||| spec_heading(t) is Some
    ||| spec_link(t) is Some
    ||| spec_input(t) is Some
    ||| spec_button(t) is Some
    ||| spec_image(t) is Some
    ||| t == tilde5()
}

pub fn is_block_start(t: &[char]) -> (r: bool)
    ensures
        r == spec_block_start(t@),
{
    let f = ['`', '`', '`'];
    let tl = ['~', '~', '~', '~', '~'];
    assert(f@ == fence() && tl@ == tilde5());
    text::starts_with(t, f.as_slice()) || (t.len() > 0 && (t[0] == '|' || t[0] == '>'))
        || list_item_text(t).is_some() || is_rule(t) || parse_heading(t).is_some()
        || parse_link(t).is_some() || parse_input(t).is_some() || parse_button(t).is_some()
        || parse_image(t).is_some() || text::chars_eq(t, tl.as_slice())
}


/// Why a page failed to parse.
#[derive(Debug, Clone, Copy, PartialEq, Eq)]
pub enum ParseError {
    UnterminatedPreformatted { line: usize },
}

impl ParseError {
    /// The error as a sentence.
    pub open spec fn spec_message(self) -> Seq<char> {
        match self {
            ParseError::UnterminatedPreformatted { line } => "unterminated preformatted block starting at line "@
                + text::decimal(line as nat),
        }
    }

    /// The error as a sentence, as it is shown to a user.
    pub fn message(&self) -> (r: String)
        ensures
            r@ == self.spec_message(),
    {
        match self {
            ParseError::UnterminatedPreformatted { line } => {
                let mut v = text::chars_of("unterminated preformatted block starting at line ");
                text::push_decimal(&mut v, *line);
                text::string_from(v.as_slice())
            },
        }
    }
}

/// The kinds of block that run over consecutive lines.
#[derive(Clone, Copy)]
pub enum RunKind {
    Table,
    Quote,
    List,
    Paragraph,
}

/// Whether a trimmed line continues a run of the given kind.
pub open spec fn in_run(k: RunKind, t: Seq<char>) -> bool {
    match k {
        RunKind::Table => t.len() > 0 && t[0] == '|',
        RunKind::Quote => t.len() > 0 && t[0] == '>',
        RunKind::List => spec_list_item(t) is Some,
        RunKind::Paragraph => t.len() > 0 && !spec_block_start(t),
    }
}

pub open spec fn tl(ls: Seq<Seq<char>>, i: int) -> Seq<char> {
    text::trim(ls[i])
}

/// The end of the run of lines of kind `k` that starts at `j`.
pub open spec fn run_end(ls: Seq<Seq<char>>, j: int, k: RunKind) -> int
    decreases ls.len() - j,
{
    if 0 <= j < ls.len() && in_run(k, tl(ls, j)) {
        run_end(ls, j + 1, k)
    } else {
        j
    }
}

pub proof fn lemma_run_end(ls: Seq<Seq<char>>, j: int, k: RunKind)
    requires
        0 <= j <= ls.len(),
    ensures
        j <= run_end(ls, j, k) <= ls.len(),
        forall|i: int| j <= i < run_end(ls, j, k) ==> in_run(k, tl(ls, i)),
    decreases ls.len() - j,
{
    if j < ls.len() && in_run(k, tl(ls, j)) {
        lemma_run_end(ls, j + 1, k);
    }
}

/// The first line at or after `j` that closes a preformatted block.
pub open spec fn fence_end(ls: Seq<Seq<char>>, j: int) -> int
    decreases ls.len() - j,
{
    if 0 <= j < ls.len() && !fence().is_prefix_of(tl(ls, j)) {
        fence_end(ls, j + 1)
    } else {
        j
    }
}

pub proof fn lemma_fence_end(ls: Seq<Seq<char>>, j: int)
    requires
        0 <= j <= ls.len(),
    ensures
        j <= fence_end(ls, j) <= ls.len(),
        fence_end(ls, j) < ls.len() ==> fence().is_prefix_of(tl(ls, fence_end(ls, j))),
    decreases ls.len() - j,
{
    if j < ls.len() && !fence().is_prefix_of(tl(ls, j)) {
        lemma_fence_end(ls, j + 1);
    }
}

/// The language named after an opening fence.
pub open spec fn fence_lang(t: Seq<char>) -> Option<Seq<char>> {
    let l = text::trim(t.skip(3));
    if l.len() == 0 {
        None
    } else {
        Some(l)
    }
}

/// The rows (non-separator) of the table held by lines `c..j`.
pub open spec fn table_rows(ls: Seq<Seq<char>>, c: int, j: int) -> Seq<Seq<Seq<char>>>
    decreases j - c,
{
    if j <= c {
        Seq::empty()
    } else {
        let prev = table_rows(ls, c, j - 1);
        let cells = table_row(tl(ls, j - 1));
        if is_sep_row(cells) {
            prev
        } else {
            prev.push(cells)
        }
    }
}

pub open spec fn quote_text(t: Seq<char>) -> Seq<char> {
    text::trim(t.skip(1))
}

pub open spec fn list_text(t: Seq<char>) -> Seq<char> {
    match spec_list_item(t) {
        Some(x) => x,
        None => Seq::empty(),
    }
}

/// What a trimmed line of a run contributes to its block.
pub open spec fn run_text(k: RunKind, t: Seq<char>) -> Seq<char> {
    match k {
        RunKind::Quote => quote_text(t),
        RunKind::List => list_text(t),
        _ => t,
    }
}

pub open spec fn run_lines(ls: Seq<Seq<char>>, c: int, j: int, k: RunKind) -> Seq<Seq<char>> {
    ls.subrange(c, j).map_values(|l: Seq<char>| run_text(k, text::trim(l)))
}

/// The metadata held by the lines from `k` on: their trimmed join, if not empty.
pub open spec fn meta_of(ls: Seq<Seq<char>>, k: int) -> Option<Seq<char>> {
    let m = text::trim(text::join(ls.skip(k), seq!['\n']));
    if m.len() == 0 {
        None
    } else {
        Some(m)
    }
}

pub type Parsed = Result<(Seq<BlockV>, Option<Seq<char>>), ParseError>;

/// `r` with the blocks `acc` in front of its blocks.
pub open spec fn prefixed(acc: Seq<BlockV>, r: Parsed) -> Parsed {
    match r {
        Ok((bs, m)) => Ok((acc + bs, m)),
        Err(e) => Err(e),
    }
}

pub open spec fn cons(b: BlockV, r: Parsed) -> Parsed {
    prefixed(seq![b], r)
}

/// The blocks and metadata of the lines from `c` on.
pub open spec fn parse_from(ls: Seq<Seq<char>>, c: int) -> Parsed
    decreases ls.len() - c,
{
    if c < 0 || c >= ls.len() {
        Ok((Seq::empty(), None))
    } else {
        let t = tl(ls, c);
        if t == tilde5() {
            Ok((Seq::empty(), meta_of(ls, c + 1)))
        } else if t.len() == 0 {
            parse_from(ls, c + 1)
        } else if fence().is_prefix_of(t) {
            let j = fence_end(ls, c + 1);
            proof {
                lemma_fence_end(ls, c + 1);
            }
            if j >= ls.len() {
                Err(ParseError::UnterminatedPreformatted { line: (c + 1) as usize })
            } else {
                cons(
                    BlockV::Preformatted {
                        code: text::join(ls.subrange(c + 1, j), seq!['\n']),
                        language: fence_lang(t),
                    },
                    parse_from(ls, j + 1),
                )
            }
        } else if t[0] == '|' {
            let j = run_end(ls, c + 1, RunKind::Table);
            proof {
                lemma_run_end(ls, c + 1, RunKind::Table);
            }
            let rows = table_rows(ls, c, j);
            if rows.len() == 0 {
                parse_from(ls, j)
            } else {
                cons(
                    BlockV::Table(TableV { headers: rows[0], rows: rows.drop_first() }),
                    parse_from(ls, j),
                )
            }
        } else if t[0] == '>' {
            let j = run_end(ls, c + 1, RunKind::Quote);
            proof {
                lemma_run_end(ls, c + 1, RunKind::Quote);
            }
            cons(BlockV::Quote(text::join(run_lines(ls, c, j, RunKind::Quote), seq!['\n'])), parse_from(ls, j))
        } else if spec_list_item(t) is Some {
            let j = run_end(ls, c + 1, RunKind::List);
            proof {
                lemma_run_end(ls, c + 1, RunKind::List);
            }
            cons(BlockV::List(run_lines(ls, c, j, RunKind::List)), parse_from(ls, j))
        } else if spec_is_rule(t) {
            cons(BlockV::Rule, parse_from(ls, c + 1))
        } else if spec_heading(t) is Some {
            cons(spec_heading(t)->0, parse_from(ls, c + 1))
        } else if spec_link(t) is Some {
            cons(BlockV::Link(spec_link(t)->0), parse_from(ls, c + 1))
        } else if spec_input(t) is Some {
            cons(BlockV::Input(spec_input(t)->0), parse_from(ls, c + 1))
        } else if spec_button(t) is Some {
            cons(BlockV::Button(spec_button(t)->0), parse_from(ls, c + 1))
        } else if spec_image(t) is Some {
            cons(BlockV::Image(spec_image(t)->0), parse_from(ls, c + 1))
        } else {
            let j = run_end(ls, c + 1, RunKind::Paragraph);
            proof {
                lemma_run_end(ls, c + 1, RunKind::Paragraph);
            }
            cons(
                BlockV::Paragraph(text::join(run_lines(ls, c, j, RunKind::Paragraph), seq![' '])),
                parse_from(ls, j),
            )
        }
    }
}

// ----- What parsed paragraphs and lists look like -----

/// Text that is not empty and is its own trim.
pub open spec fn tidy_text(t: Seq<char>) -> bool {
    t.len() > 0 && text::trim(t) == t
}

/// A paragraph's text is tidy, and so is every item of a list, which has
/// at least one; other blocks are not constrained here.
pub open spec fn tidy_block(b: BlockV) -> bool {
    match b {
        BlockV::Paragraph(t) => tidy_text(t),
        BlockV::List(items) => items.len() > 0 && forall|i: int| 0 <= i < items.len() ==> tidy_text(#[trigger] items[i]),
        _ => true,
    }
}

proof fn lemma_trim_start_first(s: Seq<char>)
    ensures
        text::trim_start(s).len() > 0 ==> !text::is_ws(text::trim_start(s)[0]),
        text::trim_start(s).len() <= s.len(),
        text::trim_start(s).len() > 0 ==> text::trim_start(s).last() == s.last(),
    decreases s.len(),
{
    if s.len() > 0 && text::is_ws(s[0]) {
        lemma_trim_start_first(s.drop_first());
    }
}

proof fn lemma_trim_end_ends(s: Seq<char>)
    ensures
        text::trim_end(s).len() > 0 ==> !text::is_ws(text::trim_end(s).last()),
        text::trim_end(s).len() > 0 ==> text::trim_end(s)[0] == s[0],
    decreases s.len(),
{
    if s.len() > 0 && text::is_ws(s.last()) {
        lemma_trim_end_ends(s.drop_last());
    }
}

/// Trimmed text that is not empty starts and ends with other than
/// whitespace, and is its own trim.
proof fn lemma_trim_tidy(s: Seq<char>)
    requires
        text::trim(s).len() > 0,
    ensures
        !text::is_ws(text::trim(s)[0]),
        !text::is_ws(text::trim(s).last()),
        tidy_text(text::trim(s)),
{
    let a = text::trim_start(s);
    lemma_trim_start_first(s);
    lemma_trim_end_ends(a);
    text::lemma_trim_plain(text::trim(s));
}

/// Non-empty pieces that start and end with other than whitespace, joined
/// by a space, make tidy text.
proof fn lemma_join_tidy(ls: Seq<Seq<char>>)
    requires
        ls.len() > 0,
        forall|i: int| 0 <= i < ls.len() ==> (#[trigger] ls[i]).len() > 0 && !text::is_ws(ls[i][0]) && !text::is_ws(
            ls[i].last(),
        ),
    ensures
        text::join(ls, seq![' ']).len() > 0,
        text::join(ls, seq![' '])[0] == ls[0][0],
        text::join(ls, seq![' ']).last() == ls.last().last(),
    decreases ls.len(),
{
    if ls.len() > 1 {
        lemma_join_tidy(ls.drop_last());
        let j = text::join(ls.drop_last(), seq![' ']);
        assert((j + seq![' '] + ls.last())[0] == j[0]);
    }
}

proof fn lemma_cons_tidy(b: BlockV, r: Parsed)
    requires
        tidy_block(b),
        r matches Ok((bs, _)) ==> forall|i: int| 0 <= i < bs.len() ==> tidy_block(#[trigger] bs[i]),
    ensures
        cons(b, r) matches Ok((bs, _)) ==> forall|i: int| 0 <= i < bs.len() ==> tidy_block(#[trigger] bs[i]),
{
    if let Ok((bs, m)) = r {
        let all = seq![b] + bs;
        assert(cons(b, r) == Ok::<(Seq<BlockV>, Option<Seq<char>>), ParseError>((all, m)));
        assert forall|i: int| 0 <= i < all.len() implies tidy_block(#[trigger] all[i]) by {
            if i > 0 {
                assert(all[i] == bs[i - 1]);
            }
        }
    }
}

proof fn lemma_list_items_tidy(ls: Seq<Seq<char>>, c: int, j: int)
    requires
        0 <= c < j <= ls.len(),
        forall|i: int| c <= i < j ==> in_run(RunKind::List, #[trigger] tl(ls, i)),
    ensures
        tidy_block(BlockV::List(run_lines(ls, c, j, RunKind::List))),
{
    let items = run_lines(ls, c, j, RunKind::List);
    assert forall|i: int| 0 <= i < items.len() implies tidy_text(#[trigger] items[i]) by {
        let l = text::trim(ls[c + i]);
        assert(items[i] == run_text(RunKind::List, l));
        assert(in_run(RunKind::List, tl(ls, c + i)));
        assert(spec_list_item(l) is Some);
        lemma_trim_tidy(l.skip(2));
    }
}

proof fn lemma_paragraph_tidy(ls: Seq<Seq<char>>, c: int, j: int)
    requires
        0 <= c < j <= ls.len(),
        forall|i: int| c <= i < j ==> in_run(RunKind::Paragraph, #[trigger] tl(ls, i)),
    ensures
        tidy_block(BlockV::Paragraph(text::join(run_lines(ls, c, j, RunKind::Paragraph), seq![' ']))),
{
    let pl = run_lines(ls, c, j, RunKind::Paragraph);
    assert forall|i: int| 0 <= i < pl.len() implies (#[trigger] pl[i]).len() > 0 && !text::is_ws(pl[i][0])
        && !text::is_ws(pl[i].last()) by {
        assert(pl[i] == text::trim(ls[c + i]));
        assert(in_run(RunKind::Paragraph, tl(ls, c + i)));
        lemma_trim_tidy(ls[c + i]);
    }
    lemma_join_tidy(pl);
    text::lemma_trim_plain(text::join(pl, seq![' ']));
}

#[verifier::rlimit(40)]
proof fn lemma_parse_tidy(ls: Seq<Seq<char>>, c: int)
    ensures
        parse_from(ls, c) matches Ok((bs, _)) ==> forall|i: int| 0 <= i < bs.len() ==> tidy_block(#[trigger] bs[i]),
    decreases ls.len() - c,
{
    if c < 0 || c >= ls.len() {
    } else {
        let t = tl(ls, c);
        if t == tilde5() {
        } else if t.len() == 0 {
            lemma_parse_tidy(ls, c + 1);
        } else if fence().is_prefix_of(t) {
            lemma_fence_end(ls, c + 1);
            let j = fence_end(ls, c + 1);
            if j < ls.len() {
                lemma_parse_tidy(ls, j + 1);
                lemma_cons_tidy(
                    BlockV::Preformatted { code: text::join(ls.subrange(c + 1, j), seq!['\n']), language: fence_lang(t) },
                    parse_from(ls, j + 1),
                );
            }
        } else if t[0] == '|' {
            lemma_run_end(ls, c + 1, RunKind::Table);
            let j = run_end(ls, c + 1, RunKind::Table);
            lemma_parse_tidy(ls, j);
            let rows = table_rows(ls, c, j);
            if rows.len() > 0 {
                lemma_cons_tidy(BlockV::Table(TableV { headers: rows[0], rows: rows.drop_first() }), parse_from(ls, j));
            }
        } else if t[0] == '>' {
            lemma_run_end(ls, c + 1, RunKind::Quote);
            let j = run_end(ls, c + 1, RunKind::Quote);
            lemma_parse_tidy(ls, j);
            lemma_cons_tidy(
                BlockV::Quote(text::join(run_lines(ls, c, j, RunKind::Quote), seq!['\n'])),
                parse_from(ls, j),
            );
        } else if spec_list_item(t) is Some {
            lemma_run_end(ls, c + 1, RunKind::List);
            let j = run_end(ls, c + 1, RunKind::List);
            lemma_parse_tidy(ls, j);
            let items = run_lines(ls, c, j, RunKind::List);
            lemma_list_items_tidy(ls, c, j);
            lemma_cons_tidy(BlockV::List(items), parse_from(ls, j));
        } else if spec_is_rule(t) {
            lemma_parse_tidy(ls, c + 1);
            lemma_cons_tidy(BlockV::Rule, parse_from(ls, c + 1));
        } else if spec_heading(t) is Some {
            lemma_parse_tidy(ls, c + 1);
            lemma_cons_tidy(spec_heading(t)->0, parse_from(ls, c + 1));
        } else if spec_link(t) is Some {
            lemma_parse_tidy(ls, c + 1);
            lemma_cons_tidy(BlockV::Link(spec_link(t)->0), parse_from(ls, c + 1));
        } else if spec_input(t) is Some {
            lemma_parse_tidy(ls, c + 1);
            lemma_cons_tidy(BlockV::Input(spec_input(t)->0), parse_from(ls, c + 1));
        } else if spec_button(t) is Some {
            lemma_parse_tidy(ls, c + 1);
            lemma_cons_tidy(BlockV::Button(spec_button(t)->0), parse_from(ls, c + 1));
        } else if spec_image(t) is Some {
            lemma_parse_tidy(ls, c + 1);
            lemma_cons_tidy(BlockV::Image(spec_image(t)->0), parse_from(ls, c + 1));
        } else {
            lemma_run_end(ls, c + 1, RunKind::Paragraph);
            let j = run_end(ls, c + 1, RunKind::Paragraph);
            lemma_parse_tidy(ls, j);
            let p = text::join(run_lines(ls, c, j, RunKind::Paragraph), seq![' ']);
            lemma_paragraph_tidy(ls, c, j);
            lemma_cons_tidy(BlockV::Paragraph(p), parse_from(ls, j));
        }
    }
}

/// Parsed paragraphs hold text that is not empty and has no whitespace at
/// either end; parsed lists have at least one item, and each item is such
/// text too.
pub proof fn lemma_parsed_text_is_tidy(input: Seq<char>)
    ensures
        spec_parse_document(input) matches Ok(d) ==> forall|i: int| 0 <= i < d.blocks.len() ==> tidy_block(
            #[trigger] d.blocks[i],
        ),
{
    lemma_parse_tidy(text::lines(input), 0);
}

// ----- Headings -----

/// `h` copies of `#`.
pub open spec fn hashes(h: nat) -> Seq<char> {
    Seq::new(h, |i: int| '#')
}

/// A line of one to six `#`, a space and a title (which neither starts nor
/// ends with whitespace) is a heading whose level is the number of `#` and
/// whose text is the title; the blocks after it are read on from the next
/// line.
pub proof fn lemma_heading_line(ls: Seq<Seq<char>>, c: int, h: nat, title: Seq<char>)
    requires
        0 <= c < ls.len(),
        1 <= h <= 6,
        title.len() > 0,
        !text::is_ws(title[0]),
        !text::is_ws(title.last()),
        tl(ls, c) == hashes(h) + seq![' '] + title,
    ensures
        parse_from(ls, c) == cons(BlockV::Heading { level: h as u8, text: title }, parse_from(ls, c + 1)),
{
    let t = tl(ls, c);
    assert(t[0] == '#');
    assert(t[h as int] == ' ');
    text::lemma_lead(t, '#', 0);
    let k = text::lead(t, '#', 0);
    assert(k == h) by {
        if k < h {
            assert(t[k] == '#');
        } else if k > h {
            assert(t[h as int] == '#');
        }
    }
    assert(t.skip(h as int + 1) =~= title);
    text::lemma_trim_plain(title);
    assert(t != tilde5()) by {
        if t == tilde5() {
            assert(t[0] == '~');
        }
    }
    assert(!fence().is_prefix_of(t)) by {
        if fence().is_prefix_of(t) {
            assert(t.subrange(0, 3)[0] == t[0]);
        }
    }
    assert(spec_list_item(t) is None) by {
        if seq!['-', ' '].is_prefix_of(t) || seq!['*', ' '].is_prefix_of(t) {
            assert(t.subrange(0, 2)[0] == t[0]);
        }
    }
    assert(!spec_is_rule(t)) by {
        if spec_is_rule(t) {
            assert(t[0] != '#');
        }
    }
}

/// A line of `#` that are more than six, or not followed by a space, is
/// no heading: it starts a paragraph.
pub proof fn lemma_not_heading_line(ls: Seq<Seq<char>>, c: int, h: nat, rest: Seq<char>)
    requires
        0 <= c < ls.len(),
        h >= 1,
        rest.len() == 0 || rest[0] != '#',
        h > 6 || rest.len() == 0 || rest[0] != ' ',
        tl(ls, c) == hashes(h) + rest,
    ensures
        parse_from(ls, c) matches Ok((bs, _)) ==> bs.len() > 0 && bs[0] is Paragraph,
{
    let t = tl(ls, c);
    assert(t[0] == '#');
    text::lemma_lead(t, '#', 0);
    let k = text::lead(t, '#', 0);
    assert(k == h) by {
        if k < h {
            assert(t[k] == '#');
        } else if k > h {
            assert(t[h as int] == rest[0]);
        }
    }
    if h < t.len() {
        assert(t[h as int] == rest[0]);
    }
    assert(spec_heading(t) is None);
    assert(t != tilde5()) by {
        if t == tilde5() {
            assert(t[0] == '~');
        }
    }
    assert(!fence().is_prefix_of(t)) by {
        if fence().is_prefix_of(t) {
            assert(t.subrange(0, 3)[0] == t[0]);
        }
    }
    assert(spec_list_item(t) is None) by {
        if seq!['-', ' '].is_prefix_of(t) || seq!['*', ' '].is_prefix_of(t) {
            assert(t.subrange(0, 2)[0] == t[0]);
        }
    }
    assert(!spec_is_rule(t)) by {
        if spec_is_rule(t) {
            assert(t[0] != '#');
        }
    }
    assert(spec_link(t) is None) by {
        if seq!['=', '>'].is_prefix_of(t) {
            assert(t.subrange(0, 2)[0] == t[0]);
        }
    }
    lemma_run_end(ls, c + 1, RunKind::Paragraph);
    let j = run_end(ls, c + 1, RunKind::Paragraph);
    let r = parse_from(ls, j);
    let b = BlockV::Paragraph(text::join(run_lines(ls, c, j, RunKind::Paragraph), seq![' ']));
    assert(parse_from(ls, c) == cons(b, r));
    if let Ok((bs, m)) = r {
        assert((seq![b] + bs)[0] == b);
    }
}

/// A line without a line feed, ended by one, is the one line of the text.
pub proof fn lemma_one_line(l: Seq<char>)
    requires
        text::free_of(l, '\n'),
    ensures
        text::lines(l + seq!['\n']) == seq![text::strip_cr(l)],
{
    let s = l + seq!['\n'];
    assert(s.drop_last() =~= l);
    text::lemma_split_nl_is_split_on(l);
    text::lemma_split_on_free(l, '\n');
    assert(text::strip_crs(seq![l]) =~= seq![text::strip_cr(l)]);
}

/// A page of one heading line, `#` one to six times, a space and a title
/// (without line feeds, and neither starting nor ending with whitespace),
/// is that one heading: its level is the number of `#`, its text the
/// title.
pub proof fn lemma_heading_page(h: nat, title: Seq<char>)
    requires
        1 <= h <= 6,
        title.len() > 0,
        !text::is_ws(title[0]),
        !text::is_ws(title.last()),
        text::free_of(title, '\n'),
    ensures
        spec_parse_document(hashes(h) + seq![' '] + title + seq!['\n']) == Ok::<DocumentV, ParseError>(
            DocumentV { blocks: seq![BlockV::Heading { level: h as u8, text: title }], metadata: None },
        ),
{
    let l = hashes(h) + seq![' '] + title;
    assert(text::free_of(l, '\n')) by {
        assert forall|j: int| 0 <= j < l.len() implies l[j] != '\n' by {
            if j > h {
                assert(l[j] == title[j - h - 1]);
            }
        }
    }
    lemma_one_line(l);
    assert(l.last() == title.last());
    assert(text::strip_cr(l) == l);
    assert(l[0] == '#');
    text::lemma_trim_plain(l);
    let ls = seq![l];
    assert(tl(ls, 0) == l);
    lemma_heading_line(ls, 0, h, title);
    let b = BlockV::Heading { level: h as u8, text: title };
    assert(parse_from(ls, 1) == Ok::<(Seq<BlockV>, Option<Seq<char>>), ParseError>((Seq::empty(), None)));
    assert(seq![b] + Seq::<BlockV>::empty() =~= seq![b]);
}

/// The document a page's text describes, or why it has none.
pub open spec fn spec_parse_document(input: Seq<char>) -> Result<DocumentV, ParseError> {
    match parse_from(text::lines(input), 0) {
        Ok((bs, m)) => Ok(DocumentV { blocks: bs, metadata: m }),
        Err(e) => Err(e),
    }
}


fn in_run_exec(k: RunKind, t: &[char]) -> (r: bool)
    ensures
        r == in_run(k, t@),
{
    match k {
        RunKind::Table => t.len() > 0 && t[0] == '|',
        RunKind::Quote => t.len() > 0 && t[0] == '>',
        RunKind::List => list_item_text(t).is_some(),
        RunKind::Paragraph => t.len() > 0 && !is_block_start(t),
    }
}

fn run_text_exec(k: RunKind, t: &[char]) -> (r: Vec<char>)
    requires
        in_run(k, t@),
    ensures
        r@ == run_text(k, t@),
{
    match k {
        RunKind::Quote => {
            let rest = text::slice_of(t, 1, t.len());
            assert(t@.skip(1) =~= rest@);
            text::trimmed(rest.as_slice())
        },
        RunKind::List => match list_item_text(t) {
            Some(x) => x,
            None => Vec::new(),
        },
        _ => text::copy_chars(t),
    }
}

pub open spec fn lines_view(lines: Seq<Vec<char>>) -> Seq<Seq<char>> {
    text::views(lines)
}

/// The end of the run of kind `k` that line `c` starts, and what each of its lines contributes.
fn line_in_run(lines: &Vec<Vec<char>>, i: usize, k: RunKind) -> (r: bool)
    requires
        i < lines@.len(),
    ensures
        r == in_run(k, tl(text::views(lines@), i as int)),
{
    let t = text::trimmed(lines[i].as_slice());
    assert(tl(text::views(lines@), i as int) == t@);
    in_run_exec(k, t.as_slice())
}

fn scan_run(lines: &Vec<Vec<char>>, c: usize, k: RunKind) -> (r: (usize, Vec<Vec<char>>))
    requires
        c < lines@.len(),
        in_run(k, tl(text::views(lines@), c as int)),
    ensures
        r.0 == run_end(text::views(lines@), c + 1, k),
        c < r.0 <= lines@.len(),
        text::views(r.1@) == run_lines(text::views(lines@), c as int, r.0 as int, k),
{
    let ghost ls = text::views(lines@);
    let mut items: Vec<Vec<char>> = Vec::new();
    let t0 = text::trimmed(lines[c].as_slice());
    assert(tl(ls, c as int) == t0@);
    items.push(run_text_exec(k, t0.as_slice()));
    assert(c < lines.len());
    let mut i = c + 1;
    proof {
        lemma_run_end(ls, c + 1, k);
        assert(text::views(items@) =~= run_lines(ls, c as int, i as int, k));
    }
    while i < lines.len() && line_in_run(lines, i, k)
        invariant
            c < i <= lines@.len(),
            ls == text::views(lines@),
            run_end(ls, i as int, k) == run_end(ls, c + 1, k),
            text::views(items@) == run_lines(ls, c as int, i as int, k),
        decreases lines@.len() - i,
    {
        let t = text::trimmed(lines[i].as_slice());
        assert(tl(ls, i as int) == t@);
        let x = run_text_exec(k, t.as_slice());
        let ghost before = items@;
        items.push(x);
        assert(ls.subrange(c as int, i + 1) =~= ls.subrange(c as int, i as int).push(ls[i as int]));
        assert(text::views(items@) =~= text::views(before).push(x@));
        assert(run_lines(ls, c as int, i + 1, k) =~= run_lines(ls, c as int, i as int, k).push(
            run_text(k, text::trim(ls[i as int])),
        ));
        i = i + 1;
    }
    (i, items)
}

pub open spec fn rows_views(r: Seq<Vec<Vec<char>>>) -> Seq<Seq<Seq<char>>> {
    r.map_values(|x: Vec<Vec<char>>| text::views(x@))
}

/// The end of the table that line `c` starts, and its non-separator rows.
fn scan_table(lines: &Vec<Vec<char>>, c: usize) -> (r: (usize, Vec<Vec<Vec<char>>>))
    requires
        c < lines@.len(),
        in_run(RunKind::Table, tl(text::views(lines@), c as int)),
    ensures
        r.0 == run_end(text::views(lines@), c + 1, RunKind::Table),
        c < r.0 <= lines@.len(),
        rows_views(r.1@) == table_rows(text::views(lines@), c as int, r.0 as int),
{
    let ghost ls = text::views(lines@);
    let mut rows: Vec<Vec<Vec<char>>> = Vec::new();
    let mut i = c;
    proof {
        lemma_run_end(ls, c + 1, RunKind::Table);
        assert(rows_views(rows@) =~= table_rows(ls, c as int, c as int));
    }
    while i < lines.len() && line_in_run(lines, i, RunKind::Table)
        invariant
            c <= i <= lines@.len(),
            ls == text::views(lines@),
            i == c ==> in_run(RunKind::Table, tl(ls, c as int)),
            i > c ==> run_end(ls, i as int, RunKind::Table) == run_end(ls, c + 1, RunKind::Table),
            rows_views(rows@) == table_rows(ls, c as int, i as int),
        decreases lines@.len() - i,
    {
        let t = text::trimmed(lines[i].as_slice());
        assert(tl(ls, i as int) == t@);
        let cells = parse_table_row(t.as_slice());
        if !is_table_separator(&cells) {
            let ghost before = rows@;
            rows.push(cells);
            assert(rows_views(rows@) =~= rows_views(before).push(text::views(cells@)));
        }
        i = i + 1;
    }
    (i, rows)
}

fn to_strings(v: &Vec<Vec<char>>) -> (r: Vec<String>)
    ensures
        crate::document::strs(r@) == text::views(v@),
{
    let mut out: Vec<String> = Vec::new();
    let mut i: usize = 0;
    while i < v.len()
        invariant
            i <= v@.len(),
            crate::document::strs(out@) == text::views(v@).take(i as int),
        decreases v@.len() - i,
    {
        let s = text::string_from(v[i].as_slice());
        let ghost before = out@;
        out.push(s);
        assert(crate::document::strs(out@) =~= crate::document::strs(before).push(s@));
        assert(text::views(v@).take(i + 1) =~= text::views(v@).take(i as int).push(v@[i as int]@));
        i = i + 1;
    }
    assert(text::views(v@).take(v@.len() as int) =~= text::views(v@));
    out
}

fn closes_fence(lines: &Vec<Vec<char>>, j: usize) -> (r: bool)
    requires
        j < lines@.len(),
    ensures
        r == fence().is_prefix_of(tl(text::views(lines@), j as int)),
{
    let f = ['`', '`', '`'];
    assert(f@ == fence());
    let t = text::trimmed(lines[j].as_slice());
    assert(tl(text::views(lines@), j as int) == t@);
    text::starts_with(t.as_slice(), f.as_slice())
}

/// The first line at or after `from` that closes a preformatted block.
fn scan_fence(lines: &Vec<Vec<char>>, from: usize) -> (j: usize)
    requires
        from <= lines@.len(),
    ensures
        j == fence_end(text::views(lines@), from as int),
{
    let f = ['`', '`', '`'];
    assert(f@ == fence());
    let mut j = from;
    while j < lines.len() && !closes_fence(lines, j)
        invariant
            from <= j <= lines@.len(),
            fence_end(text::views(lines@), j as int) == fence_end(text::views(lines@), from as int),
        decreases lines@.len() - j,
    {
        j = j + 1;
    }
    j
}

fn fence_lang_exec(t: &[char]) -> (r: Option<String>)
    requires
        t@.len() >= 3,
    ensures
        crate::document::opt_str(r) == fence_lang(t@),
{
    let rest = text::slice_of(t, 3, t.len());
    assert(rest@ == t@.skip(3));
    let l = text::trimmed(rest.as_slice());
    if l.len() == 0 {
        None
    } else {
        Some(text::string_from(l.as_slice()))
    }
}

fn meta_exec(lines: &Vec<Vec<char>>, k: usize) -> (r: Option<String>)
    requires
        k <= lines@.len(),
    ensures
        crate::document::opt_str(r) == meta_of(text::views(lines@), k as int),
{
    let nl = ['\n'];
    assert(nl@ == seq!['\n']);
    let joined = text::join_range(lines.as_slice(), k, lines.len(), nl.as_slice());
    assert(text::views(lines@).subrange(k as int, lines@.len() as int) == text::views(lines@).skip(k as int));
    let m = text::trimmed(joined.as_slice());
    if m.len() == 0 {
        None
    } else {
        Some(text::string_from(m.as_slice()))
    }
}


enum Step {
    Done(Option<String>),
    Skip(usize),
    Emit(Block, usize),
    Fail(ParseError),
}

/// One step of the parser at line `c`.
fn step(lines: &Vec<Vec<char>>, c: usize) -> (r: Step)
    requires
        c < lines@.len(),
    ensures
        match r {
            Step::Done(m) => parse_from(text::views(lines@), c as int) == Ok::<
                (Seq<BlockV>, Option<Seq<char>>),
                ParseError,
            >((Seq::empty(), crate::document::opt_str(m))),
            Step::Skip(j) => c < j <= lines@.len() && parse_from(text::views(lines@), c as int)
                == parse_from(text::views(lines@), j as int),
            Step::Emit(b, j) => c < j <= lines@.len() && parse_from(text::views(lines@), c as int)
                == cons(b@, parse_from(text::views(lines@), j as int)),
            Step::Fail(e) => parse_from(text::views(lines@), c as int) == Err::<
                (Seq<BlockV>, Option<Seq<char>>),
                ParseError,
            >(e),
        },
{
    let ghost ls = text::views(lines@);
    assert(c < lines.len());
    let t = text::trimmed(lines[c].as_slice());
    assert(tl(ls, c as int) == t@);
    let tl5 = ['~', '~', '~', '~', '~'];
    let f = ['`', '`', '`'];
    assert(tl5@ == tilde5() && f@ == fence());
    if text::chars_eq(t.as_slice(), tl5.as_slice()) {
        return Step::Done(meta_exec(lines, c + 1));
    }
    if t.len() == 0 {
        return Step::Skip(c + 1);
    }
    if text::starts_with(t.as_slice(), f.as_slice()) {
        let j = scan_fence(lines, c + 1);
        proof {
            lemma_fence_end(ls, c + 1);
        }
        if j >= lines.len() {
            return Step::Fail(ParseError::UnterminatedPreformatted { line: c + 1 });
        }
        let nl = ['\n'];
        assert(nl@ == seq!['\n']);
        let code = text::join_range(lines.as_slice(), c + 1, j, nl.as_slice());
        let language = fence_lang_exec(t.as_slice());
        let b = Block::Preformatted { code: text::string_from(code.as_slice()), language };
        return Step::Emit(b, j + 1);
    }
    if t[0] == '|' {
        let (j, rows) = scan_table(lines, c);
        if rows.len() == 0 {
            return Step::Skip(j);
        }
        let mut rows = rows;
        let ghost rv = rows_views(rows@);
        let headers_v = rows.remove(0);
        assert(rows_views(rows@) =~= rv.drop_first());
        let mut rows_s: Vec<Vec<String>> = Vec::new();
        let mut i: usize = 0;
        while i < rows.len()
            invariant
                i <= rows@.len(),
                crate::document::rows_view(rows_s@) == rows_views(rows@).take(i as int),
            decreases rows@.len() - i,
        {
            let r = to_strings(&rows[i]);
            let ghost before = rows_s@;
            rows_s.push(r);
            assert(crate::document::rows_view(rows_s@) =~= crate::document::rows_view(before).push(
                crate::document::strs(r@),
            ));
            assert(rows_views(rows@).take(i + 1) =~= rows_views(rows@).take(i as int).push(
                text::views(rows@[i as int]@),
            ));
            i = i + 1;
        }
        assert(rows_views(rows@).take(rows@.len() as int) =~= rows_views(rows@));
        let headers = to_strings(&headers_v);
        let b = Block::Table(Table { headers, rows: rows_s });
        return Step::Emit(b, j);
    }
    if t[0] == '>' {
        let (j, items) = scan_run(lines, c, RunKind::Quote);
        let nl = ['\n'];
        assert(nl@ == seq!['\n']);
        let body = text::join_vecs(items.as_slice(), nl.as_slice());
        return Step::Emit(Block::Quote(text::string_from(body.as_slice())), j);
    }
    if list_item_text(t.as_slice()).is_some() {
        let (j, items) = scan_run(lines, c, RunKind::List);
        let v = to_strings(&items);
        return Step::Emit(Block::List(v), j);
    }
    if is_rule(t.as_slice()) {
        return Step::Emit(Block::Rule, c + 1);
    }
    if let Some(h) = parse_heading(t.as_slice()) {
        return Step::Emit(h, c + 1);
    }
    if let Some(l) = parse_link(t.as_slice()) {
        return Step::Emit(Block::Link(l), c + 1);
    }
    if let Some(i) = parse_input(t.as_slice()) {
        return Step::Emit(Block::Input(i), c + 1);
    }
    if let Some(b) = parse_button(t.as_slice()) {
        return Step::Emit(Block::Button(b), c + 1);
    }
    if let Some(im) = parse_image(t.as_slice()) {
        return Step::Emit(Block::Image(im), c + 1);
    }
    assert(!spec_block_start(t@));
    let (j, items) = scan_run(lines, c, RunKind::Paragraph);
    let sp = [' '];
    assert(sp@ == seq![' ']);
    let body = text::join_vecs(items.as_slice(), sp.as_slice());
    Step::Emit(Block::Paragraph(text::string_from(body.as_slice())), j)
}

pub proof fn lemma_prefixed_cons(acc: Seq<BlockV>, b: BlockV, r: Parsed)
    ensures
        prefixed(acc, cons(b, r)) == prefixed(acc.push(b), r),
{
    match r {
        Ok((bs, m)) => {
            assert(acc + (seq![b] + bs) =~= acc.push(b) + bs);
        },
        Err(e) => {},
    }
}

/// Parses a page's text into its blocks and metadata.
pub fn parse_document(input: &str) -> (r: Result<Document, ParseError>)
    ensures
        match spec_parse_document(input@) {
            Ok(d) => r matches Ok(x) && x@ == d,
            Err(e) => r == Err::<Document, ParseError>(e),
        },
{
    let cs = text::chars_of(input);
    let lines = text::lines_of(cs.as_slice());
    let ghost ls = text::views(lines@);
    let mut blocks: Vec<Block> = Vec::new();
    let mut c: usize = 0;
    assert(prefixed(Seq::empty(), parse_from(ls, 0)) == parse_from(ls, 0)) by {
        match parse_from(ls, 0) {
            Ok((bs, m)) => {
                assert(Seq::<BlockV>::empty() + bs =~= bs);
            },
            Err(e) => {},
        }
    }
    assert(crate::document::blocks_view(blocks@) =~= Seq::<BlockV>::empty());
    while c < lines.len()
        invariant
            c <= lines@.len(),
            ls == text::views(lines@),
            ls == text::lines(input@),
            parse_from(ls, 0) == prefixed(crate::document::blocks_view(blocks@), parse_from(ls, c as int)),
        decreases lines@.len() - c,
    {
        match step(&lines, c) {
            Step::Done(m) => {
                let ghost bv = crate::document::blocks_view(blocks@);
                assert(bv + Seq::<BlockV>::empty() =~= bv);
                return Ok(Document { blocks, metadata: m });
            },
            Step::Skip(j) => {
                c = j;
            },
            Step::Emit(b, j) => {
                proof {
                    lemma_prefixed_cons(crate::document::blocks_view(blocks@), b@, parse_from(ls, j as int));
                }
                let ghost before = blocks@;
                blocks.push(b);
                assert(crate::document::blocks_view(blocks@) =~= crate::document::blocks_view(before).push(b@));
                c = j;
            },
            Step::Fail(e) => {
                return Err(e);
            },
        }
    }
    let ghost bv = crate::document::blocks_view(blocks@);
    assert(bv + Seq::<BlockV>::empty() =~= bv);
    Ok(Document { blocks, metadata: None })
}

} // verus!
