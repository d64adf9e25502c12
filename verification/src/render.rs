//! Rendering documents as plain terminal text: inline markup, numbered
//! links, controls, tables drawn with box characters, highlighted code.

use vstd::prelude::*;
use crate::text;
use vstd::string::StrSliceExecFns;
use crate::document::{self, Block, BlockV, Document, DocumentV, Table, TableV};

verus! {

broadcast use vstd::string::group_string_axioms;

/// A run of text with inline formatting.
#[derive(Debug, Clone, PartialEq)]
pub enum InlineSpan {
    Text(String),
    Bold(String),
    Italic(String),
    Code(String),
    Link { label: String, target: String },
}

pub ghost enum InlineSpanV {
    Text(Seq<char>),
    Bold(Seq<char>),
    Italic(Seq<char>),
    Code(Seq<char>),
    Link { label: Seq<char>, target: Seq<char> },
}

impl View for InlineSpan {
    type V = InlineSpanV;

    open spec fn view(&self) -> InlineSpanV {
        match self {
            InlineSpan::Text(s) => InlineSpanV::Text(s@),
            InlineSpan::Bold(s) => InlineSpanV::Bold(s@),
            InlineSpan::Italic(s) => InlineSpanV::Italic(s@),
            InlineSpan::Code(s) => InlineSpanV::Code(s@),
            InlineSpan::Link { label, target } => InlineSpanV::Link { label: label@, target: target@ },
        }
    }
}

pub open spec fn spans_view(v: Seq<InlineSpan>) -> Seq<InlineSpanV> {
    v.map_values(|s: InlineSpan| s@)
}

pub open spec fn is_marker(c: char) -> bool {
    c == '`' || c == '[' || c == '*'
}

/// The first index at or after `i` holding a marker character, or the end.
pub open spec fn marker_from(s: Seq<char>, i: int) -> int
    decreases s.len() - i,
{
    if i < 0 || i >= s.len() {
        s.len() as int
    } else if is_marker(s[i]) {
        i
    } else {
        marker_from(s, i + 1)
    }
}

pub proof fn lemma_marker_from(s: Seq<char>, i: int)
    requires
        0 <= i <= s.len(),
    ensures
        i <= marker_from(s, i) <= s.len(),
    decreases s.len() - i,
{
    if i < s.len() && !is_marker(s[i]) {
        lemma_marker_from(s, i + 1);
    }
}

/// Where a `[label](target)` that opens at `i` closes: the first `]`
/// after `i`, directly followed by `(`, and the first `)` after that.
pub open spec fn link_span(s: Seq<char>, i: int) -> Option<(int, int)> {
    let cb = text::char_from(s, ']', i + 1);
    if cb < s.len() && cb + 1 < s.len() && s[cb + 1] == '(' {
        let cp = text::char_from(s, ')', cb + 2);
        if cp < s.len() {
            Some((cb, cp))
        } else {
            None
        }
    } else {
        None
    }
}

pub proof fn lemma_link_span(s: Seq<char>, i: int)
    requires
        0 <= i < s.len(),
    ensures
        link_span(s, i) matches Some((cb, cp)) ==> i < cb && cb + 2 <= cp < s.len(),
{
    text::lemma_char_from(s, ']', i + 1);
    let cb = text::char_from(s, ']', i + 1);
    if cb < s.len() && cb + 1 < s.len() && s[cb + 1] == '(' {
        text::lemma_char_from(s, ')', cb + 2);
    }
}

/// The spans of `s` from `i` on. Code spans come first; a link needs
/// `](`; bold needs a closing `**` and some text; italic needs a closing
/// `*` and some non-blank text; an unmatched marker is literal text.
pub open spec fn inline_from(s: Seq<char>, i: int) -> Seq<InlineSpanV>
    decreases s.len() - i,
{
    if i < 0 || i >= s.len() {
        Seq::empty()
    } else if s[i] == '`' {
        let e = text::char_from(s, '`', i + 1);
        if e < s.len() {
            proof {
                text::lemma_char_from(s, '`', i + 1);
            }
            seq![InlineSpanV::Code(s.subrange(i + 1, e))] + inline_from(s, e + 1)
        } else {
            seq![InlineSpanV::Text(seq!['`'])] + inline_from(s, i + 1)
        }
    } else if s[i] == '[' {
        match link_span(s, i) {
            Some((cb, cp)) => {
                proof {
                    lemma_link_span(s, i);
                }
                seq![InlineSpanV::Link { label: s.subrange(i + 1, cb), target: s.subrange(cb + 2, cp) }]
                    + inline_from(s, cp + 1)
            },
            None => seq![InlineSpanV::Text(seq!['['])] + inline_from(s, i + 1),
        }
    } else if i + 1 < s.len() && s[i] == '*' && s[i + 1] == '*' {
        match text::find_from(s, seq!['*', '*'], i + 2) {
            Some(e) => if e > i + 2 {
                proof {
                    text::lemma_find_from_bounds(s, seq!['*', '*'], i + 2);
                }
                seq![InlineSpanV::Bold(s.subrange(i + 2, e))] + inline_from(s, e + 2)
            } else {
                seq![InlineSpanV::Text(seq!['*', '*'])] + inline_from(s, i + 2)
            },
            None => seq![InlineSpanV::Text(seq!['*', '*'])] + inline_from(s, i + 2),
        }
    } else if s[i] == '*' {
        let e = text::char_from(s, '*', i + 1);
        if e < s.len() && text::trim(s.subrange(i + 1, e)).len() > 0 {
            proof {
                text::lemma_char_from(s, '*', i + 1);
            }
            seq![InlineSpanV::Italic(s.subrange(i + 1, e))] + inline_from(s, e + 1)
        } else {
            seq![InlineSpanV::Text(seq!['*'])] + inline_from(s, i + 1)
        }
    } else {
        let j = marker_from(s, i);
        proof {
            lemma_marker_from(s, i);
        }
        if j > i {
            seq![InlineSpanV::Text(s.subrange(i, j))] + inline_from(s, j)
        } else {
            Seq::empty()
        }
    }
}

fn push_span(out: &mut Vec<InlineSpan>, x: InlineSpan)
    ensures
        spans_view(final(out)@) == spans_view(old(out)@) + seq![x@],
{
    let ghost before = out@;
    out.push(x);
    assert(spans_view(out@) =~= spans_view(before) + seq![x@]);
}

fn char_string(c: char) -> (r: String)
    ensures
        r@ == seq![c],
{
    let a = [c];
    assert(a@ == seq![c]);
    text::string_from(a.as_slice())
}

fn sub_string(s: &[char], a: usize, b: usize) -> (r: String)
    requires
        a <= b <= s@.len(),
    ensures
        r@ == s@.subrange(a as int, b as int),
{
    let v = text::slice_of(s, a, b);
    text::string_from(v.as_slice())
}

/// The inline spans of a text; see `inline_from`.
pub fn parse_inline_markup(t: &str) -> (r: Vec<InlineSpan>)
    ensures
        spans_view(r@) == inline_from(t@, 0),
{
    let s = text::chars_of(t);
    let n = s.len();
    let mut out: Vec<InlineSpan> = Vec::new();
    let mut i: usize = 0;
    let stars = ['*', '*'];
    assert(stars@ == seq!['*', '*']);
    while i < n
        invariant
            i <= n,
            n == s@.len(),
            s@ == t@,
            stars@ == seq!['*', '*'],
            inline_from(t@, 0) == spans_view(out@) + inline_from(t@, i as int),
        decreases n - i,
    {
        let ghost before = spans_view(out@);
        let ghost rest = inline_from(t@, i as int);
        let c = s[i];
        if c == '`' {
            proof {
                text::lemma_char_from(s@, '`', i + 1);
            }
            let e = text::find_char(s.as_slice(), '`', i + 1);
            if e < n {
                push_span(&mut out, InlineSpan::Code(sub_string(s.as_slice(), i + 1, e)));
                assert(spans_view(out@) + inline_from(t@, e + 1) =~= before + rest);
                i = e + 1;
            } else {
                assert(rest == seq![InlineSpanV::Text(seq!['`'])] + inline_from(t@, i + 1));
                push_span(&mut out, InlineSpan::Text(char_string('`')));
                assert(spans_view(out@) + inline_from(t@, i + 1) =~= before + rest);
                i = i + 1;
            }
        } else if c == '[' {
            proof {
                lemma_link_span(s@, i as int);
                text::lemma_char_from(s@, ']', i + 1);
            }
            let cb = text::find_char(s.as_slice(), ']', i + 1);
            let mut done = false;
            if cb < n && cb + 1 < n && s[cb + 1] == '(' {
                proof {
                    text::lemma_char_from(s@, ')', cb + 2);
                }
                let cp = text::find_char(s.as_slice(), ')', cb + 2);
                if cp < n {
                    push_span(
                        &mut out,
                        InlineSpan::Link {
                            label: sub_string(s.as_slice(), i + 1, cb),
                            target: sub_string(s.as_slice(), cb + 2, cp),
                        },
                    );
                    assert(spans_view(out@) + inline_from(t@, cp + 1) =~= before + rest);
                    i = cp + 1;
                    done = true;
                }
            }
            if !done {
                assert(link_span(t@, i as int) is None);
                assert(rest == seq![InlineSpanV::Text(seq!['['])] + inline_from(t@, i + 1));
                push_span(&mut out, InlineSpan::Text(char_string('[')));
                assert(spans_view(out@) + inline_from(t@, i + 1) =~= before + rest);
                i = i + 1;
            }
        } else if i + 1 < n && c == '*' && s[i + 1] == '*' {
            proof {
                text::lemma_find_from_bounds(s@, stars@, i + 2);
            }
            match text::find_sub(s.as_slice(), stars.as_slice(), i + 2) {
                Some(e) => {
                    if e > i + 2 {
                        push_span(&mut out, InlineSpan::Bold(sub_string(s.as_slice(), i + 2, e)));
                        assert(spans_view(out@) + inline_from(t@, e + 2) =~= before + rest);
                        i = e + 2;
                    } else {
                        push_span(&mut out, InlineSpan::Text(text::string_from(stars.as_slice())));
                        assert(spans_view(out@) + inline_from(t@, i + 2) =~= before + rest);
                        i = i + 2;
                    }
                },
                None => {
                    push_span(&mut out, InlineSpan::Text(text::string_from(stars.as_slice())));
                    assert(spans_view(out@) + inline_from(t@, i + 2) =~= before + rest);
                    i = i + 2;
                },
            }
        } else if c == '*' {
            proof {
                text::lemma_char_from(s@, '*', i + 1);
            }
            let e = text::find_char(s.as_slice(), '*', i + 1);
            let mut done = false;
            if e < n {
                let content = text::slice_of(s.as_slice(), i + 1, e);
                let tc = text::trimmed(content.as_slice());
                if tc.len() > 0 {
                    push_span(&mut out, InlineSpan::Italic(text::string_from(content.as_slice())));
                    assert(spans_view(out@) + inline_from(t@, e + 1) =~= before + rest);
                    i = e + 1;
                    done = true;
                }
            }
            if !done {
                push_span(&mut out, InlineSpan::Text(char_string('*')));
                assert(spans_view(out@) + inline_from(t@, i + 1) =~= before + rest);
                i = i + 1;
            }
        } else {
            let mut j = i;
            while j < n && !(s[j] == '`' || s[j] == '[' || s[j] == '*')
                invariant
                    i <= j <= n,
                    n == s@.len(),
                    marker_from(s@, j as int) == marker_from(s@, i as int),
                decreases n - j,
            {
                j = j + 1;
            }
            proof {
                lemma_marker_from(s@, i as int);
            }
            assert(j > i);
            push_span(&mut out, InlineSpan::Text(sub_string(s.as_slice(), i, j)));
            assert(spans_view(out@) + inline_from(t@, j as int) =~= before + rest);
            i = j;
        }
    }
    assert(spans_view(out@) + Seq::<InlineSpanV>::empty() =~= spans_view(out@));
    out
}

/// A span written back as markup: its text between the markers that made it.
pub open spec fn span_markup(sp: InlineSpanV) -> Seq<char> {
    match sp {
        InlineSpanV::Text(t) => t,
        InlineSpanV::Bold(t) => seq!['*', '*'] + t + seq!['*', '*'],
        InlineSpanV::Italic(t) => seq!['*'] + t + seq!['*'],
        InlineSpanV::Code(t) => seq!['`'] + t + seq!['`'],
        InlineSpanV::Link { label, target } => seq!['['] + label + seq![']', '('] + target + seq![')'],
    }
}

pub open spec fn spans_markup(sps: Seq<InlineSpanV>) -> Seq<char> {
    sps.map_values(|sp: InlineSpanV| span_markup(sp)).flatten()
}

proof fn lemma_spans_markup_cons(x: InlineSpanV, rest: Seq<InlineSpanV>)
    ensures
        spans_markup(seq![x] + rest) == span_markup(x) + spans_markup(rest),
{
    let m = |sp: InlineSpanV| span_markup(sp);
    assert((seq![x] + rest).map_values(m) =~= seq![span_markup(x)] + rest.map_values(m));
    vstd::seq_lib::lemma_flatten_concat(seq![span_markup(x)], rest.map_values(m));
    seq![span_markup(x)].lemma_flatten_singleton();
}

#[verifier::rlimit(80)]
proof fn lemma_markup_from(s: Seq<char>, i: int)
    requires
        0 <= i <= s.len(),
    ensures
        spans_markup(inline_from(s, i)) == s.skip(i),
    decreases s.len() - i,
{
    if i >= s.len() {
        assert(inline_from(s, i).map_values(|sp: InlineSpanV| span_markup(sp)) =~= Seq::<Seq<char>>::empty());
        assert(s.skip(i) =~= Seq::<char>::empty());
    } else if s[i] == '`' {
        text::lemma_char_from(s, '`', i + 1);
        let e = text::char_from(s, '`', i + 1);
        if e < s.len() {
            lemma_markup_from(s, e + 1);
            lemma_spans_markup_cons(InlineSpanV::Code(s.subrange(i + 1, e)), inline_from(s, e + 1));
            assert(seq!['`'] + s.subrange(i + 1, e) + seq!['`'] + s.skip(e + 1) =~= s.skip(i));
        } else {
            lemma_markup_from(s, i + 1);
            lemma_spans_markup_cons(InlineSpanV::Text(seq!['`']), inline_from(s, i + 1));
            assert(seq!['`'] + s.skip(i + 1) =~= s.skip(i));
        }
    } else if s[i] == '[' {
        lemma_link_span(s, i);
        text::lemma_char_from(s, ']', i + 1);
        let cb = text::char_from(s, ']', i + 1);
        if cb + 2 <= s.len() {
            text::lemma_char_from(s, ')', cb + 2);
        }
        match link_span(s, i) {
            Some((cb, cp)) => {
                let lk = InlineSpanV::Link { label: s.subrange(i + 1, cb), target: s.subrange(cb + 2, cp) };
                lemma_markup_from(s, cp + 1);
                lemma_spans_markup_cons(lk, inline_from(s, cp + 1));
                assert(seq!['['] + s.subrange(i + 1, cb) + seq![']', '('] + s.subrange(cb + 2, cp)
                    + seq![')'] + s.skip(cp + 1) =~= s.skip(i));
            },
            None => {
                lemma_markup_from(s, i + 1);
                lemma_spans_markup_cons(InlineSpanV::Text(seq!['[']), inline_from(s, i + 1));
                assert(seq!['['] + s.skip(i + 1) =~= s.skip(i));
            },
        }
    } else if i + 1 < s.len() && s[i] == '*' && s[i + 1] == '*' {
        text::lemma_find_from_bounds(s, seq!['*', '*'], i + 2);
        match text::find_from(s, seq!['*', '*'], i + 2) {
            Some(e) => if e > i + 2 {
                assert(s[e] == s.subrange(e, e + 2)[0]);
                assert(s[e + 1] == s.subrange(e, e + 2)[1]);
                lemma_markup_from(s, e + 2);
                lemma_spans_markup_cons(InlineSpanV::Bold(s.subrange(i + 2, e)), inline_from(s, e + 2));
                assert(seq!['*', '*'] + s.subrange(i + 2, e) + seq!['*', '*'] + s.skip(e + 2) =~= s.skip(i));
            } else {
                lemma_markup_from(s, i + 2);
                lemma_spans_markup_cons(InlineSpanV::Text(seq!['*', '*']), inline_from(s, i + 2));
                assert(seq!['*', '*'] + s.skip(i + 2) =~= s.skip(i));
            },
            None => {
                lemma_markup_from(s, i + 2);
                lemma_spans_markup_cons(InlineSpanV::Text(seq!['*', '*']), inline_from(s, i + 2));
                assert(seq!['*', '*'] + s.skip(i + 2) =~= s.skip(i));
            },
        }
    } else if s[i] == '*' {
        text::lemma_char_from(s, '*', i + 1);
        let e = text::char_from(s, '*', i + 1);
        if e < s.len() && text::trim(s.subrange(i + 1, e)).len() > 0 {
            lemma_markup_from(s, e + 1);
            lemma_spans_markup_cons(InlineSpanV::Italic(s.subrange(i + 1, e)), inline_from(s, e + 1));
            assert(seq!['*'] + s.subrange(i + 1, e) + seq!['*'] + s.skip(e + 1) =~= s.skip(i));
        } else {
            lemma_markup_from(s, i + 1);
            lemma_spans_markup_cons(InlineSpanV::Text(seq!['*']), inline_from(s, i + 1));
            assert(seq!['*'] + s.skip(i + 1) =~= s.skip(i));
        }
    } else {
        lemma_marker_from(s, i + 1);
        let j = marker_from(s, i);
        assert(j > i);
        lemma_markup_from(s, j);
        lemma_spans_markup_cons(InlineSpanV::Text(s.subrange(i, j)), inline_from(s, j));
        assert(s.subrange(i, j) + s.skip(j) =~= s.skip(i));
    }
}

/// Parsing inline markup loses nothing: writing each span back between the
/// markers that made it, and an unmatched marker as itself, gives the text
/// again.
pub proof fn lemma_inline_markup_spells_text(s: Seq<char>)
    ensures
        spans_markup(inline_from(s, 0)) == s,
{
    lemma_markup_from(s, 0);
    assert(s.skip(0) =~= s);
}

/// A span as plain text: markers dropped, a link shown as `label (target)`
/// unless the target is empty or the same as the label.
pub open spec fn span_plain(s: InlineSpanV) -> Seq<char> {
    match s {
        InlineSpanV::Text(t) => t,
        InlineSpanV::Bold(t) => t,
        InlineSpanV::Italic(t) => t,
        InlineSpanV::Code(t) => t,
        InlineSpanV::Link { label, target } => label + if target.len() > 0 && target != label {
            " ("@ + target + seq![')']
        } else {
            Seq::empty()
        },
    }
}

pub open spec fn spans_plain(ss: Seq<InlineSpanV>) -> Seq<char> {
    ss.map_values(|s: InlineSpanV| span_plain(s)).flatten()
}

pub fn inline_to_plain(spans: &[InlineSpan]) -> (r: String)
    ensures
        r@ == spans_plain(spans_view(spans@)),
{
    let ghost m = spans_view(spans@).map_values(|s: InlineSpanV| span_plain(s));
    let mut out: Vec<char> = Vec::new();
    let mut i: usize = 0;
    assert(m.take(0) =~= Seq::<Seq<char>>::empty());
    while i < spans.len()
        invariant
            i <= spans@.len(),
            m == spans_view(spans@).map_values(|s: InlineSpanV| span_plain(s)),
            out@ == m.take(i as int).flatten(),
        decreases spans@.len() - i,
    {
        let ghost before = out@;
        match &spans[i] {
            InlineSpan::Text(s) => text::push_str(&mut out, s.as_str()),
            InlineSpan::Bold(s) => text::push_str(&mut out, s.as_str()),
            InlineSpan::Italic(s) => text::push_str(&mut out, s.as_str()),
            InlineSpan::Code(s) => text::push_str(&mut out, s.as_str()),
            InlineSpan::Link { label, target } => {
                text::push_str(&mut out, label.as_str());
                let tc = text::chars_of(target.as_str());
                let lc = text::chars_of(label.as_str());
                if tc.len() > 0 && !text::chars_eq(tc.as_slice(), lc.as_slice()) {
                    text::push_str(&mut out, " (");
                    text::push_chars(&mut out, tc.as_slice());
                    out.push(')');
                }
            },
        }
        proof {
            assert(out@ =~= before + m[i as int]);
            assert(m.take(i + 1) =~= m.take(i as int).push(m[i as int]));
            m.take(i as int).lemma_flatten_push(m[i as int]);
        }
        i = i + 1;
    }
    assert(m.take(spans@.len() as int) =~= m);
    text::string_from(out.as_slice())
}

/// Inline markup as plain text.
pub open spec fn plain(t: Seq<char>) -> Seq<char> {
    spans_plain(inline_from(t, 0))
}

fn plain_exec(t: &str) -> (r: Vec<char>)
    ensures
        r@ == plain(t@),
{
    let spans = parse_inline_markup(t);
    let s = inline_to_plain(spans.as_slice());
    text::chars_of(s.as_str())
}

/// The syntax code is highlighted with.
#[derive(Debug, Clone, PartialEq, Eq)]
pub enum SyntaxChoice {
    /// The bundled syntax that syntect finds for a token.
    Token(String),
    /// The bundled plain-text syntax.
    PlainText,
}

pub ghost enum SyntaxChoiceV {
    Token(Seq<char>),
    PlainText,
}

impl View for SyntaxChoice {
    type V = SyntaxChoiceV;

    open spec fn view(&self) -> SyntaxChoiceV {
        match self {
            SyntaxChoice::Token(t) => SyntaxChoiceV::Token(t@),
            SyntaxChoice::PlainText => SyntaxChoiceV::PlainText,
        }
    }
}

/// The theme code is highlighted with.
#[derive(Debug, Clone, PartialEq, Eq)]
pub enum ThemeChoice {
    /// A bundled theme, by name.
    Named(String),
    /// The first bundled theme, or syntect's default theme when none is bundled.
    First,
}

pub ghost enum ThemeChoiceV {
    Named(Seq<char>),
    First,
}

impl View for ThemeChoice {
    type V = ThemeChoiceV;

    open spec fn view(&self) -> ThemeChoiceV {
        match self {
            ThemeChoice::Named(n) => ThemeChoiceV::Named(n@),
            ThemeChoice::First => ThemeChoiceV::First,
        }
    }
}

/// Whether syntect's bundled syntaxes have one for `token` (by extension,
/// then by name ignoring case).
pub uninterp spec fn token_has_syntax(token: Seq<char>) -> bool;

/// Whether syntect's bundled themes have one named `name`.
pub uninterp spec fn theme_present(name: Seq<char>) -> bool;

/// What syntect makes of each line of `code` (lines keep their endings):
/// the line as 24-bit terminal escapes, or `None` where highlighting the
/// line failed. Highlighting carries state from line to line.
pub uninterp spec fn line_highlights(syntax: SyntaxChoiceV, theme: ThemeChoiceV, code: Seq<char>) -> Seq<
    Option<Seq<char>>,
>;

/// syntect's `SyntaxSet::find_syntax_by_token` on the bundled syntaxes:
/// whether it finds one. Only named.
#[verifier::external_body]
fn syntax_for_token(token: &str) -> (r: bool)
    ensures
        r == token_has_syntax(token@),
{
    syntect::parsing::SyntaxSet::load_defaults_newlines().find_syntax_by_token(token).is_some()
}

/// syntect's bundled `ThemeSet`: whether it has a theme named `name`.
/// Only named.
#[verifier::external_body]
fn theme_available(name: &str) -> (r: bool)
    ensures
        r == theme_present(name@),
{
    syntect::highlighting::ThemeSet::load_defaults().themes.contains_key(name)
}

/// syntect's `HighlightLines::highlight_line` over the lines of `code`
/// (`LinesWithEndings`), each written by `as_24_bit_terminal_escaped`, with
/// the chosen bundled syntax and theme. Only named.
#[verifier::external_body]
fn highlight_lines(syntax: &SyntaxChoice, theme: &ThemeChoice, code: &str) -> (r: Vec<Option<String>>)
    requires
        syntax matches SyntaxChoice::Token(t) ==> token_has_syntax(t@),
        theme matches ThemeChoice::Named(n) ==> theme_present(n@),
    ensures
        r@.map_values(|o: Option<String>| document::opt_str(o)) == line_highlights(syntax@, theme@, code@),
{
    let ss = syntect::parsing::SyntaxSet::load_defaults_newlines();
    let ts = syntect::highlighting::ThemeSet::load_defaults();
    let syn = match syntax {
        SyntaxChoice::Token(t) => ss.find_syntax_by_token(t).unwrap(),
        SyntaxChoice::PlainText => ss.find_syntax_plain_text(),
    };
    let th = match theme {
        ThemeChoice::Named(n) => ts.themes[n.as_str()].clone(),
        ThemeChoice::First => ts.themes.values().next().cloned().unwrap_or_default(),
    };
    let mut h = syntect::easy::HighlightLines::new(syn, &th);
    syntect::util::LinesWithEndings::from(code)
        .map(|l| h.highlight_line(l, &ss).ok().map(|r| syntect::util::as_24_bit_terminal_escaped(&r, false)))
        .collect()
}

/// The theme code is drawn in.
pub open spec fn theme_name() -> Seq<char> {
    "base16-ocean.dark"@
}

/// The syntax for a language token: the one syntect finds, else plain text.
pub open spec fn syntax_choice(language: Seq<char>) -> SyntaxChoiceV {
    if token_has_syntax(language) {
        SyntaxChoiceV::Token(language)
    } else {
        SyntaxChoiceV::PlainText
    }
}

/// The theme: `base16-ocean.dark` when bundled, else the first one.
pub open spec fn theme_choice() -> ThemeChoiceV {
    if theme_present(theme_name()) {
        ThemeChoiceV::Named(theme_name())
    } else {
        ThemeChoiceV::First
    }
}

/// The highlighted lines one after another; a line that failed is left out.
pub open spec fn joined_lines(ls: Seq<Option<Seq<char>>>) -> Seq<char>
    decreases ls.len(),
{
    if ls.len() == 0 {
        Seq::empty()
    } else {
        joined_lines(ls.drop_last()) + match ls.last() {
            Some(l) => l,
            None => Seq::empty(),
        }
    }
}

/// `code` highlighted for `language` as 24-bit terminal escapes.
pub open spec fn highlighted(code: Seq<char>, language: Seq<char>) -> Seq<char> {
    joined_lines(line_highlights(syntax_choice(language), theme_choice(), code))
}

/// Highlights `code` for the language token `language` in the
/// `base16-ocean.dark` theme, line by line; lines that fail are dropped.
fn highlight_ansi(code: &str, language: &str) -> (r: String)
    ensures
        r@ == highlighted(code@, language@),
{
    let syn = if syntax_for_token(language) {
        SyntaxChoice::Token(language.to_string())
    } else {
        SyntaxChoice::PlainText
    };
    let name = String::from_str("base16-ocean.dark");
    let theme = if theme_available(name.as_str()) {
        ThemeChoice::Named(name)
    } else {
        ThemeChoice::First
    };
    let ls = highlight_lines(&syn, &theme, code);
    let ghost lv = ls@.map_values(|o: Option<String>| document::opt_str(o));
    let mut out: Vec<char> = Vec::new();
    let mut i: usize = 0;
    while i < ls.len()
        invariant
            i <= ls@.len(),
            lv == ls@.map_values(|o: Option<String>| document::opt_str(o)),
            out@ == joined_lines(lv.take(i as int)),
        decreases ls@.len() - i,
    {
        assert(lv.take(i + 1).drop_last() =~= lv.take(i as int));
        match &ls[i] {
            Some(l) => text::push_str(&mut out, l.as_str()),
            None => {},
        }
        i = i + 1;
    }
    assert(lv.take(ls@.len() as int) =~= lv);
    text::string_from(out.as_slice())
}

/// Whether rendered links show their targets.
#[derive(Debug, Clone, Copy, PartialEq, Eq)]
pub struct RenderOptions {
    pub show_link_targets: bool,
}

impl Default for RenderOptions {
    fn default() -> (r: RenderOptions)
        ensures
            r.show_link_targets,
    {
        RenderOptions { show_link_targets: true }
    }
}

pub open spec fn cell_len(r: Seq<Seq<char>>, c: int) -> nat {
    if 0 <= c < r.len() {
        r[c].len()
    } else {
        0
    }
}

pub open spec fn max_nat(a: nat, b: nat) -> nat {
    if a < b {
        b
    } else {
        a
    }
}

/// The widest cell of column `c` among the rows.
pub open spec fn rows_width(rows: Seq<Seq<Seq<char>>>, c: int) -> nat
    decreases rows.len(),
{
    if rows.len() == 0 {
        0
    } else {
        max_nat(rows_width(rows.drop_last(), c), cell_len(rows.last(), c))
    }
}

pub open spec fn col_width(t: TableV, c: int) -> nat {
    max_nat(cell_len(t.headers, c), rows_width(t.rows, c))
}

pub open spec fn rows_columns(rows: Seq<Seq<Seq<char>>>) -> nat
    decreases rows.len(),
{
    if rows.len() == 0 {
        0
    } else {
        max_nat(rows_columns(rows.drop_last()), rows.last().len())
    }
}

pub open spec fn columns(t: TableV) -> nat {
    max_nat(t.headers.len(), rows_columns(t.rows))
}

pub open spec fn spaces(n: nat) -> Seq<char> {
    Seq::new(n, |i: int| ' ')
}

/// A cell padded with spaces on the right to `w` characters, with a space
/// on each side.
pub open spec fn padded(cell: Seq<char>, w: nat) -> Seq<char> {
    seq![' '] + cell + spaces(if cell.len() < w { (w - cell.len()) as nat } else { 0 }) + seq![' ']
}

pub open spec fn row_cell(r: Seq<Seq<char>>, c: int) -> Seq<char> {
    if 0 <= c < r.len() {
        r[c]
    } else {
        Seq::empty()
    }
}

pub open spec fn table_row_plain(t: TableV, r: Seq<Seq<char>>) -> Seq<char> {
    seq!['|'] + text::join(Seq::new(columns(t), |c: int| padded(row_cell(r, c), col_width(t, c))), seq!['|'])
        + seq!['|']
}

pub open spec fn table_separator(t: TableV) -> Seq<char> {
    seq!['├'] + text::join(Seq::new(columns(t), |c: int| Seq::new((col_width(t, c) + 2) as nat, |i: int| '─')), seq!['┼'])
        + seq!['┤']
}

/// A table drawn with box characters: the header row, a separator, then
/// each row on a line of its own; nothing for a table without columns.
pub open spec fn table_plain(t: TableV) -> Seq<char> {
    if columns(t) == 0 {
        Seq::empty()
    } else {
        table_row_plain(t, t.headers) + seq!['\n'] + table_separator(t) + t.rows.map_values(
            |r: Seq<Seq<char>>| seq!['\n'] + table_row_plain(t, r),
        ).flatten()
    }
}

fn columns_exec(t: &Table) -> (r: usize)
    ensures
        r == columns(t@),
{
    let mut m: usize = t.headers.len();
    let mut k: usize = 0;
    let ghost rows = t@.rows;
    assert(rows.take(0) =~= Seq::<Seq<Seq<char>>>::empty());
    while k < t.rows.len()
        invariant
            k <= t.rows@.len(),
            rows == t@.rows,
            rows.len() == t.rows@.len(),
            m == max_nat(t@.headers.len(), rows_columns(rows.take(k as int))),
        decreases t.rows@.len() - k,
    {
        assert(rows.take(k + 1).drop_last() =~= rows.take(k as int));
        assert(rows[k as int].len() == t.rows@[k as int]@.len());
        if t.rows[k].len() > m {
            m = t.rows[k].len();
        }
        k = k + 1;
    }
    assert(rows.take(t.rows@.len() as int) =~= rows);
    m
}

fn widen(widths: &mut Vec<usize>, cells: &Vec<String>)
    requires
        cells@.len() <= old(widths)@.len(),
    ensures
        final(widths)@.len() == old(widths)@.len(),
        forall|c: int| 0 <= c < old(widths)@.len() ==> #[trigger] final(widths)@[c] == max_nat(
            old(widths)@[c] as nat,
            cell_len(crate::document::strs(cells@), c),
        ),
{
    let mut j: usize = 0;
    while j < cells.len()
        invariant
            j <= cells@.len(),
            cells@.len() <= old(widths)@.len(),
            widths@.len() == old(widths)@.len(),
            forall|c: int| 0 <= c < j ==> #[trigger] widths@[c] == max_nat(
                old(widths)@[c] as nat,
                cell_len(crate::document::strs(cells@), c),
            ),
            forall|c: int| j <= c < widths@.len() ==> #[trigger] widths@[c] == old(widths)@[c],
        decreases cells@.len() - j,
    {
        let n = cells[j].as_str().unicode_len();
        if n > widths[j] {
            widths.set(j, n);
        }
        j = j + 1;
    }
}

fn widths_exec(t: &Table, cols: usize) -> (r: Vec<usize>)
    requires
        cols == columns(t@),
    ensures
        r@.len() == cols,
        forall|c: int| 0 <= c < cols ==> #[trigger] r@[c] == col_width(t@, c),
{
    let mut widths: Vec<usize> = Vec::new();
    let mut i: usize = 0;
    while i < cols
        invariant
            i <= cols,
            widths@.len() == i,
            forall|c: int| 0 <= c < i ==> #[trigger] widths@[c] == 0,
        decreases cols - i,
    {
        widths.push(0);
        i = i + 1;
    }
    proof {
        lemma_columns_bound(t@);
    }
    widen(&mut widths, &t.headers);
    let ghost rows = t@.rows;
    let mut k: usize = 0;
    assert(rows.take(0) =~= Seq::<Seq<Seq<char>>>::empty());
    while k < t.rows.len()
        invariant
            k <= t.rows@.len(),
            rows == t@.rows,
            rows.len() == t.rows@.len(),
            cols == columns(t@),
            widths@.len() == cols,
            forall|r: int| 0 <= r < rows.len() ==> (#[trigger] rows[r]).len() <= cols,
            forall|c: int| 0 <= c < cols ==> #[trigger] widths@[c] == max_nat(
                cell_len(t@.headers, c),
                rows_width(rows.take(k as int), c),
            ),
        decreases t.rows@.len() - k,
    {
        assert(rows[k as int] == crate::document::strs(t.rows@[k as int]@));
        widen(&mut widths, &t.rows[k]);
        assert(rows.take(k + 1).drop_last() =~= rows.take(k as int));
        k = k + 1;
    }
    assert(rows.take(t.rows@.len() as int) =~= rows);
    widths
}

proof fn lemma_rows_columns(rows: Seq<Seq<Seq<char>>>)
    ensures
        forall|r: int| 0 <= r < rows.len() ==> (#[trigger] rows[r]).len() <= rows_columns(rows),
    decreases rows.len(),
{
    if rows.len() > 0 {
        lemma_rows_columns(rows.drop_last());
        assert forall|r: int| 0 <= r < rows.len() implies (#[trigger] rows[r]).len() <= rows_columns(rows) by {
            if r < rows.len() - 1 {
                assert(rows.drop_last()[r] == rows[r]);
            }
        }
    }
}

proof fn lemma_columns_bound(t: TableV)
    ensures
        t.headers.len() <= columns(t),
        forall|r: int| 0 <= r < t.rows.len() ==> (#[trigger] t.rows[r]).len() <= columns(t),
{
    lemma_rows_columns(t.rows);
}

fn padded_exec(cell: &[char], w: usize) -> (r: Vec<char>)
    ensures
        r@ == padded(cell@, w as nat),
{
    let mut v: Vec<char> = Vec::new();
    v.push(' ');
    text::push_chars(&mut v, cell);
    let mut k: usize = cell.len();
    let ghost base = v@;
    while k < w
        invariant
            cell@.len() <= k,
            k <= w || k == cell@.len(),
            v@ == base + spaces((k - cell@.len()) as nat),
        decreases w - k,
    {
        v.push(' ');
        k = k + 1;
        assert(v@ =~= base + spaces((k - cell@.len()) as nat));
    }
    v.push(' ');
    assert(v@ =~= padded(cell@, w as nat));
    v
}

fn table_row_exec(out: &mut Vec<char>, cells: &Vec<String>, widths: &Vec<usize>, Ghost(t): Ghost<TableV>)
    requires
        forall|c: int| 0 <= c < widths@.len() ==> #[trigger] widths@[c] == col_width(t, c),
        widths@.len() == columns(t),
    ensures
        final(out)@ == old(out)@ + table_row_plain(t, crate::document::strs(cells@)),
{
    let ghost r = crate::document::strs(cells@);
    let ghost all = Seq::new(columns(t), |c: int| padded(row_cell(r, c), col_width(t, c)));
    let mut parts: Vec<Vec<char>> = Vec::new();
    let mut c: usize = 0;
    while c < widths.len()
        invariant
            c <= widths@.len(),
            widths@.len() == columns(t),
            forall|q: int| 0 <= q < widths@.len() ==> #[trigger] widths@[q] == col_width(t, q),
            r == crate::document::strs(cells@),
            all == Seq::new(columns(t), |q: int| padded(row_cell(r, q), col_width(t, q))),
            text::views(parts@) == all.take(c as int),
        decreases widths@.len() - c,
    {
        let cell: Vec<char> = if c < cells.len() {
            text::chars_of(cells[c].as_str())
        } else {
            Vec::new()
        };
        assert(cell@ == row_cell(r, c as int));
        let p = padded_exec(cell.as_slice(), widths[c]);
        let ghost before = parts@;
        parts.push(p);
        assert(text::views(parts@) =~= text::views(before).push(p@));
        assert(all.take(c + 1) =~= all.take(c as int).push(all[c as int]));
        c = c + 1;
    }
    assert(all.take(widths@.len() as int) =~= all);
    out.push('|');
    let bar = ['|'];
    assert(bar@ == seq!['|']);
    let j = text::join_vecs(parts.as_slice(), bar.as_slice());
    text::push_chars(out, j.as_slice());
    out.push('|');
    assert(out@ =~= old(out)@ + table_row_plain(t, r));
}

fn table_plain_exec(t: &Table) -> (r: Vec<char>)
    ensures
        r@ == table_plain(t@),
{
    let cols = columns_exec(t);
    if cols == 0 {
        return Vec::new();
    }
    let widths = widths_exec(t, cols);
    let mut out: Vec<char> = Vec::new();
    table_row_exec(&mut out, &t.headers, &widths, Ghost(t@));
    out.push('\n');
    out.push('├');
    let ghost sepall = Seq::new(columns(t@), |c: int| Seq::new((col_width(t@, c) + 2) as nat, |i: int| '─'));
    let mut seps: Vec<Vec<char>> = Vec::new();
    let mut c: usize = 0;
    while c < cols
        invariant
            c <= cols,
            cols == columns(t@),
            widths@.len() == cols,
            forall|q: int| 0 <= q < cols ==> #[trigger] widths@[q] == col_width(t@, q),
            sepall == Seq::new(columns(t@), |q: int| Seq::new((col_width(t@, q) + 2) as nat, |i: int| '─')),
            text::views(seps@) == sepall.take(c as int),
        decreases cols - c,
    {
        let mut d: Vec<char> = Vec::new();
        let w = widths[c];
        let mut k: usize = 0;
        while k < w
            invariant
                k <= w,
                d@ == Seq::new(k as nat, |i: int| '─'),
            decreases w - k,
        {
            d.push('─');
            k = k + 1;
            assert(d@ =~= Seq::new(k as nat, |i: int| '─'));
        }
        d.push('─');
        d.push('─');
        assert(d@ =~= Seq::new((w + 2) as nat, |i: int| '─'));
        let ghost before = seps@;
        seps.push(d);
        assert(text::views(seps@) =~= text::views(before).push(d@));
        assert(sepall.take(c + 1) =~= sepall.take(c as int).push(sepall[c as int]));
        c = c + 1;
    }
    assert(sepall.take(cols as int) =~= sepall);
    let cross = ['┼'];
    assert(cross@ == seq!['┼']);
    let j = text::join_vecs(seps.as_slice(), cross.as_slice());
    text::push_chars(&mut out, j.as_slice());
    out.push('┤');
    let ghost head = out@;
    let ghost rm = t@.rows.map_values(|r: Seq<Seq<char>>| seq!['\n'] + table_row_plain(t@, r));
    let mut k: usize = 0;
    assert(rm.take(0) =~= Seq::<Seq<char>>::empty());
    assert(out@ =~= head + rm.take(0).flatten());
    while k < t.rows.len()
        invariant
            k <= t.rows@.len(),
            t@.rows.len() == t.rows@.len(),
            widths@.len() == columns(t@),
            forall|q: int| 0 <= q < widths@.len() ==> #[trigger] widths@[q] == col_width(t@, q),
            rm == t@.rows.map_values(|r: Seq<Seq<char>>| seq!['\n'] + table_row_plain(t@, r)),
            out@ == head + rm.take(k as int).flatten(),
        decreases t.rows@.len() - k,
    {
        let ghost before = out@;
        out.push('\n');
        table_row_exec(&mut out, &t.rows[k], &widths, Ghost(t@));
        proof {
            assert(t@.rows[k as int] == crate::document::strs(t.rows@[k as int]@));
            assert(out@ =~= before + rm[k as int]);
            assert(rm.take(k + 1) =~= rm.take(k as int).push(rm[k as int]));
            rm.take(k as int).lemma_flatten_push(rm[k as int]);
        }
        k = k + 1;
    }
    assert(rm.take(t.rows@.len() as int) =~= rm);
    assert(out@ =~= table_plain(t@));
    out
}

pub open spec fn opt_text(o: Option<Seq<char>>) -> Seq<char> {
    match o {
        Some(t) => t,
        None => Seq::empty(),
    }
}

pub open spec fn rule_text() -> Seq<char> {
    "────────────────────────────────────────"@
}

/// Preformatted code as rendered: highlighted when it names a language.
pub open spec fn code_text(code: Seq<char>, language: Option<Seq<char>>) -> Seq<char> {
    match language {
        Some(l) => highlighted(code, l),
        None => code,
    }
}

/// One block as plain text; `n` is the number the next link gets.
pub open spec fn block_plain(b: BlockV, n: nat, show_targets: bool) -> Seq<char> {
    match b {
        BlockV::Heading { level, text } => Seq::new(level as nat, |i: int| '#') + seq![' '] + plain(text)
            + "\n\n"@,
        BlockV::Paragraph(t) => plain(t) + "\n\n"@,
        BlockV::Link(l) => seq!['['] + text::decimal(n) + "] "@ + l.label + (if show_targets {
            " <"@ + l.target + seq!['>']
        } else {
            Seq::empty()
        }) + seq!['\n'],
        BlockV::Input(i) => "[input] "@ + i.label + " ("@ + i.name + ") = "@ + (if i.value.len() == 0 {
            opt_text(i.placeholder)
        } else {
            i.value
        }) + seq!['\n'],
        BlockV::Button(bt) => "[button] "@ + bt.label + " <"@ + bt.method.name() + seq![' '] + bt.target
            + ">\n"@,
        BlockV::Image(im) => "[image] "@ + im.alt + " <"@ + im.source + ">\n"@,
        BlockV::Quote(t) => text::lines(t).map_values(|l: Seq<char>| "> "@ + plain(l) + seq!['\n']).flatten()
            + seq!['\n'],
        BlockV::List(items) => items.map_values(|it: Seq<char>| "• "@ + plain(it) + seq!['\n']).flatten()
            + seq!['\n'],
        BlockV::Rule => rule_text() + "\n\n"@,
        BlockV::Table(t) => table_plain(t) + "\n\n"@,
        BlockV::Preformatted { code, language } => "```"@ + opt_text(language) + seq!['\n'] + code_text(
            code,
            language,
        ) + "\n```\n\n"@,
        BlockV::Script { label, .. } => match label {
            Some(l) => "⚡ ["@ + l + "]\n\n"@,
            None => Seq::empty(),
        },
    }
}

/// The blocks as plain text, links numbered from `n`.
pub open spec fn blocks_plain(bs: Seq<BlockV>, n: nat, show_targets: bool) -> Seq<char>
    decreases bs.len(),
{
    if bs.len() == 0 {
        Seq::empty()
    } else {
        block_plain(bs[0], n, show_targets) + blocks_plain(
            bs.drop_first(),
            if bs[0] is Link {
                n + 1
            } else {
                n
            },
            show_targets,
        )
    }
}

/// A document as plain terminal text, links numbered from 1, without
/// trailing whitespace.
pub open spec fn rendered(d: DocumentV, show_targets: bool) -> Seq<char> {
    text::trim_end(blocks_plain(d.blocks, 1, show_targets))
}

/// The line a link renders to as the `k`-th link: `[k] label`, with
/// ` <target>` when targets are shown.
pub open spec fn link_line(k: nat, l: document::LinkV, show_targets: bool) -> Seq<char> {
    seq!['['] + text::decimal(k) + "] "@ + l.label + if show_targets {
        " <"@ + l.target + seq!['>']
    } else {
        Seq::empty()
    }
}

/// The lines of links numbered from `n`, joined by newlines.
pub open spec fn link_lines(ls: Seq<document::LinkV>, n: nat, show_targets: bool) -> Seq<char>
    decreases ls.len(),
{
    if ls.len() == 0 {
        Seq::empty()
    } else if ls.len() == 1 {
        link_line(n, ls[0], show_targets)
    } else {
        link_line(n, ls[0], show_targets) + seq!['\n'] + link_lines(ls.drop_first(), n + 1, show_targets)
    }
}

pub open spec fn link_blocks(ls: Seq<document::LinkV>) -> Seq<BlockV> {
    ls.map_values(|l: document::LinkV| BlockV::Link(l))
}

proof fn lemma_link_line_last(k: nat, l: document::LinkV, show_targets: bool)
    ensures
        link_line(k, l, show_targets).last() == link_line(1, l, show_targets).last(),
{
    reveal_strlit("] ");
    let tail = "] "@ + l.label + if show_targets {
        " <"@ + l.target + seq!['>']
    } else {
        Seq::empty()
    };
    assert(link_line(k, l, show_targets) =~= (seq!['['] + text::decimal(k)) + tail);
    assert(link_line(1, l, show_targets) =~= (seq!['['] + text::decimal(1)) + tail);
}

proof fn lemma_links_plain(ls: Seq<document::LinkV>, n: nat, show_targets: bool)
    requires
        ls.len() > 0,
    ensures
        blocks_plain(link_blocks(ls), n, show_targets) == link_lines(ls, n, show_targets) + seq!['\n'],
        link_lines(ls, n, show_targets).len() > 0,
        link_lines(ls, n, show_targets).last() == link_line(n, ls.last(), show_targets).last(),
    decreases ls.len(),
{
    let bs = link_blocks(ls);
    assert(bs[0] == BlockV::Link(ls[0]));
    assert(bs.drop_first() =~= link_blocks(ls.drop_first()));
    assert(block_plain(bs[0], n, show_targets) =~= link_line(n, ls[0], show_targets) + seq!['\n']);
    if ls.len() == 1 {
        assert(bs.drop_first().len() == 0);
        assert(blocks_plain(bs.drop_first(), n + 1, show_targets) == Seq::<char>::empty());
        assert(ls.last() == ls[0]);
        assert(blocks_plain(bs, n, show_targets) =~= link_line(n, ls[0], show_targets) + seq!['\n']);
    } else {
        lemma_links_plain(ls.drop_first(), n + 1, show_targets);
        assert(ls.drop_first().last() == ls.last());
        let a = link_line(n, ls[0], show_targets) + seq!['\n'];
        let b = link_lines(ls.drop_first(), n + 1, show_targets);
        assert((a + b).last() == b.last());
        assert(a + (b + seq!['\n']) =~= (a + b) + seq!['\n']);
        lemma_link_line_last(n + 1, ls.last(), show_targets);
        lemma_link_line_last(n, ls.last(), show_targets);
    }
}

/// A page of links alone renders as one numbered line per link, `[k]
/// label`, with ` <target>` when targets are shown, joined by newlines;
/// where targets are not shown, the last label ends in other than
/// whitespace (else trimming the text would cut into it).
pub proof fn lemma_links_render_as_numbered_lines(d: DocumentV, ls: Seq<document::LinkV>, show_targets: bool)
    requires
        d.blocks == link_blocks(ls),
        ls.len() > 0 && !show_targets ==> ls.last().label.len() > 0 && !text::is_ws(ls.last().label.last()),
    ensures
        rendered(d, show_targets) == link_lines(ls, 1, show_targets),
{
    if ls.len() == 0 {
        assert(d.blocks.len() == 0);
        assert(blocks_plain(d.blocks, 1, show_targets) == Seq::<char>::empty());
    } else {
        lemma_links_plain(ls, 1, show_targets);
        let x = link_lines(ls, 1, show_targets);
        assert(!text::is_ws(x.last()));
        assert((x + seq!['\n']).drop_last() =~= x);
        assert(text::trim_end(x + seq!['\n']) == text::trim_end(x));
    }
}

fn push_plain_lines(out: &mut Vec<char>, prefix: &str, ls: &Vec<Vec<char>>)
    ensures
        final(out)@ == old(out)@ + text::views(ls@).map_values(
            |l: Seq<char>| prefix@ + plain(l) + seq!['\n'],
        ).flatten(),
{
    let ghost m = text::views(ls@).map_values(|l: Seq<char>| prefix@ + plain(l) + seq!['\n']);
    let mut i: usize = 0;
    assert(m.take(0) =~= Seq::<Seq<char>>::empty());
    assert(out@ =~= old(out)@ + m.take(0).flatten());
    while i < ls.len()
        invariant
            i <= ls@.len(),
            m == text::views(ls@).map_values(|l: Seq<char>| prefix@ + plain(l) + seq!['\n']),
            out@ == old(out)@ + m.take(i as int).flatten(),
        decreases ls@.len() - i,
    {
        let ghost before = out@;
        text::push_str(out, prefix);
        let line = text::string_from(ls[i].as_slice());
        let p = plain_exec(line.as_str());
        text::push_chars(out, p.as_slice());
        out.push('\n');
        proof {
            assert(out@ =~= before + m[i as int]);
            assert(m.take(i + 1) =~= m.take(i as int).push(m[i as int]));
            m.take(i as int).lemma_flatten_push(m[i as int]);
        }
        i = i + 1;
    }
    assert(m.take(ls@.len() as int) =~= m);
}

#[verifier::rlimit(40)]
fn block_plain_exec(out: &mut Vec<char>, b: &Block, n: usize, show_targets: bool)
    ensures
        final(out)@ == old(out)@ + block_plain(b@, n as nat, show_targets),
{
    match b {
        Block::Heading { level, text } => {
            let mut k: u8 = 0;
            while k < *level
                invariant
                    k <= *level,
                    out@ == old(out)@ + Seq::new(k as nat, |i: int| '#'),
                decreases *level - k,
            {
                out.push('#');
                k = k + 1;
                assert(out@ =~= old(out)@ + Seq::new(k as nat, |i: int| '#'));
            }
            out.push(' ');
            let p = plain_exec(text.as_str());
            text::push_chars(out, p.as_slice());
            text::push_str(out, "\n\n");
        },
        Block::Paragraph(t) => {
            let p = plain_exec(t.as_str());
            text::push_chars(out, p.as_slice());
            text::push_str(out, "\n\n");
        },
        Block::Link(l) => {
            out.push('[');
            text::push_decimal(out, n);
            text::push_str(out, "] ");
            text::push_str(out, l.label.as_str());
            if show_targets {
                text::push_str(out, " <");
                text::push_str(out, l.target.as_str());
                out.push('>');
            }
            out.push('\n');
        },
        Block::Input(i) => {
            text::push_str(out, "[input] ");
            text::push_str(out, i.label.as_str());
            text::push_str(out, " (");
            text::push_str(out, i.name.as_str());
            text::push_str(out, ") = ");
            if i.value.as_str().unicode_len() == 0 {
                match &i.placeholder {
                    Some(p) => text::push_str(out, p.as_str()),
                    None => {},
                }
            } else {
                text::push_str(out, i.value.as_str());
            }
            out.push('\n');
        },
        Block::Button(bt) => {
            text::push_str(out, "[button] ");
            text::push_str(out, bt.label.as_str());
            text::push_str(out, " <");
            text::push_str(out, bt.method.as_str());
            out.push(' ');
            text::push_str(out, bt.target.as_str());
            text::push_str(out, ">\n");
        },
        Block::Image(im) => {
            text::push_str(out, "[image] ");
            text::push_str(out, im.alt.as_str());
            text::push_str(out, " <");
            text::push_str(out, im.source.as_str());
            text::push_str(out, ">\n");
        },
        Block::Quote(t) => {
            let cs = text::chars_of(t.as_str());
            let ls = text::lines_of(cs.as_slice());
            push_plain_lines(out, "> ", &ls);
            out.push('\n');
        },
        Block::List(items) => {
            let vs = crate::formatter::string_vecs(items);
            push_plain_lines(out, "• ", &vs);
            out.push('\n');
        },
        Block::Rule => {
            text::push_str(out, "────────────────────────────────────────");
            text::push_str(out, "\n\n");
        },
        Block::Table(t) => {
            let tp = table_plain_exec(t);
            text::push_chars(out, tp.as_slice());
            text::push_str(out, "\n\n");
        },
        Block::Preformatted { code, language } => {
            text::push_str(out, "```");
            match language {
                Some(l) => {
                    text::push_str(out, l.as_str());
                    out.push('\n');
                    let h = highlight_ansi(code.as_str(), l.as_str());
                    text::push_str(out, h.as_str());
                },
                None => {
                    out.push('\n');
                    text::push_str(out, code.as_str());
                },
            }
            text::push_str(out, "\n```\n\n");
        },
        Block::Script { label, .. } => {
            match label {
                Some(l) => {
                    text::push_str(out, "⚡ [");
                    text::push_str(out, l.as_str());
                    text::push_str(out, "]\n\n");
                },
                None => {},
            }
        },
    }
    assert(out@ =~= old(out)@ + block_plain(b@, n as nat, show_targets));
}

/// The document as plain text with link targets shown.
pub fn render_plain(document: &Document) -> (r: String)
    requires
        document.blocks@.len() < usize::MAX,
    ensures
        r@ == rendered(document@, true),
{
    render_plain_with_options(document, RenderOptions::default())
}

/// The document as plain text; see `rendered`.
pub fn render_plain_with_options(document: &Document, options: RenderOptions) -> (r: String)
    requires
        document.blocks@.len() < usize::MAX,
    ensures
        r@ == rendered(document@, options.show_link_targets),
{
    let ghost bs = document@.blocks;
    let show = options.show_link_targets;
    let mut out: Vec<char> = Vec::new();
    let mut n: usize = 1;
    let mut i: usize = 0;
    assert(bs.skip(0) =~= bs);
    while i < document.blocks.len()
        invariant
            i <= document.blocks@.len(),
            document.blocks@.len() < usize::MAX,
            bs == document@.blocks,
            1 <= n <= i + 1,
            blocks_plain(bs, 1, show) == out@ + blocks_plain(bs.skip(i as int), n as nat, show),
        decreases document.blocks@.len() - i,
    {
        let ghost before = out@;
        let ghost rest = bs.skip(i as int);
        assert(rest[0] == document.blocks@[i as int]@);
        assert(rest.drop_first() =~= bs.skip(i + 1));
        block_plain_exec(&mut out, &document.blocks[i], n, show);
        let is_link = match &document.blocks[i] {
            Block::Link(_) => true,
            _ => false,
        };
        assert(out@ + blocks_plain(bs.skip(i + 1), if is_link { (n + 1) as nat } else { n as nat }, show)
            =~= before + blocks_plain(rest, n as nat, show));
        if is_link {
            n = n + 1;
        }
        i = i + 1;
    }
    assert(bs.skip(document.blocks@.len() as int) =~= Seq::<BlockV>::empty());
    assert(out@ + Seq::<char>::empty() =~= out@);
    let t = text::trimmed_end(out.as_slice());
    text::string_from(t.as_slice())
}

} // verus!
