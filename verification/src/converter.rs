//! Conversion between Markdown and Jaringan markup.

use vstd::prelude::*;
use crate::text;
use vstd::string::StrSliceExecFns;
use crate::utf8;
use crate::document::{self, Block, BlockV, Document, DocumentV, Table, TableV};
use crate::formatter::{self, nl, close_nl, prefixed_lines, repeat_char};

verus! {

broadcast use vstd::string::group_string_axioms;

// ----- Markdown to Jaringan -----

/// `l` with its HTML comments (`<!-- ... -->`) taken out, scanning from
/// `i` with a comment open or not.
pub open spec fn strip_from(l: Seq<char>, i: int, in_comment: bool) -> Seq<char>
    decreases l.len() - i,
{
    if i < 0 || i >= l.len() {
        Seq::empty()
    } else if !in_comment && l[i] == '<' && i + 4 <= l.len() && l.subrange(i + 1, i + 4) == seq![
        '!',
        '-',
        '-',
    ] {
        strip_from(l, i + 4, true)
    } else if in_comment && l[i] == '-' && i + 3 <= l.len() && l.subrange(i + 1, i + 3) == seq![
        '-',
        '>',
    ] {
        strip_from(l, i + 3, false)
    } else if in_comment {
        strip_from(l, i + 1, true)
    } else {
        seq![l[i]] + strip_from(l, i + 1, false)
    }
}

/// A line without its HTML comments; trimmed when anything was taken out.
pub open spec fn strip_comments(l: Seq<char>) -> Seq<char> {
    let r = strip_from(l, 0, false);
    if r != l {
        text::trim(r)
    } else {
        r
    }
}

/// Where a bracketed span that starts at `open` closes: the first `]` at or
/// after `open`, which must be followed by `(`, and the first `)` after
/// that; `None` when there is no such span.
pub open spec fn span_at(l: Seq<char>, open: int) -> Option<(int, int)> {
    let cb = text::char_from(l, ']', open);
    if cb + 1 < l.len() && l[cb + 1] == '(' {
        let cp = text::char_from(l, ')', cb + 2);
        if cp < l.len() {
            Some((cb, cp))
        } else {
            None
        }
    } else {
        None
    }
}

pub proof fn lemma_span_at(l: Seq<char>, open: int)
    requires
        0 <= open <= l.len(),
    ensures
        span_at(l, open) matches Some((cb, cp)) ==> open <= cb && cb + 2 <= cp < l.len() && l[cb]
            == ']' && l[cb + 1] == '(' && l[cp] == ')',
{
    text::lemma_char_from(l, ']', open);
    let cb = text::char_from(l, ']', open);
    if cb + 1 < l.len() && l[cb + 1] == '(' {
        text::lemma_char_from(l, ')', cb + 2);
    }
}

/// Markdown images `![alt](src)` from `pos` on written as `@src alt="alt"`;
/// every other character is copied as it is.
pub open spec fn images_from(l: Seq<char>, pos: int) -> Seq<char>
    decreases l.len() - pos,
{
    if pos < 0 || pos >= l.len() {
        Seq::empty()
    } else if pos + 1 < l.len() && l[pos] == '!' && l[pos + 1] == '[' && span_at(l, pos + 2) is Some {
        let (cb, cp) = span_at(l, pos + 2).unwrap();
        proof {
            lemma_span_at(l, pos + 2);
        }
        seq!['@'] + l.subrange(cb + 2, cp) + " alt=\""@ + l.subrange(pos + 2, cb) + seq!['"']
            + images_from(l, cp + 1)
    } else {
        seq![l[pos]] + images_from(l, pos + 1)
    }
}

/// Markdown links `[label](url)` from `pos` on written as `=> url label`;
/// every other character is copied as it is.
pub open spec fn links_from(l: Seq<char>, pos: int) -> Seq<char>
    decreases l.len() - pos,
{
    if pos < 0 || pos >= l.len() {
        Seq::empty()
    } else if l[pos] == '[' && span_at(l, pos + 1) is Some {
        let (cb, cp) = span_at(l, pos + 1).unwrap();
        proof {
            lemma_span_at(l, pos + 1);
        }
        "=> "@ + l.subrange(cb + 2, cp) + seq![' '] + l.subrange(pos + 1, cb) + links_from(
            l,
            cp + 1,
        )
    } else {
        seq![l[pos]] + links_from(l, pos + 1)
    }
}

/// One Markdown line as Jaringan: comments out, then images, then links.
pub open spec fn convert_line(l: Seq<char>) -> Seq<char> {
    links_from(images_from(strip_comments(l), 0), 0)
}

pub open spec fn convert_lines(ls: Seq<Seq<char>>) -> Seq<char> {
    ls.map_values(|l: Seq<char>| convert_line(l) + nl()).flatten()
}

pub open spec fn is_dashes(l: Seq<char>) -> bool {
    text::trim(l) == seq!['-', '-', '-']
}

/// The first line at or after `i` that is `---` once trimmed.
pub open spec fn fence_from(ls: Seq<Seq<char>>, i: int) -> int
    decreases ls.len() - i,
{
    if i < 0 || i >= ls.len() {
        ls.len() as int
    } else if is_dashes(ls[i]) {
        i
    } else {
        fence_from(ls, i + 1)
    }
}

/// Markdown converted to Jaringan markup: a leading `---` front matter
/// block becomes metadata after `~~~~~`, and every other line is
/// converted by `convert_line`.
pub open spec fn md_text(input: Seq<char>) -> Seq<char> {
    if input.len() == 0 {
        Seq::empty()
    } else {
        let ls = text::lines(input);
        if ls.len() > 0 && is_dashes(ls[0]) {
            let e = fence_from(ls, 1);
            let meta = ls.subrange(1, e);
            let rest = if e < ls.len() {
                e + 1
            } else {
                e
            };
            (if meta.len() > 0 {
                "~~~~~"@ + nl() + meta.map_values(|l: Seq<char>| l + nl()).flatten()
            } else {
                Seq::empty()
            }) + convert_lines(ls.subrange(rest, ls.len() as int))
        } else {
            convert_lines(ls)
        }
    }
}

// ----- Jaringan to Markdown -----

pub open spec fn md_row(cells: Seq<Seq<char>>) -> Seq<char> {
    seq!['|'] + cells.map_values(|c: Seq<char>| seq![' '] + c + " |"@).flatten() + nl()
}

pub open spec fn md_table(t: TableV) -> Seq<char> {
    md_row(t.headers) + md_row(t.headers.map_values(|h: Seq<char>| formatter::sep_cell(h)))
        + t.rows.map_values(|r: Seq<Seq<char>>| md_row(r)).flatten()
}

/// One block as Markdown, ending with a line feed; inputs, buttons and
/// scripts become HTML comments.
pub open spec fn md_block(b: BlockV) -> Seq<char> {
    match b {
        BlockV::Heading { level, text } => repeat_char('#', level as nat) + seq![' '] + text + nl(),
        BlockV::Paragraph(t) => t + nl(),
        BlockV::Link(l) => seq!['['] + l.label + seq![']', '('] + l.target + seq![')'] + nl(),
        BlockV::Input(i) => "<!-- input:"@ + formatter::input_markup(i) + " -->"@ + nl(),
        BlockV::Button(bt) => "<!-- button:"@ + formatter::button_markup(bt) + " -->"@ + nl(),
        BlockV::Image(im) => "!["@ + im.alt + seq![']', '('] + im.source + seq![')'] + nl(),
        BlockV::Quote(t) => prefixed_lines("> "@, text::lines(t)),
        BlockV::List(items) => prefixed_lines("- "@, items),
        BlockV::Rule => "---"@ + nl(),
        BlockV::Table(t) => md_table(t),
        BlockV::Preformatted { code, language } => formatter::pre_markup(code, language),
        BlockV::Script { label, .. } => match label {
            Some(l) => "<!-- script:"@ + l + " -->"@ + nl(),
            None => "<!-- script -->"@ + nl(),
        },
    }
}

/// A document as Markdown: metadata as `---` front matter, then the blocks
/// separated by blank lines.
pub open spec fn md_document(d: DocumentV) -> Seq<char> {
    (match d.metadata {
        Some(m) => "---"@ + nl() + close_nl(m) + "---"@ + nl() + nl(),
        None => Seq::empty(),
    }) + text::join(d.blocks.map_values(|b: BlockV| md_block(b)), nl())
}

/// A quote keeps its `> ` in Markdown: a page of one quote line, `> ` and a
/// text (without line feeds, neither starting nor ending with
/// whitespace), converts to that same line.
pub proof fn lemma_quote_line_to_md(x: Seq<char>)
    requires
        x.len() > 0,
        !text::is_ws(x[0]),
        !text::is_ws(x.last()),
        text::free_of(x, '\n'),
    ensures
        jrg_md_text("> "@ + x + nl()) == Ok::<Seq<char>, Seq<char>>("> "@ + x + nl()),
{
    reveal_strlit("> ");
    let l = "> "@ + x;
    let input = l + nl();
    assert(text::free_of(l, '\n')) by {
        assert forall|j: int| 0 <= j < l.len() implies l[j] != '\n' by {
            if j >= 2 {
                assert(l[j] == x[j - 2]);
            }
        }
    }
    // The page's one line.
    assert(input.drop_last() =~= l);
    text::lemma_split_nl_is_split_on(l);
    text::lemma_split_on_free(l, '\n');
    assert(l.last() == x.last());
    let ls = seq![l];
    assert(text::lines(input) =~= ls);
    text::lemma_trim_plain(l);
    let t = crate::parser::tl(ls, 0);
    assert(t == l);
    assert(t[0] == '>');
    assert(t != crate::parser::tilde5());
    assert(!crate::parser::fence().is_prefix_of(t)) by {
        if crate::parser::fence().is_prefix_of(t) {
            assert(t.subrange(0, 3)[0] == t[0]);
        }
    }
    // The quote's text.
    assert(crate::parser::run_end(ls, 1, crate::parser::RunKind::Quote) == 1);
    assert(t.skip(1) =~= seq![' '] + x);
    text::lemma_trim_after_spaces(seq![' '], x);
    let rl = crate::parser::run_lines(ls, 0, 1, crate::parser::RunKind::Quote);
    assert(rl =~= seq![x]);
    assert(text::join(rl, seq!['\n']) == x);
    let b = BlockV::Quote(x);
    assert(crate::parser::parse_from(ls, 1) == Ok::<(Seq<BlockV>, Option<Seq<char>>), crate::parser::ParseError>(
        (Seq::empty(), None),
    ));
    assert(seq![b] + Seq::<BlockV>::empty() =~= seq![b]);
    assert(crate::parser::spec_parse_document(input) == Ok::<DocumentV, crate::parser::ParseError>(
        DocumentV { blocks: seq![b], metadata: None },
    ));
    // The Markdown.
    text::lemma_split_nl_is_split_on(x);
    text::lemma_split_on_free(x, '\n');
    assert(text::lines(x) =~= seq![x]);
    let m = seq![x].map_values(|y: Seq<char>| "> "@ + y + nl());
    assert(m =~= seq!["> "@ + x + nl()]);
    seq!["> "@ + x + nl()].lemma_flatten_singleton();
    assert(seq![b].map_values(|c: BlockV| md_block(c)) =~= seq![md_block(b)]);
    assert(Seq::<char>::empty() + md_block(b) =~= md_block(b));
}

/// A quote line of the page: `> ` and its text.
pub open spec fn quote_source_line(x: Seq<char>) -> Seq<char> {
    "> "@ + x + nl()
}

/// Text that a quote line carries unchanged: not empty, no line feed, no
/// whitespace at either end.
pub open spec fn quote_safe(x: Seq<char>) -> bool {
    x.len() > 0 && !text::is_ws(x[0]) && !text::is_ws(x.last()) && text::free_of(x, '\n')
}

proof fn lemma_quote_run(ls: Seq<Seq<char>>, j: int)
    requires
        0 <= j <= ls.len(),
        forall|q: int| j <= q < ls.len() ==> crate::parser::in_run(crate::parser::RunKind::Quote, #[trigger] crate::parser::tl(ls, q)),
    ensures
        crate::parser::run_end(ls, j, crate::parser::RunKind::Quote) == ls.len(),
    decreases ls.len() - j,
{
    if j < ls.len() {
        lemma_quote_run(ls, j + 1);
    }
}

/// A block quote keeps its `> ` in Markdown: a page of quote lines, each
/// `> ` and a text (not empty, without line feeds, neither starting nor
/// ending with whitespace), converts to the same lines.
pub proof fn lemma_quote_lines_to_md(xs: Seq<Seq<char>>)
    requires
        xs.len() > 0,
        forall|q: int| 0 <= q < xs.len() ==> quote_safe(#[trigger] xs[q]),
    ensures
        ({
            let page = xs.map_values(|x: Seq<char>| quote_source_line(x)).flatten();
            jrg_md_text(page) == Ok::<Seq<char>, Seq<char>>(page)
        }),
{
    reveal_strlit("> ");
    let ys = xs.map_values(|x: Seq<char>| "> "@ + x);
    let page = xs.map_values(|x: Seq<char>| quote_source_line(x)).flatten();
    assert forall|q: int| 0 <= q < ys.len() implies text::free_of(#[trigger] ys[q], '\n') by {
        let y = ys[q];
        assert forall|c: int| 0 <= c < y.len() implies y[c] != '\n' by {
            if c >= 2 {
                assert(y[c] == xs[q][c - 2]);
            }
        }
    }
    // The page's lines.
    let m = ys.map_values(|l: Seq<char>| l + seq!['\n']);
    assert(xs.map_values(|x: Seq<char>| quote_source_line(x)) =~= m);
    assert(m =~= seq![ys[0] + seq!['\n']] + ys.drop_first().map_values(|l: Seq<char>| l + seq!['\n']));
    vstd::seq_lib::lemma_flatten_concat(
        seq![ys[0] + seq!['\n']],
        ys.drop_first().map_values(|l: Seq<char>| l + seq!['\n']),
    );
    seq![ys[0] + seq!['\n']].lemma_flatten_singleton();
    assert forall|q: int| 0 <= q < ys.drop_first().len() implies text::free_of(#[trigger] ys.drop_first()[q], '\n') by {
        assert(ys.drop_first()[q] == ys[q + 1]);
    }
    text::lemma_lines_of_terminated(ys[0], ys.drop_first());
    assert(seq![ys[0]] + ys.drop_first() =~= ys);
    let ls = text::lines(page);
    assert(ls == text::strip_crs(ys));
    assert forall|q: int| 0 <= q < ys.len() implies text::strip_cr(#[trigger] ys[q]) == ys[q] && text::trim(ys[q])
        == ys[q] by {
        assert(ys[q].last() == xs[q].last());
        assert(ys[q][0] == '>');
        text::lemma_trim_plain(ys[q]);
    }
    assert(ls =~= ys);
    assert(page.len() > 0);
    // The one block: a quote of the texts, one per line.
    assert forall|q: int| 0 <= q < ls.len() implies crate::parser::in_run(
        crate::parser::RunKind::Quote,
        #[trigger] crate::parser::tl(ls, q),
    ) by {
        assert(crate::parser::tl(ls, q) == ys[q]);
        assert(ys[q][0] == '>');
    }
    lemma_quote_run(ls, 1);
    let t = crate::parser::tl(ls, 0);
    assert(t == ys[0]);
    assert(t[0] == '>');
    assert(t != crate::parser::tilde5());
    assert(!crate::parser::fence().is_prefix_of(t)) by {
        if crate::parser::fence().is_prefix_of(t) {
            assert(t.subrange(0, 3)[0] == t[0]);
        }
    }
    let rl = crate::parser::run_lines(ls, 0, ls.len() as int, crate::parser::RunKind::Quote);
    assert forall|q: int| 0 <= q < rl.len() implies #[trigger] rl[q] == xs[q] by {
        assert(rl[q] == crate::parser::quote_text(text::trim(ls[q])));
        assert(text::trim(ls[q]) == ys[q]);
        assert(ys[q].skip(1) =~= seq![' '] + xs[q]);
        text::lemma_trim_after_spaces(seq![' '], xs[q]);
    }
    assert(rl =~= xs);
    let qt = text::join(xs, seq!['\n']);
    let b = BlockV::Quote(qt);
    assert(ls.subrange(0, ls.len() as int) =~= ls);
    assert(crate::parser::parse_from(ls, ls.len() as int) == Ok::<(Seq<BlockV>, Option<Seq<char>>), crate::parser::ParseError>(
        (Seq::empty(), None),
    ));
    assert(seq![b] + Seq::<BlockV>::empty() =~= seq![b]);
    assert(crate::parser::spec_parse_document(page) == Ok::<DocumentV, crate::parser::ParseError>(
        DocumentV { blocks: seq![b], metadata: None },
    ));
    // The Markdown: the quote's lines, each after `> `.
    assert forall|q: int| 0 <= q < xs.len() implies text::free_of(#[trigger] xs[q], '\n') by {
    }
    text::lemma_split_join(xs, '\n');
    text::lemma_split_nl_is_split_on(qt);
    lemma_join_ends(xs);
    assert(text::strip_crs(xs.drop_last()) =~= xs.drop_last()) by {
        assert forall|q: int| 0 <= q < xs.drop_last().len() implies text::strip_cr(#[trigger] xs.drop_last()[q])
            == xs.drop_last()[q] by {
            assert(xs.drop_last()[q] == xs[q]);
        }
    }
    assert(text::lines(qt) =~= xs);
    assert(xs.map_values(|l: Seq<char>| "> "@ + l + nl()) =~= xs.map_values(|x: Seq<char>| quote_source_line(x)));
    assert(seq![b].map_values(|c: BlockV| md_block(c)) =~= seq![md_block(b)]);
    assert(Seq::<char>::empty() + md_block(b) =~= md_block(b));
}

proof fn lemma_join_ends(xs: Seq<Seq<char>>)
    requires
        xs.len() > 0,
        forall|q: int| 0 <= q < xs.len() ==> quote_safe(#[trigger] xs[q]),
    ensures
        text::join(xs, seq!['\n']).len() > 0,
        text::join(xs, seq!['\n']).last() == xs.last().last(),
{
    assert(quote_safe(xs.last()));
}

/// What `jrg_to_md` gives for a source text.
pub open spec fn jrg_md_text(input: Seq<char>) -> Result<Seq<char>, Seq<char>> {
    if input.len() == 0 {
        Ok(Seq::empty())
    } else {
        match crate::parser::spec_parse_document(input) {
            Ok(d) => Ok(md_document(d)),
            Err(e) => Err(formatter::parse_failure(e)),
        }
    }
}

fn strip_comments_exec(l: &[char]) -> (r: Vec<char>)
    ensures
        r@ == strip_comments(l@),
{
    let mut out: Vec<char> = Vec::new();
    let mut i: usize = 0;
    let mut in_c = false;
    let n = l.len();
    while i < n
        invariant
            i <= n,
            n == l@.len(),
            strip_from(l@, 0, false) == out@ + strip_from(l@, i as int, in_c),
        decreases n - i,
    {
        let ghost before = out@;
        let ghost rest = strip_from(l@, i as int, in_c);
        let c = l[i];
        if !in_c && c == '<' && n - i >= 4 && l[i + 1] == '!' && l[i + 2] == '-' && l[i + 3] == '-' {
            assert(l@.subrange(i + 1, i + 4) =~= seq!['!', '-', '-']);
            in_c = true;
            i = i + 4;
        } else if in_c && c == '-' && n - i >= 3 && l[i + 1] == '-' && l[i + 2] == '>' {
            assert(l@.subrange(i + 1, i + 3) =~= seq!['-', '>']);
            in_c = false;
            i = i + 3;
        } else {
            proof {
                if !in_c && c == '<' && i + 4 <= n && l@.subrange(i + 1, i + 4) == seq!['!', '-', '-'] {
                    assert(l@.subrange(i + 1, i + 4)[0] == l@[i + 1]);
                    assert(l@.subrange(i + 1, i + 4)[1] == l@[i + 2]);
                    assert(l@.subrange(i + 1, i + 4)[2] == l@[i + 3]);
                }
                if in_c && c == '-' && i + 3 <= n && l@.subrange(i + 1, i + 3) == seq!['-', '>'] {
                    assert(l@.subrange(i + 1, i + 3)[0] == l@[i + 1]);
                    assert(l@.subrange(i + 1, i + 3)[1] == l@[i + 2]);
                }
            }
            if !in_c {
                out.push(c);
                assert(out@ + strip_from(l@, i + 1, false) =~= before + rest);
            }
            i = i + 1;
        }
    }
    assert(out@ + Seq::<char>::empty() =~= out@);
    if text::chars_eq(out.as_slice(), l) {
        out
    } else {
        text::trimmed(out.as_slice())
    }
}

pub(crate) fn span_exec(l: &[char], open: usize) -> (r: Option<(usize, usize)>)
    requires
        open <= l@.len(),
    ensures
        match span_at(l@, open as int) {
            Some((cb, cp)) => r == Some((cb as usize, cp as usize)),
            None => r is None,
        },
{
    proof {
        lemma_span_at(l@, open as int);
        text::lemma_char_from(l@, ']', open as int);
    }
    let cb = text::find_char(l, ']', open);
    if cb < l.len() && cb + 1 < l.len() && l[cb + 1] == '(' {
        let cp = text::find_char(l, ')', cb + 2);
        if cp < l.len() {
            Some((cb, cp))
        } else {
            None
        }
    } else {
        None
    }
}

fn images_exec(l: &[char]) -> (r: Vec<char>)
    ensures
        r@ == images_from(l@, 0),
{
    let mut out: Vec<char> = Vec::new();
    let mut pos: usize = 0;
    let n = l.len();
    while pos < n
        invariant
            pos <= n,
            n == l@.len(),
            images_from(l@, 0) == out@ + images_from(l@, pos as int),
        decreases n - pos,
    {
        let ghost before = out@;
        let ghost rest = images_from(l@, pos as int);
        let mut done = false;
        if pos + 1 < n && l[pos] == '!' && l[pos + 1] == '[' {
            match span_exec(l, pos + 2) {
                Some((cb, cp)) => {
                    proof {
                        lemma_span_at(l@, pos + 2);
                    }
                    out.push('@');
                    let src = text::slice_of(l, cb + 2, cp);
                    text::push_chars(&mut out, src.as_slice());
                    text::push_str(&mut out, " alt=\"");
                    let alt = text::slice_of(l, pos + 2, cb);
                    text::push_chars(&mut out, alt.as_slice());
                    out.push('"');
                    assert(out@ + images_from(l@, cp + 1) =~= before + rest);
                    pos = cp + 1;
                    done = true;
                },
                None => {},
            }
        }
        if !done {
            out.push(l[pos]);
            assert(out@ + images_from(l@, pos + 1) =~= before + rest);
            pos = pos + 1;
        }
    }
    assert(out@ + Seq::<char>::empty() =~= out@);
    out
}

fn links_exec(l: &[char]) -> (r: Vec<char>)
    ensures
        r@ == links_from(l@, 0),
{
    let mut out: Vec<char> = Vec::new();
    let mut pos: usize = 0;
    let n = l.len();
    while pos < n
        invariant
            pos <= n,
            n == l@.len(),
            links_from(l@, 0) == out@ + links_from(l@, pos as int),
        decreases n - pos,
    {
        let ghost before = out@;
        let ghost rest = links_from(l@, pos as int);
        let mut done = false;
        if l[pos] == '[' {
            match span_exec(l, pos + 1) {
                Some((cb, cp)) => {
                    proof {
                        lemma_span_at(l@, pos + 1);
                    }
                    text::push_str(&mut out, "=> ");
                    let url = text::slice_of(l, cb + 2, cp);
                    text::push_chars(&mut out, url.as_slice());
                    out.push(' ');
                    let label = text::slice_of(l, pos + 1, cb);
                    text::push_chars(&mut out, label.as_slice());
                    assert(out@ + links_from(l@, cp + 1) =~= before + rest);
                    pos = cp + 1;
                    done = true;
                },
                None => {},
            }
        }
        if !done {
            out.push(l[pos]);
            assert(out@ + links_from(l@, pos + 1) =~= before + rest);
            pos = pos + 1;
        }
    }
    assert(out@ + Seq::<char>::empty() =~= out@);
    out
}

fn convert_lines_exec(out: &mut Vec<char>, ls: &Vec<Vec<char>>, from: usize)
    requires
        from <= ls@.len(),
    ensures
        final(out)@ == old(out)@ + convert_lines(text::views(ls@).subrange(from as int, ls@.len() as int)),
{
    let ghost sub = text::views(ls@).subrange(from as int, ls@.len() as int);
    let ghost m = sub.map_values(|l: Seq<char>| convert_line(l) + nl());
    let mut i: usize = from;
    assert(m.take(0) =~= Seq::<Seq<char>>::empty());
    assert(out@ =~= old(out)@ + m.take(0).flatten());
    while i < ls.len()
        invariant
            from <= i <= ls@.len(),
            sub == text::views(ls@).subrange(from as int, ls@.len() as int),
            m == sub.map_values(|l: Seq<char>| convert_line(l) + nl()),
            out@ == old(out)@ + m.take(i - from).flatten(),
        decreases ls@.len() - i,
    {
        let a = strip_comments_exec(ls[i].as_slice());
        let b = images_exec(a.as_slice());
        let c = links_exec(b.as_slice());
        let ghost before = out@;
        text::push_chars(out, c.as_slice());
        out.push('\n');
        proof {
            assert(sub[i - from] == ls@[i as int]@);
            assert(out@ =~= before + m[i - from]);
            assert(m.take(i - from + 1) =~= m.take(i - from).push(m[i - from]));
            m.take(i - from).lemma_flatten_push(m[i - from]);
        }
        i = i + 1;
    }
    assert(m.take(ls@.len() - from) =~= m);
}

fn is_dashes_exec(l: &[char]) -> (r: bool)
    ensures
        r == is_dashes(l@),
{
    let t = text::trimmed(l);
    let d = ['-', '-', '-'];
    assert(d@ == seq!['-', '-', '-']);
    text::chars_eq(t.as_slice(), d.as_slice())
}

/// Converts Markdown to Jaringan markup; see `md_text`. It always succeeds.
pub fn md_to_jrg(input: &str) -> (r: Result<String, String>)
    ensures
        r matches Ok(s) && s@ == md_text(input@),
{
    let cs = text::chars_of(input);
    if cs.len() == 0 {
        return Ok(String::new());
    }
    let ls = text::lines_of(cs.as_slice());
    let ghost lv = text::views(ls@);
    let mut out: Vec<char> = Vec::new();
    if ls.len() > 0 && is_dashes_exec(ls[0].as_slice()) {
        let mut i: usize = 1;
        while i < ls.len() && !is_dashes_exec(ls[i].as_slice())
            invariant
                1 <= i <= ls@.len(),
                lv == text::views(ls@),
                fence_from(lv, i as int) == fence_from(lv, 1),
            decreases ls@.len() - i,
        {
            assert(lv[i as int] == ls@[i as int]@);
            i = i + 1;
        }
        proof {
            if i < ls@.len() {
                assert(lv[i as int] == ls@[i as int]@);
            }
        }
        let e = i;
        let ghost meta = lv.subrange(1, e as int);
        let ghost mm = meta.map_values(|l: Seq<char>| l + nl());
        if e > 1 {
            text::push_str(&mut out, "~~~~~");
            out.push('\n');
            let ghost base = out@;
            let mut k: usize = 1;
            assert(mm.take(0) =~= Seq::<Seq<char>>::empty());
            assert(out@ =~= base + mm.take(0).flatten());
            while k < e
                invariant
                    1 <= k <= e <= ls@.len(),
                    meta == lv.subrange(1, e as int),
                    lv == text::views(ls@),
                    mm == meta.map_values(|l: Seq<char>| l + nl()),
                    out@ == base + mm.take(k - 1).flatten(),
                decreases e - k,
            {
                let ghost before = out@;
                text::push_chars(&mut out, ls[k].as_slice());
                out.push('\n');
                proof {
                    assert(meta[k - 1] == ls@[k as int]@);
                    assert(out@ =~= before + mm[k - 1]);
                    assert(mm.take(k - 1 + 1) =~= mm.take(k - 1).push(mm[k - 1]));
                    mm.take(k - 1).lemma_flatten_push(mm[k - 1]);
                }
                k = k + 1;
            }
            assert(mm.take(e - 1) =~= mm);
        }
        let rest = if e < ls.len() {
            e + 1
        } else {
            e
        };
        convert_lines_exec(&mut out, &ls, rest);
    } else {
        convert_lines_exec(&mut out, &ls, 0);
        assert(lv.subrange(0, lv.len() as int) =~= lv);
    }
    Ok(text::string_from(out.as_slice()))
}

fn md_row_exec(out: &mut Vec<char>, cells: &Vec<Vec<char>>)
    ensures
        final(out)@ == old(out)@ + md_row(text::views(cells@)),
{
    out.push('|');
    let ghost base = out@;
    let ghost m = text::views(cells@).map_values(|c: Seq<char>| seq![' '] + c + " |"@);
    let mut i: usize = 0;
    assert(m.take(0) =~= Seq::<Seq<char>>::empty());
    assert(out@ =~= base + m.take(0).flatten());
    while i < cells.len()
        invariant
            i <= cells@.len(),
            m == text::views(cells@).map_values(|c: Seq<char>| seq![' '] + c + " |"@),
            out@ == base + m.take(i as int).flatten(),
        decreases cells@.len() - i,
    {
        let ghost before = out@;
        out.push(' ');
        text::push_chars(out, cells[i].as_slice());
        text::push_str(out, " |");
        proof {
            assert(out@ =~= before + m[i as int]);
            assert(m.take(i + 1) =~= m.take(i as int).push(m[i as int]));
            m.take(i as int).lemma_flatten_push(m[i as int]);
        }
        i = i + 1;
    }
    assert(m.take(cells@.len() as int) =~= m);
    out.push('\n');
    assert(out@ =~= old(out)@ + md_row(text::views(cells@)));
}

fn md_block_exec(b: &Block) -> (r: Vec<char>)
    ensures
        r@ == md_block(b@),
{
    let mut out: Vec<char> = Vec::new();
    match b {
        Block::Heading { level, text } => {
            let h = formatter::repeat_exec('#', *level as usize);
            text::push_chars(&mut out, h.as_slice());
            out.push(' ');
            formatter::push_string(&mut out, text);
            out.push('\n');
        },
        Block::Paragraph(t) => {
            formatter::push_string(&mut out, t);
            out.push('\n');
        },
        Block::Link(l) => {
            out.push('[');
            formatter::push_string(&mut out, &l.label);
            out.push(']');
            out.push('(');
            formatter::push_string(&mut out, &l.target);
            out.push(')');
            out.push('\n');
        },
        Block::Input(i) => {
            text::push_str(&mut out, "<!-- input:");
            formatter::input_markup_exec(&mut out, i);
            text::push_str(&mut out, " -->");
            out.push('\n');
        },
        Block::Button(bt) => {
            text::push_str(&mut out, "<!-- button:");
            formatter::button_markup_exec(&mut out, bt);
            text::push_str(&mut out, " -->");
            out.push('\n');
        },
        Block::Image(im) => {
            text::push_str(&mut out, "![");
            formatter::push_string(&mut out, &im.alt);
            out.push(']');
            out.push('(');
            formatter::push_string(&mut out, &im.source);
            out.push(')');
            out.push('\n');
        },
        Block::Quote(t) => {
            let cs = text::chars_of(t.as_str());
            let ls = text::lines_of(cs.as_slice());
            formatter::prefixed_lines_exec(&mut out, "> ", &ls);
        },
        Block::List(items) => {
            let vs = formatter::string_vecs(items);
            formatter::prefixed_lines_exec(&mut out, "- ", &vs);
        },
        Block::Rule => {
            text::push_str(&mut out, "---");
            out.push('\n');
        },
        Block::Table(t) => {
            let hs = formatter::string_vecs(&t.headers);
            md_row_exec(&mut out, &hs);
            let seps = formatter::sep_cells_exec(&t.headers);
            md_row_exec(&mut out, &seps);
            let ghost rm = t@.rows.map_values(|r: Seq<Seq<char>>| md_row(r));
            let ghost base = out@;
            let mut k: usize = 0;
            assert(rm.take(0) =~= Seq::<Seq<char>>::empty());
            assert(out@ =~= base + rm.take(0).flatten());
            while k < t.rows.len()
                invariant
                    k <= t.rows@.len(),
                    t@.rows.len() == t.rows@.len(),
                    rm == t@.rows.map_values(|r: Seq<Seq<char>>| md_row(r)),
                    out@ == base + rm.take(k as int).flatten(),
                decreases t.rows@.len() - k,
            {
                let cells = formatter::string_vecs(&t.rows[k]);
                let ghost before = out@;
                md_row_exec(&mut out, &cells);
                proof {
                    assert(t@.rows[k as int] == document::strs(t.rows@[k as int]@));
                    assert(out@ =~= before + rm[k as int]);
                    assert(rm.take(k + 1) =~= rm.take(k as int).push(rm[k as int]));
                    rm.take(k as int).lemma_flatten_push(rm[k as int]);
                }
                k = k + 1;
            }
            assert(rm.take(t.rows@.len() as int) =~= rm);
        },
        Block::Preformatted { code, language } => {
            let f = ['`', '`', '`'];
            assert(f@ == formatter::fence());
            text::push_chars(&mut out, f.as_slice());
            let l = formatter::opt_string_text(language);
            text::push_chars(&mut out, l.as_slice());
            out.push('\n');
            formatter::close_nl_exec(&mut out, code);
            text::push_chars(&mut out, f.as_slice());
            out.push('\n');
        },
        Block::Script { label, .. } => {
            match label {
                Some(l) => {
                    text::push_str(&mut out, "<!-- script:");
                    formatter::push_string(&mut out, l);
                    text::push_str(&mut out, " -->");
                    out.push('\n');
                },
                None => {
                    text::push_str(&mut out, "<!-- script -->");
                    out.push('\n');
                },
            }
        },
    }
    assert(out@ =~= md_block(b@));
    out
}

/// A parsed document as Markdown; see `md_document`.
fn render_document_as_md(doc: &Document) -> (r: String)
    ensures
        r@ == md_document(doc@),
{
    let mut out: Vec<char> = Vec::new();
    match &doc.metadata {
        Some(m) => {
            text::push_str(&mut out, "---");
            out.push('\n');
            formatter::close_nl_exec(&mut out, m);
            text::push_str(&mut out, "---");
            out.push('\n');
            out.push('\n');
        },
        None => {},
    }
    let ghost head = out@;
    let ghost m = doc@.blocks.map_values(|b: BlockV| md_block(b));
    let mut parts: Vec<Vec<char>> = Vec::new();
    let mut i: usize = 0;
    while i < doc.blocks.len()
        invariant
            i <= doc.blocks@.len(),
            doc@.blocks.len() == doc.blocks@.len(),
            m == doc@.blocks.map_values(|b: BlockV| md_block(b)),
            text::views(parts@) == m.take(i as int),
        decreases doc.blocks@.len() - i,
    {
        let x = md_block_exec(&doc.blocks[i]);
        let ghost before = parts@;
        parts.push(x);
        assert(text::views(parts@) =~= text::views(before).push(x@));
        assert(m.take(i + 1) =~= m.take(i as int).push(m[i as int]));
        i = i + 1;
    }
    assert(m.take(doc.blocks@.len() as int) =~= m);
    let nlc = ['\n'];
    assert(nlc@ == nl());
    let body = text::join_vecs(parts.as_slice(), nlc.as_slice());
    text::push_chars(&mut out, body.as_slice());
    assert(out@ =~= md_document(doc@));
    text::string_from(out.as_slice())
}

/// Converts Jaringan markup to Markdown; see `jrg_md_text`.
pub fn jrg_to_md(input: &str) -> (r: Result<String, String>)
    ensures
        match jrg_md_text(input@) {
            Ok(t) => r matches Ok(s) && s@ == t,
            Err(e) => r matches Err(m) && m@ == e,
        },
{
    if input.unicode_len() == 0 {
        return Ok(String::new());
    }
    match crate::parser::parse_document(input) {
        Ok(doc) => Ok(render_document_as_md(&doc)),
        Err(e) => {
            let mut v = text::chars_of("parse error: ");
            let m = e.message();
            formatter::push_string(&mut v, &m);
            Err(text::string_from(v.as_slice()))
        },
    }
}

} // verus!
