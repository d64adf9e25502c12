//! Lint rules for Jaringan sources: trailing whitespace, long lines, more
//! than one top-level heading, links that could use the short form, empty
//! paragraphs, and a missing final line feed.

use vstd::prelude::*;
use vstd::string::StrSliceExecFns;
use crate::text;
use crate::utf8;
use crate::document::{self, Block, BlockV, Document, DocumentV};
use crate::formatter::JrgFormatter;

verus! {

broadcast use vstd::string::group_string_axioms;

#[derive(Debug, Clone, Copy, PartialEq, Eq)]
pub enum LintLevel {
    Error,
    Warning,
    Info,
}

impl LintLevel {
    pub open spec fn name(self) -> Seq<char> {
        match self {
            LintLevel::Error => "error"@,
            LintLevel::Warning => "warning"@,
            LintLevel::Info => "info"@,
        }
    }

    /// The level as it is printed: `error`, `warning` or `info`.
    pub fn as_str(self) -> (r: &'static str)
        ensures
            r@ == self.name(),
    {
        match self {
            LintLevel::Error => "error",
            LintLevel::Warning => "warning",
            LintLevel::Info => "info",
        }
    }
}

/// One finding: its level, the rule's name, a message and a 1-based line.
#[derive(Debug, Clone)]
pub struct LintIssue {
    pub level: LintLevel,
    pub rule: String,
    pub message: String,
    pub line: usize,
}

pub ghost struct LintIssueV {
    pub level: LintLevel,
    pub rule: Seq<char>,
    pub message: Seq<char>,
    pub line: nat,
}

impl View for LintIssue {
    type V = LintIssueV;

    open spec fn view(&self) -> LintIssueV {
        LintIssueV {
            level: self.level,
            rule: self.rule@,
            message: self.message@,
            line: self.line as nat,
        }
    }
}

pub open spec fn issues_view(v: Seq<LintIssue>) -> Seq<LintIssueV> {
    v.map_values(|i: LintIssue| i@)
}

pub open spec fn issue(level: LintLevel, rule: Seq<char>, message: Seq<char>, line: nat) -> LintIssueV {
    LintIssueV { level, rule, message, line }
}

/// A line that ends in whitespace.
pub open spec fn has_trailing_ws(l: Seq<char>) -> bool {
    text::trim_end(l).len() < l.len()
}

/// Rule `no-trailing-spaces`, over the lines `ls` (numbered from 1).
pub open spec fn trailing_issues(ls: Seq<Seq<char>>) -> Seq<LintIssueV>
    decreases ls.len(),
{
    if ls.len() == 0 {
        Seq::empty()
    } else {
        let p = trailing_issues(ls.drop_last());
        if has_trailing_ws(ls.last()) {
            p.push(
                issue(
                    LintLevel::Warning,
                    "no-trailing-spaces"@,
                    "trailing whitespace detected"@,
                    ls.len(),
                ),
            )
        } else {
            p
        }
    }
}

pub open spec fn at_least_one(n: nat) -> nat {
    if n == 0 {
        1
    } else {
        n
    }
}

/// How many source lines a block is taken to occupy.
pub open spec fn block_lines(b: BlockV) -> nat {
    match b {
        BlockV::Paragraph(t) => at_least_one(text::lines(t).len()),
        BlockV::Quote(t) => at_least_one(text::lines(t).len()),
        BlockV::List(items) => at_least_one(items.len()),
        BlockV::Table(t) => 2 + t.rows.len(),
        BlockV::Preformatted { code, .. } => 2 + text::lines(code).len(),
        _ => 1,
    }
}

/// For each source line in turn, whether it is taken to belong to a
/// preformatted block (blocks laid end to end, `block_lines` each).
pub open spec fn line_kinds(bs: Seq<BlockV>) -> Seq<bool> {
    bs.map_values(|b: BlockV| block_kind_lines(b)).flatten()
}

/// The lines of one block: all preformatted or none.
pub open spec fn block_kind_lines(b: BlockV) -> Seq<bool> {
    Seq::new(block_lines(b), |k: int| b is Preformatted)
}

pub open spec fn long_message(len: nat, max: nat) -> Seq<char> {
    "line too long ("@ + text::decimal(len) + " > "@ + text::decimal(max) + " characters)"@
}

/// Rule `max-line-length` over the lines `ls` (lines taken to be
/// preformatted are skipped; lengths are in bytes).
pub open spec fn long_issues(ls: Seq<Seq<char>>, kinds: Seq<bool>, max: nat) -> Seq<LintIssueV>
    decreases ls.len(),
{
    if ls.len() == 0 {
        Seq::empty()
    } else {
        let p = long_issues(ls.drop_last(), kinds, max);
        let i = ls.len() - 1;
        if i < kinds.len() && kinds[i] {
            p
        } else if utf8::str_len(ls.last()) > max {
            p.push(
                issue(
                    LintLevel::Warning,
                    "max-line-length"@,
                    long_message(utf8::str_len(ls.last()), max),
                    ls.len(),
                ),
            )
        } else {
            p
        }
    }
}

pub open spec fn h1_count(bs: Seq<BlockV>) -> nat
    decreases bs.len(),
{
    if bs.len() == 0 {
        0
    } else {
        h1_count(bs.drop_last()) + if bs.last() matches BlockV::Heading { level, .. } && level == 1 {
            1nat
        } else {
            0nat
        }
    }
}

/// Rule `h1-max`.
pub open spec fn h1_issues(bs: Seq<BlockV>) -> Seq<LintIssueV> {
    if h1_count(bs) > 1 {
        seq![
            issue(
                LintLevel::Warning,
                "h1-max"@,
                "document has "@ + text::decimal(h1_count(bs)) + " H1 headings, expected at most 1"@,
                1,
            ),
        ]
    } else {
        Seq::empty()
    }
}

pub open spec fn starts_with(s: Seq<char>, p: Seq<char>) -> bool {
    p.is_prefix_of(s)
}

/// A trimmed line that starts a new block when counting blocks in a source.
pub open spec fn opens_block(t: Seq<char>) -> bool {
    ||| starts_with(t, seq!['#'])
    ||| starts_with(t, seq!['=', '>'])
    ||| starts_with(t, seq!['?'])
    ||| starts_with(t, seq!['!'])
    ||| starts_with(t, seq!['@'])
    ||| starts_with(t, seq!['>'])
    ||| starts_with(t, seq!['|'])
    ||| starts_with(t, seq!['-'])
    ||| starts_with(t, seq!['*'])
    ||| t == seq!['-', '-', '-']
    ||| t == seq!['*', '*', '*']
    ||| t == seq!['_', '_', '_']
}

/// The estimate of the line where block `idx` starts, scanning from line
/// `k` (numbered `line`) with `count` blocks seen and `in_pre` telling
/// whether a fence is open. Blank lines outside fences count as block
/// boundaries, and so do lines that open a block; 1 if the scan ends.
pub open spec fn line_of_block_from(
    ls: Seq<Seq<char>>,
    k: int,
    idx: nat,
    line: nat,
    count: nat,
    in_pre: bool,
) -> nat
    decreases ls.len() - k,
{
    if k < 0 || k >= ls.len() {
        1
    } else {
        let t = text::trim(ls[k]);
        let pre = if starts_with(t, seq!['`', '`', '`']) {
            !in_pre
        } else {
            in_pre
        };
        if t.len() == 0 && !pre {
            line_of_block_from(ls, k + 1, idx, line + 1, count + 1, pre)
        } else if count == idx {
            line
        } else if !pre && opens_block(t) {
            line_of_block_from(ls, k + 1, idx, line + 1, count + 1, pre)
        } else {
            line_of_block_from(ls, k + 1, idx, line + 1, count, pre)
        }
    }
}

/// The estimated source line of block `idx`.
pub open spec fn line_of_block(source: Seq<char>, idx: nat) -> nat {
    line_of_block_from(text::lines(source), 0, idx, 1, 0, false)
}

pub open spec fn label_message(label: Seq<char>, target: Seq<char>) -> Seq<char> {
    "link label '"@ + label + "' matches target '"@ + target + "', could use short form"@
}

/// Rules `link-label-matches-target` and `empty-paragraph` for block `i`.
pub open spec fn block_issue(source: Seq<char>, b: BlockV, i: nat, link_rule: bool) -> Seq<LintIssueV> {
    if link_rule {
        match b {
            BlockV::Link(l) => if l.label == l.target {
                seq![
                    issue(
                        LintLevel::Info,
                        "link-label-matches-target"@,
                        label_message(l.label, l.target),
                        line_of_block(source, i),
                    ),
                ]
            } else {
                Seq::empty()
            },
            _ => Seq::empty(),
        }
    } else {
        match b {
            BlockV::Paragraph(t) => if text::trim(t).len() == 0 {
                seq![
                    issue(
                        LintLevel::Warning,
                        "empty-paragraph"@,
                        "empty or whitespace-only paragraph block"@,
                        line_of_block(source, i),
                    ),
                ]
            } else {
                Seq::empty()
            },
            _ => Seq::empty(),
        }
    }
}

pub open spec fn block_issues(source: Seq<char>, bs: Seq<BlockV>, link_rule: bool) -> Seq<LintIssueV>
    decreases bs.len(),
{
    if bs.len() == 0 {
        Seq::empty()
    } else {
        block_issues(source, bs.drop_last(), link_rule) + block_issue(
            source,
            bs.last(),
            (bs.len() - 1) as nat,
            link_rule,
        )
    }
}

/// Rule `trailing-newline`.
pub open spec fn newline_issues(trailing_newline: bool, source: Seq<char>) -> Seq<LintIssueV> {
    if trailing_newline && !(source.len() > 0 && source.last() == '\n') {
        seq![
            issue(
                LintLevel::Info,
                "trailing-newline"@,
                "file does not end with a newline"@,
                text::lines(source).len(),
            ),
        ]
    } else {
        Seq::empty()
    }
}

/// Every finding for `source` and its document, rule by rule in this order.
pub open spec fn lint(
    max_line_width: nat,
    trailing_newline: bool,
    d: DocumentV,
    source: Seq<char>,
) -> Seq<LintIssueV> {
    let ls = text::lines(source);
    trailing_issues(ls) + long_issues(ls, line_kinds(d.blocks), max_line_width) + h1_issues(d.blocks)
        + block_issues(source, d.blocks, true) + block_issues(source, d.blocks, false)
        + newline_issues(trailing_newline, source)
}

fn push_issue(out: &mut Vec<LintIssue>, level: LintLevel, rule: &str, message: Vec<char>, line: usize)
    ensures
        issues_view(final(out)@) == issues_view(old(out)@).push(
            issue(level, rule@, message@, line as nat),
        ),
{
    let x = LintIssue {
        level,
        rule: String::from_str(rule),
        message: text::string_from(message.as_slice()),
        line,
    };
    let ghost before = out@;
    out.push(x);
    assert(issues_view(out@) =~= issues_view(before).push(x@));
}

fn trailing_exec(out: &mut Vec<LintIssue>, ls: &Vec<Vec<char>>)
    requires
        ls@.len() < usize::MAX,
    ensures
        issues_view(final(out)@) == issues_view(old(out)@) + trailing_issues(text::views(ls@)),
{
    let ghost all = text::views(ls@);
    let mut i: usize = 0;
    assert(all.take(0) =~= Seq::<Seq<char>>::empty());
    assert(issues_view(out@) =~= issues_view(old(out)@) + trailing_issues(all.take(0)));
    while i < ls.len()
        invariant
            i <= ls@.len(),
            ls@.len() < usize::MAX,
            all == text::views(ls@),
            issues_view(out@) == issues_view(old(out)@) + trailing_issues(all.take(i as int)),
        decreases ls@.len() - i,
    {
        assert(all.take(i + 1).drop_last() =~= all.take(i as int));
        assert(all.take(i + 1).last() == ls@[i as int]@);
        let t = text::trimmed_end(ls[i].as_slice());
        if t.len() < ls[i].len() {
            push_issue(out, LintLevel::Warning, "no-trailing-spaces", text::chars_of("trailing whitespace detected"), i + 1);
        }
        i = i + 1;
    }
    assert(all.take(ls@.len() as int) =~= all);
}

fn block_lines_capped(b: &Block, n: usize) -> (r: usize)
    requires
        n + 3 <= usize::MAX,
    ensures
        r == if block_lines(b@) < n {
            block_lines(b@)
        } else {
            n as nat
        },
{
    let c: usize = match b {
        Block::Paragraph(t) => {
            let cs = text::chars_of(t.as_str());
            let k = text::lines_of(cs.as_slice()).len();
            if k == 0 {
                1
            } else {
                k
            }
        },
        Block::Quote(t) => {
            let cs = text::chars_of(t.as_str());
            let k = text::lines_of(cs.as_slice()).len();
            if k == 0 {
                1
            } else {
                k
            }
        },
        Block::List(items) => {
            if items.len() == 0 {
                1
            } else {
                items.len()
            }
        },
        Block::Table(t) => {
            if t.rows.len() > n {
                n
            } else {
                2 + t.rows.len()
            }
        },
        Block::Preformatted { code, .. } => {
            let cs = text::chars_of(code.as_str());
            let k = text::lines_of(cs.as_slice()).len();
            if k > n {
                n
            } else {
                2 + k
            }
        },
        _ => 1,
    };
    if c < n {
        c
    } else {
        n
    }
}

fn kinds_exec(bs: &Vec<Block>, n: usize) -> (r: Vec<bool>)
    requires
        n + 3 <= usize::MAX,
    ensures
        r@.len() == if line_kinds(document::blocks_view(bs@)).len() < n {
            line_kinds(document::blocks_view(bs@)).len()
        } else {
            n as nat
        },
        r@ == line_kinds(document::blocks_view(bs@)).take(r@.len() as int),
{
    let ghost bv = document::blocks_view(bs@);
    let ghost m = bv.map_values(|b: BlockV| block_kind_lines(b));
    let mut kinds: Vec<bool> = Vec::new();
    let mut j: usize = 0;
    assert(m.take(0) =~= Seq::<Seq<bool>>::empty());
    while j < bs.len()
        invariant
            j <= bs@.len(),
            n + 3 <= usize::MAX,
            bv == document::blocks_view(bs@),
            m == bv.map_values(|b: BlockV| block_kind_lines(b)),
            kinds@.len() == if m.take(j as int).flatten().len() < n {
                m.take(j as int).flatten().len()
            } else {
                n as nat
            },
            kinds@ == m.take(j as int).flatten().take(kinds@.len() as int),
        decreases bs@.len() - j,
    {
        let ghost lj = m.take(j as int).flatten();
        let ghost blk = m[j as int];
        proof {
            assert(m.take(j + 1) =~= m.take(j as int).push(blk));
            m.take(j as int).lemma_flatten_push(blk);
            assert(bv[j as int] == bs@[j as int]@);
        }
        let c = block_lines_capped(&bs[j], n);
        let is_pre = match &bs[j] {
            Block::Preformatted { .. } => true,
            _ => false,
        };
        assert(blk.len() == block_lines(bv[j as int]));
        let mut k: usize = 0;
        let ghost k0 = kinds@;
        while k < c && kinds.len() < n
            invariant
                k <= c,
                kinds@.len() == k0.len() + k,
                k0 == lj.take(k0.len() as int),
                kinds@ == k0 + blk.take(k as int),
                c <= blk.len(),
                c == blk.len() || c == n,
                k0.len() >= n ==> k == 0,
                kinds@.len() <= n || k == 0,
                forall|q: int| 0 <= q < blk.len() ==> blk[q] == is_pre,
            decreases c - k,
        {
            kinds.push(is_pre);
            k = k + 1;
            assert(kinds@ =~= k0 + blk.take(k as int));
        }
        proof {
            let lj1 = lj + blk;
            assert(m.take(j + 1).flatten() == lj1);
            if k0.len() < lj.len() {
                assert(k0.len() == n);
                assert(kinds@ == k0);
            } else {
                assert(k0.len() == lj.len());
                assert(k0 =~= lj);
            }
            assert(kinds@ =~= lj1.take(kinds@.len() as int));
        }
        j = j + 1;
    }
    assert(m.take(bs@.len() as int) =~= m);
    kinds
}

fn long_exec(
    out: &mut Vec<LintIssue>,
    source: &str,
    rs: &Vec<(usize, usize)>,
    kinds: &Vec<bool>,
    max: usize,
    Ghost(all_kinds): Ghost<Seq<bool>>,
)
    requires
        text::ranges_of(source@, rs@, text::lines(source@)),
        rs@.len() < usize::MAX,
        kinds@.len() == if all_kinds.len() < rs@.len() {
            all_kinds.len()
        } else {
            rs@.len() as nat
        },
        kinds@ == all_kinds.take(kinds@.len() as int),
    ensures
        issues_view(final(out)@) == issues_view(old(out)@) + long_issues(
            text::lines(source@),
            all_kinds,
            max as nat,
        ),
{
    let ghost all = text::lines(source@);
    let mut i: usize = 0;
    assert(all.take(0) =~= Seq::<Seq<char>>::empty());
    assert(issues_view(out@) =~= issues_view(old(out)@) + long_issues(all.take(0), all_kinds, max as nat));
    while i < rs.len()
        invariant
            i <= rs@.len(),
            rs@.len() < usize::MAX,
            all == text::lines(source@),
            text::ranges_of(source@, rs@, all),
            kinds@.len() == if all_kinds.len() < rs@.len() {
                all_kinds.len()
            } else {
                rs@.len() as nat
            },
            kinds@ == all_kinds.take(kinds@.len() as int),
            issues_view(out@) == issues_view(old(out)@) + long_issues(all.take(i as int), all_kinds, max as nat),
        decreases rs@.len() - i,
    {
        let ghost pre = all.take(i + 1);
        assert(pre.drop_last() =~= all.take(i as int));
        let (a, b) = rs[i];
        assert(rs@[i as int].0 <= rs@[i as int].1 <= source@.len());
        let piece = source.substring_char(a, b);
        assert(piece@ == all[i as int]);
        let skip = i < kinds.len() && kinds[i];
        assert(skip == (i < all_kinds.len() && all_kinds[i as int]));
        if !skip {
            let len = piece.len();
            if len > max {
                let mut msg = text::chars_of("line too long (");
                text::push_decimal(&mut msg, len);
                text::push_str(&mut msg, " > ");
                text::push_decimal(&mut msg, max);
                text::push_str(&mut msg, " characters)");
                push_issue(out, LintLevel::Warning, "max-line-length", msg, i + 1);
            }
        }
        i = i + 1;
    }
    assert(all.take(rs@.len() as int) =~= all);
}

fn h1_count_exec(bs: &Vec<Block>) -> (r: usize)
    ensures
        r == h1_count(document::blocks_view(bs@)),
{
    let ghost bv = document::blocks_view(bs@);
    let mut n: usize = 0;
    let mut i: usize = 0;
    assert(bv.take(0) =~= Seq::<BlockV>::empty());
    while i < bs.len()
        invariant
            i <= bs@.len(),
            bv == document::blocks_view(bs@),
            n == h1_count(bv.take(i as int)),
            n <= i,
        decreases bs@.len() - i,
    {
        assert(bv.take(i + 1).drop_last() =~= bv.take(i as int));
        assert(bv.take(i + 1).last() == bs@[i as int]@);
        match &bs[i] {
            Block::Heading { level, .. } => {
                if *level == 1 {
                    n = n + 1;
                }
            },
            _ => {},
        }
        i = i + 1;
    }
    assert(bv.take(bs@.len() as int) =~= bv);
    n
}

proof fn lemma_prefix1(t: Seq<char>, c: char)
    ensures
        seq![c].is_prefix_of(t) <==> (t.len() > 0 && t[0] == c),
{
    if t.len() > 0 {
        assert(t.subrange(0, 1) =~= seq![t[0]]);
        if t[0] != c {
            assert(t.subrange(0, 1)[0] != seq![c][0]);
        }
    }
}

proof fn lemma_prefix2(t: Seq<char>, c: char, d: char)
    ensures
        seq![c, d].is_prefix_of(t) <==> (t.len() > 1 && t[0] == c && t[1] == d),
{
    if t.len() > 1 {
        assert(t.subrange(0, 2) =~= seq![t[0], t[1]]);
        if t[0] != c {
            assert(t.subrange(0, 2)[0] != seq![c, d][0]);
        }
        if t[1] != d {
            assert(t.subrange(0, 2)[1] != seq![c, d][1]);
        }
    }
}

fn opens_block_exec(t: &[char]) -> (r: bool)
    ensures
        r == opens_block(t@),
{
    proof {
        lemma_prefix1(t@, '#');
        lemma_prefix1(t@, '?');
        lemma_prefix1(t@, '!');
        lemma_prefix1(t@, '@');
        lemma_prefix1(t@, '>');
        lemma_prefix1(t@, '|');
        lemma_prefix1(t@, '-');
        lemma_prefix1(t@, '*');
        lemma_prefix2(t@, '=', '>');
    }
    let n = t.len();
    if n > 0 && (t[0] == '#' || t[0] == '?' || t[0] == '!' || t[0] == '@' || t[0] == '>' || t[0]
        == '|' || t[0] == '-' || t[0] == '*') {
        return true;
    }
    if n > 1 && t[0] == '=' && t[1] == '>' {
        return true;
    }
    if n == 3 {
        assert(t@ =~= seq![t@[0], t@[1], t@[2]]);
        let (a, b, c) = (t[0], t[1], t[2]);
        return (a == '-' && b == '-' && c == '-') || (a == '*' && b == '*' && c == '*') || (a == '_'
            && b == '_' && c == '_');
    }
    false
}

fn line_of_block_exec(ls: &Vec<Vec<char>>, idx: usize) -> (r: usize)
    requires
        ls@.len() + 2 <= usize::MAX,
    ensures
        r == line_of_block_from(text::views(ls@), 0, idx as nat, 1, 0, false),
{
    let ghost all = text::views(ls@);
    let mut k: usize = 0;
    let mut line: usize = 1;
    let mut count: usize = 0;
    let mut in_pre = false;
    let f = ['`', '`', '`'];
    while k < ls.len()
        invariant
            k <= ls@.len(),
            ls@.len() + 2 <= usize::MAX,
            all == text::views(ls@),
            f@ == seq!['`', '`', '`'],
            line == k + 1,
            count <= k,
            line_of_block_from(all, 0, idx as nat, 1, 0, false) == line_of_block_from(
                all,
                k as int,
                idx as nat,
                line as nat,
                count as nat,
                in_pre,
            ),
        decreases ls@.len() - k,
    {
        let t = text::trimmed(ls[k].as_slice());
        assert(all[k as int] == ls@[k as int]@);
        if text::starts_with(t.as_slice(), f.as_slice()) {
            in_pre = !in_pre;
        }
        if t.len() == 0 && !in_pre {
            count = count + 1;
            line = line + 1;
        } else if count == idx {
            return line;
        } else if !in_pre && opens_block_exec(t.as_slice()) {
            count = count + 1;
            line = line + 1;
        } else {
            line = line + 1;
        }
        k = k + 1;
    }
    1
}

fn block_issues_exec(
    out: &mut Vec<LintIssue>,
    source: &str,
    ls: &Vec<Vec<char>>,
    bs: &Vec<Block>,
    link_rule: bool,
)
    requires
        text::views(ls@) == text::lines(source@),
        ls@.len() + 2 <= usize::MAX,
    ensures
        issues_view(final(out)@) == issues_view(old(out)@) + block_issues(
            source@,
            document::blocks_view(bs@),
            link_rule,
        ),
{
    let ghost bv = document::blocks_view(bs@);
    let mut i: usize = 0;
    assert(bv.take(0) =~= Seq::<BlockV>::empty());
    assert(issues_view(out@) =~= issues_view(old(out)@) + block_issues(source@, bv.take(0), link_rule));
    while i < bs.len()
        invariant
            i <= bs@.len(),
            bv == document::blocks_view(bs@),
            text::views(ls@) == text::lines(source@),
            ls@.len() + 2 <= usize::MAX,
            issues_view(out@) == issues_view(old(out)@) + block_issues(source@, bv.take(i as int), link_rule),
        decreases bs@.len() - i,
    {
        assert(bv.take(i + 1).drop_last() =~= bv.take(i as int));
        assert(bv.take(i + 1).last() == bs@[i as int]@);
        let ghost before = issues_view(out@);
        match &bs[i] {
            Block::Link(l) => {
                if link_rule && text::chars_eq(text::chars_of(l.label.as_str()).as_slice(), text::chars_of(l.target.as_str()).as_slice()) {
                    let line = line_of_block_exec(ls, i);
                    let mut msg = text::chars_of("link label '");
                    text::push_str(&mut msg, l.label.as_str());
                    text::push_str(&mut msg, "' matches target '");
                    text::push_str(&mut msg, l.target.as_str());
                    text::push_str(&mut msg, "', could use short form");
                    push_issue(out, LintLevel::Info, "link-label-matches-target", msg, line);
                }
            },
            Block::Paragraph(t) => {
                if !link_rule {
                    let tt = text::trimmed(text::chars_of(t.as_str()).as_slice());
                    if tt.len() == 0 {
                        let line = line_of_block_exec(ls, i);
                        push_issue(
                            out,
                            LintLevel::Warning,
                            "empty-paragraph",
                            text::chars_of("empty or whitespace-only paragraph block"),
                            line,
                        );
                    }
                }
            },
            _ => {},
        }
        assert(issues_view(out@) =~= before + block_issue(source@, bv[i as int], i as nat, link_rule));
        i = i + 1;
    }
    assert(bv.take(bs@.len() as int) =~= bv);
}

impl JrgFormatter {
    /// The lint findings for `source` and the document parsed from it; see
    /// `lint` for the rules and their order.
    pub fn lint_document(&self, doc: &Document, source: &str) -> (r: Vec<LintIssue>)
        requires
            source@.len() + 4 <= usize::MAX,
        ensures
            issues_view(r@) == lint(
                self.spec_options().max_line_width as nat,
                self.spec_options().trailing_newline,
                doc@,
                source@,
            ),
    {
        let cs = text::chars_of(source);
        let rs = text::line_ranges(cs.as_slice());
        let ls = text::lines_of(cs.as_slice());
        proof {
            text::lemma_lines_len(source@);
        }
        let mut out: Vec<LintIssue> = Vec::new();
        trailing_exec(&mut out, &ls);
        let ghost a = issues_view(out@);
        let kinds = kinds_exec(&doc.blocks, rs.len());
        let opts = self.options_ref();
        long_exec(&mut out, source, &rs, &kinds, opts.max_line_width, Ghost(line_kinds(doc@.blocks)));
        let h = h1_count_exec(&doc.blocks);
        if h > 1 {
            let mut msg = text::chars_of("document has ");
            text::push_decimal(&mut msg, h);
            text::push_str(&mut msg, " H1 headings, expected at most 1");
            push_issue(&mut out, LintLevel::Warning, "h1-max", msg, 1);
        }
        block_issues_exec(&mut out, source, &ls, &doc.blocks, true);
        block_issues_exec(&mut out, source, &ls, &doc.blocks, false);
        if opts.trailing_newline && !(cs.len() > 0 && cs[cs.len() - 1] == '\n') {
            push_issue(
                &mut out,
                LintLevel::Info,
                "trailing-newline",
                text::chars_of("file does not end with a newline"),
                ls.len(),
            );
        }
        assert(issues_view(out@) =~= lint(
            opts.max_line_width as nat,
            opts.trailing_newline,
            doc@,
            source@,
        ));
        out
    }
}

} // verus!
