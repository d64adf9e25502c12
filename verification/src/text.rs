//! Character-level text model shared by every module: whitespace, trimming,
//! line splitting and the conversions between `String` and `Vec<char>`.

use vstd::prelude::*;

verus! {

broadcast use vstd::string::group_string_axioms;

/// Unicode `White_Space`, as `char::is_whitespace` defines it.
pub open spec fn is_ws(c: char) -> bool {
    ||| ('\t' <= c && c <= '\r')
    ||| c == ' '
    ||| c == '\u{85}'
    ||| c == '\u{a0}'
    ||| c == '\u{1680}'
    ||| ('\u{2000}' <= c && c <= '\u{200a}')
    ||| c == '\u{2028}'
    ||| c == '\u{2029}'
    ||| c == '\u{202f}'
    ||| c == '\u{205f}'
    ||| c == '\u{3000}'
}

pub fn char_is_ws(c: char) -> (r: bool)
    ensures
        r == is_ws(c),
{
    ('\t' <= c && c <= '\r') || c == ' ' || c == '\u{85}' || c == '\u{a0}' || c == '\u{1680}'
        || ('\u{2000}' <= c && c <= '\u{200a}') || c == '\u{2028}' || c == '\u{2029}'
        || c == '\u{202f}' || c == '\u{205f}' || c == '\u{3000}'
}

/// The characters of a string slice, in order.
pub fn chars_of(s: &str) -> (v: Vec<char>)
    ensures
        v@ == s@,
{
    let mut v: Vec<char> = Vec::new();
    for c in it: s.chars()
        invariant
            it.seq() == s@,
            v@ == s@.take(it.index() as int),
    {
        assert(s@.take(it.index() + 1) == s@.take(it.index() as int).push(c));
        v.push(c);
    }
    assert(s@.take(s@.len() as int) == s@);
    v
}


/// The characters of `v` as a `String`.
#[verifier::external_body]
pub fn string_from(v: &[char]) -> (s: String)
    ensures
        s@ == v@,
{
    v.iter().collect()
}

/// Appends the characters of a string slice.
pub fn push_str(out: &mut Vec<char>, s: &str)
    ensures
        final(out)@ == old(out)@ + s@,
{
    let mut cs = chars_of(s);
    out.append(&mut cs);
}

/// Appends a run of characters.
pub fn push_chars(out: &mut Vec<char>, s: &[char])
    ensures
        final(out)@ == old(out)@ + s@,
{
    let mut i: usize = 0;
    while i < s.len()
        invariant
            i <= s@.len(),
            out@ == old(out)@ + s@.take(i as int),
        decreases s@.len() - i,
    {
        assert(s@.take(i + 1) == s@.take(i as int).push(s@[i as int]));
        out.push(s[i]);
        i = i + 1;
    }
    assert(s@.take(s@.len() as int) == s@);
}

/// The characters `s[lo..hi]` as a new vector.
pub fn slice_of(s: &[char], lo: usize, hi: usize) -> (v: Vec<char>)
    requires
        lo <= hi <= s@.len(),
    ensures
        v@ == s@.subrange(lo as int, hi as int),
{
    let mut v: Vec<char> = Vec::new();
    let mut i = lo;
    while i < hi
        invariant
            lo <= i <= hi <= s@.len(),
            v@ == s@.subrange(lo as int, i as int),
        decreases hi - i,
    {
        assert(s@.subrange(lo as int, i + 1) == s@.subrange(lo as int, i as int).push(s@[i as int]));
        v.push(s[i]);
        i = i + 1;
    }
    v
}

/// A copy of a character vector.
pub fn copy_chars(s: &[char]) -> (v: Vec<char>)
    ensures
        v@ == s@,
{
    let v = slice_of(s, 0, s.len());
    assert(s@.subrange(0, s@.len() as int) == s@);
    v
}

/// `s` without its leading whitespace.
pub open spec fn trim_start(s: Seq<char>) -> Seq<char>
    decreases s.len(),
{
    if s.len() > 0 && is_ws(s[0]) {
        trim_start(s.drop_first())
    } else {
        s
    }
}

/// `s` without its trailing whitespace.
pub open spec fn trim_end(s: Seq<char>) -> Seq<char>
    decreases s.len(),
{
    if s.len() > 0 && is_ws(s.last()) {
        trim_end(s.drop_last())
    } else {
        s
    }
}

/// `s` without leading and trailing whitespace, as `str::trim` gives it.
pub open spec fn trim(s: Seq<char>) -> Seq<char> {
    trim_end(trim_start(s))
}

/// The first index at or after `lo` whose character is not whitespace, or `s.len()`.
pub open spec fn skip_ws_from(s: Seq<char>, lo: int) -> int
    decreases s.len() - lo,
{
    if lo < s.len() && is_ws(s[lo]) {
        skip_ws_from(s, lo + 1)
    } else {
        lo
    }
}

pub proof fn lemma_trim_start_skip(s: Seq<char>, lo: int)
    requires
        0 <= lo <= s.len(),
    ensures
        lo <= skip_ws_from(s, lo) <= s.len(),
        trim_start(s.skip(lo)) == s.skip(skip_ws_from(s, lo)),
    decreases s.len() - lo,
{
    if lo < s.len() && is_ws(s[lo]) {
        assert(s.skip(lo).drop_first() == s.skip(lo + 1));
        lemma_trim_start_skip(s, lo + 1);
    }
}

/// The index just past the last non-whitespace character before `hi`, no lower than `lo`.
pub open spec fn back_ws_to(s: Seq<char>, lo: int, hi: int) -> int
    decreases hi - lo,
{
    if lo < hi && is_ws(s[hi - 1]) {
        back_ws_to(s, lo, hi - 1)
    } else {
        hi
    }
}

pub proof fn lemma_trim_end_back(s: Seq<char>, lo: int, hi: int)
    requires
        0 <= lo <= hi <= s.len(),
    ensures
        lo <= back_ws_to(s, lo, hi) <= hi,
        trim_end(s.subrange(lo, hi)) == s.subrange(lo, back_ws_to(s, lo, hi)),
    decreases hi - lo,
{
    if lo < hi && is_ws(s[hi - 1]) {
        assert(s.subrange(lo, hi).drop_last() == s.subrange(lo, hi - 1));
        lemma_trim_end_back(s, lo, hi - 1);
    }
}

/// The bounds of `trim(s)` inside `s`.
pub fn trim_bounds(s: &[char]) -> (r: (usize, usize))
    ensures
        r.0 <= r.1 <= s@.len(),
        s@.subrange(r.0 as int, r.1 as int) == trim(s@),
{
    let mut lo: usize = 0;
    while lo < s.len() && char_is_ws(s[lo])
        invariant
            lo <= s@.len(),
            skip_ws_from(s@, lo as int) == skip_ws_from(s@, 0),
        decreases s@.len() - lo,
    {
        lo = lo + 1;
    }
    let mut hi: usize = s.len();
    while hi > lo && char_is_ws(s[hi - 1])
        invariant
            lo <= hi <= s@.len(),
            back_ws_to(s@, lo as int, hi as int) == back_ws_to(s@, lo as int, s@.len() as int),
        decreases hi,
    {
        hi = hi - 1;
    }
    proof {
        lemma_trim_start_skip(s@, 0);
        assert(s@.skip(0) == s@);
        lemma_trim_end_back(s@, lo as int, s@.len() as int);
        assert(s@.skip(lo as int) == s@.subrange(lo as int, s@.len() as int));
    }
    (lo, hi)
}

/// `trim(s)` as a new vector.
pub fn trimmed(s: &[char]) -> (v: Vec<char>)
    ensures
        v@ == trim(s@),
{
    let (lo, hi) = trim_bounds(s);
    slice_of(s, lo, hi)
}

/// `trim_end(s)` as a new vector.
pub fn trimmed_end(s: &[char]) -> (v: Vec<char>)
    ensures
        v@ == trim_end(s@),
{
    let mut hi: usize = s.len();
    while hi > 0 && char_is_ws(s[hi - 1])
        invariant
            hi <= s@.len(),
            back_ws_to(s@, 0, hi as int) == back_ws_to(s@, 0, s@.len() as int),
        decreases hi,
    {
        hi = hi - 1;
    }
    proof {
        lemma_trim_end_back(s@, 0, s@.len() as int);
        assert(s@.subrange(0, s@.len() as int) == s@);
    }
    slice_of(s, 0, hi)
}


/// The views of a sequence of character vectors.
pub open spec fn views(v: Seq<Vec<char>>) -> Seq<Seq<char>> {
    v.map_values(|l: Vec<char>| l@)
}

/// `s` cut at every `'\n'`; always at least one piece.
pub open spec fn split_nl(s: Seq<char>) -> Seq<Seq<char>>
    decreases s.len(),
{
    if s.len() == 0 {
        seq![Seq::<char>::empty()]
    } else {
        let r = split_nl(s.drop_last());
        if s.last() == '\n' {
            r.push(Seq::<char>::empty())
        } else {
            r.update(r.len() - 1, r.last().push(s.last()))
        }
    }
}

pub proof fn lemma_split_nl_len(s: Seq<char>)
    ensures
        split_nl(s).len() >= 1,
    decreases s.len(),
{
    if s.len() > 0 {
        lemma_split_nl_len(s.drop_last());
    }
}

pub proof fn lemma_split_nl_upper(s: Seq<char>)
    ensures
        split_nl(s).len() <= s.len() + 1,
    decreases s.len(),
{
    if s.len() > 0 {
        lemma_split_nl_upper(s.drop_last());
        lemma_split_nl_len(s.drop_last());
    }
}

/// A line without the carriage return that came before its line feed.
pub open spec fn strip_cr(l: Seq<char>) -> Seq<char> {
    if l.len() > 0 && l.last() == '\r' {
        l.drop_last()
    } else {
        l
    }
}

pub open spec fn strip_crs(ls: Seq<Seq<char>>) -> Seq<Seq<char>> {
    ls.map_values(|l: Seq<char>| strip_cr(l))
}

/// The lines of `s`, as `str::lines` yields them: split at `\n` or `\r\n`,
/// with no empty line after a final line ending.
pub open spec fn lines(s: Seq<char>) -> Seq<Seq<char>> {
    if s.len() == 0 {
        seq![]
    } else if s.last() == '\n' {
        strip_crs(split_nl(s.drop_last()))
    } else {
        let p = split_nl(s);
        strip_crs(p.drop_last()).push(p.last())
    }
}

pub proof fn lemma_lines_len(s: Seq<char>)
    ensures
        lines(s).len() <= s.len() + 1,
{
    if s.len() > 0 {
        lemma_split_nl_upper(s);
        lemma_split_nl_upper(s.drop_last());
        lemma_split_nl_len(s);
    }
}

fn strip_cr_vec(l: Vec<char>) -> (r: Vec<char>)
    ensures
        r@ == strip_cr(l@),
{
    let mut l = l;
    if l.len() > 0 && l[l.len() - 1] == '\r' {
        l.pop();
    }
    l
}

/// Whether `r` holds the bounds of the pieces `ls` inside `s`.
pub open spec fn ranges_of(s: Seq<char>, r: Seq<(usize, usize)>, ls: Seq<Seq<char>>) -> bool {
    &&& r.len() == ls.len()
    &&& forall|k: int|
        0 <= k < r.len() ==> {
            &&& (#[trigger] r[k]).0 <= r[k].1 <= s.len()
            &&& s.subrange(r[k].0 as int, r[k].1 as int) == ls[k]
        }
}

/// The bounds of the lines of `s` (see `lines`).
pub fn line_ranges(s: &[char]) -> (r: Vec<(usize, usize)>)
    ensures
        ranges_of(s@, r@, lines(s@)),
{
    let mut out: Vec<(usize, usize)> = Vec::new();
    let mut start: usize = 0;
    let ghost mut raw: Seq<Seq<char>> = Seq::empty();
    let mut i: usize = 0;
    assert(s@.take(0) == Seq::<char>::empty());
    assert(s@.subrange(0, 0) == Seq::<char>::empty());
    while i < s.len()
        invariant
            start <= i <= s@.len(),
            split_nl(s@.take(i as int)) == raw.push(s@.subrange(start as int, i as int)),
            ranges_of(s@, out@, strip_crs(raw)),
        decreases s@.len() - i,
    {
        let c = s[i];
        assert(s@.take(i + 1).drop_last() == s@.take(i as int));
        if c == '\n' {
            let ghost cur = s@.subrange(start as int, i as int);
            let end = if i > start && s[i - 1] == '\r' {
                i - 1
            } else {
                i
            };
            assert(s@.subrange(start as int, end as int) == strip_cr(cur));
            let ghost before = out@;
            out.push((start, end));
            proof {
                assert(strip_crs(raw.push(cur)) == strip_crs(raw).push(strip_cr(cur)));
                raw = raw.push(cur);
                assert(out@ == before.push((start, end)));
            }
            start = i + 1;
            assert(s@.subrange(start as int, i + 1) == Seq::<char>::empty());
        } else {
            assert(s@.subrange(start as int, i + 1) == s@.subrange(start as int, i as int).push(c));
        }
        i = i + 1;
    }
    proof {
        assert(s@.take(s@.len() as int) == s@);
        lemma_split_nl_len(s@);
    }
    if s.len() > 0 && s[s.len() - 1] != '\n' {
        let ghost cur = s@.subrange(start as int, s@.len() as int);
        let ghost before = out@;
        out.push((start, s.len()));
        assert(split_nl(s@) == raw.push(cur));
        assert(raw.push(cur).drop_last() == raw);
        assert(lines(s@) == strip_crs(raw).push(cur));
        assert(out@ == before.push((start, s.len())));
    } else if s.len() > 0 {
        assert(split_nl(s@) == split_nl(s@.drop_last()).push(Seq::<char>::empty()));
        assert(split_nl(s@).drop_last() == split_nl(s@.drop_last()));
        assert(split_nl(s@.drop_last()) == raw);
    }
    out
}

/// The lines of `s` (see `lines`).
pub fn lines_of(s: &[char]) -> (r: Vec<Vec<char>>)
    ensures
        views(r@) == lines(s@),
{
    let rs = line_ranges(s);
    let mut out: Vec<Vec<char>> = Vec::new();
    let mut k: usize = 0;
    while k < rs.len()
        invariant
            k <= rs@.len(),
            ranges_of(s@, rs@, lines(s@)),
            views(out@) == lines(s@).take(k as int),
        decreases rs@.len() - k,
    {
        let (a, b) = rs[k];
        let l = slice_of(s, a, b);
        let ghost before = out@;
        out.push(l);
        assert(views(out@) == views(before).push(l@));
        assert(lines(s@).take(k + 1) == lines(s@).take(k as int).push(lines(s@)[k as int]));
        k = k + 1;
    }
    assert(lines(s@).take(rs@.len() as int) == lines(s@));
    out
}

/// ASCII letters mapped to lower case, everything else unchanged.
pub open spec fn ascii_lower(c: char) -> char {
    if 'A' <= c && c <= 'Z' {
        ((c as u32) + 32) as char
    } else {
        c
    }
}

/// ASCII letters mapped to upper case, everything else unchanged.
pub open spec fn ascii_upper(c: char) -> char {
    if 'a' <= c && c <= 'z' {
        ((c as u32) - 32) as char
    } else {
        c
    }
}

pub open spec fn lower(s: Seq<char>) -> Seq<char> {
    s.map_values(|c: char| ascii_lower(c))
}

pub open spec fn upper(s: Seq<char>) -> Seq<char> {
    s.map_values(|c: char| ascii_upper(c))
}

/// `str::eq_ignore_ascii_case`.
pub open spec fn eq_ic(a: Seq<char>, b: Seq<char>) -> bool {
    lower(a) == lower(b)
}

pub fn char_lower(c: char) -> (r: char)
    ensures
        r == ascii_lower(c),
{
    if 'A' <= c && c <= 'Z' {
        let u: u32 = (c as u32) + 32;
        assert(u <= 0x7f);
        char_from_ascii(u)
    } else {
        c
    }
}

pub fn char_upper(c: char) -> (r: char)
    ensures
        r == ascii_upper(c),
{
    if 'a' <= c && c <= 'z' {
        let u: u32 = (c as u32) - 32;
        char_from_ascii(u)
    } else {
        c
    }
}

/// The character with an ASCII code.
pub fn char_from_ascii(u: u32) -> (c: char)
    requires
        u <= 0x7f,
    ensures
        c == u as char,
{
    let b: u8 = u as u8;
    b as char
}

pub fn lower_vec(s: &[char]) -> (v: Vec<char>)
    ensures
        v@ == lower(s@),
{
    let mut v: Vec<char> = Vec::new();
    let mut i: usize = 0;
    while i < s.len()
        invariant
            i <= s@.len(),
            v@ == lower(s@.take(i as int)),
        decreases s@.len() - i,
    {
        assert(lower(s@.take(i + 1)) == lower(s@.take(i as int)).push(ascii_lower(s@[i as int])));
        v.push(char_lower(s[i]));
        i = i + 1;
    }
    assert(s@.take(s@.len() as int) == s@);
    v
}

pub fn upper_vec(s: &[char]) -> (v: Vec<char>)
    ensures
        v@ == upper(s@),
{
    let mut v: Vec<char> = Vec::new();
    let mut i: usize = 0;
    while i < s.len()
        invariant
            i <= s@.len(),
            v@ == upper(s@.take(i as int)),
        decreases s@.len() - i,
    {
        assert(upper(s@.take(i + 1)) == upper(s@.take(i as int)).push(ascii_upper(s@[i as int])));
        v.push(char_upper(s[i]));
        i = i + 1;
    }
    assert(s@.take(s@.len() as int) == s@);
    v
}

/// Whether two runs of characters are equal.
pub fn chars_eq(a: &[char], b: &[char]) -> (r: bool)
    ensures
        r == (a@ == b@),
{
    if a.len() != b.len() {
        return false;
    }
    let mut i: usize = 0;
    while i < a.len()
        invariant
            a@.len() == b@.len(),
            i <= a@.len(),
            forall|j: int| 0 <= j < i ==> a@[j] == b@[j],
        decreases a@.len() - i,
    {
        if a[i] != b[i] {
            return false;
        }
        i = i + 1;
    }
    assert(a@ =~= b@);
    true
}

/// `str::eq_ignore_ascii_case` on runs of characters.
pub fn chars_eq_ic(a: &[char], b: &[char]) -> (r: bool)
    ensures
        r == eq_ic(a@, b@),
{
    let la = lower_vec(a);
    let lb = lower_vec(b);
    chars_eq(la.as_slice(), lb.as_slice())
}

/// Whether `p` is a prefix of `s`.
pub fn starts_with(s: &[char], p: &[char]) -> (r: bool)
    ensures
        r == p@.is_prefix_of(s@),
{
    if p.len() > s.len() {
        return false;
    }
    let mut i: usize = 0;
    while i < p.len()
        invariant
            p@.len() <= s@.len(),
            i <= p@.len(),
            forall|j: int| 0 <= j < i ==> p@[j] == s@[j],
        decreases p@.len() - i,
    {
        if p[i] != s[i] {
            return false;
        }
        i = i + 1;
    }
    assert(p@ =~= s@.subrange(0, p@.len() as int));
    true
}

/// Whether `p` is a suffix of `s`.
pub fn ends_with(s: &[char], p: &[char]) -> (r: bool)
    ensures
        r == p@.is_suffix_of(s@),
{
    if p.len() > s.len() {
        return false;
    }
    let off = s.len() - p.len();
    let mut i: usize = 0;
    while i < p.len()
        invariant
            p@.len() <= s@.len(),
            s@.len() == s.len(),
            off == s@.len() - p@.len(),
            i <= p@.len(),
            forall|j: int| 0 <= j < i ==> p@[j] == s@[off + j],
        decreases p@.len() - i,
    {
        if p[i] != s[off + i] {
            return false;
        }
        i = i + 1;
    }
    assert(p@ =~= s@.subrange(off as int, s@.len() as int));
    true
}

/// Whether `p` occurs in `s` starting at `i`.
pub open spec fn occurs_at(s: Seq<char>, p: Seq<char>, i: int) -> bool {
    0 <= i && i + p.len() <= s.len() && s.subrange(i, i + p.len()) == p
}

/// The first index at or after `i` where `p` occurs in `s`.
pub open spec fn find_from(s: Seq<char>, p: Seq<char>, i: int) -> Option<int>
    decreases s.len() + 1 - i,
{
    if i < 0 || i + p.len() > s.len() {
        None
    } else if occurs_at(s, p, i) {
        Some(i)
    } else {
        find_from(s, p, i + 1)
    }
}

/// `str::find`: the first occurrence of `p` in `s`.
pub open spec fn find(s: Seq<char>, p: Seq<char>) -> Option<int> {
    find_from(s, p, 0)
}

pub proof fn lemma_find_from_bounds(s: Seq<char>, p: Seq<char>, i: int)
    requires
        0 <= i,
    ensures
        find_from(s, p, i) matches Some(k) ==> i <= k && occurs_at(s, p, k) && forall|j: int|
            i <= j < k ==> !occurs_at(s, p, j),
        find_from(s, p, i) is None ==> forall|j: int| i <= j ==> !occurs_at(s, p, j),
    decreases s.len() + 1 - i,
{
    if i < 0 || i + p.len() > s.len() {
    } else if occurs_at(s, p, i) {
    } else {
        lemma_find_from_bounds(s, p, i + 1);
    }
}

fn occurs_at_exec(s: &[char], p: &[char], i: usize) -> (r: bool)
    requires
        i + p@.len() <= s@.len(),
    ensures
        r == occurs_at(s@, p@, i as int),
{
    let mut j: usize = 0;
    assert(s@.len() == s.len());
    while j < p.len()
        invariant
            s@.len() == s.len(),
            i + p@.len() <= s@.len(),
            j <= p@.len(),
            forall|k: int| 0 <= k < j ==> p@[k] == s@[i + k],
        decreases p@.len() - j,
    {
        if p[j] != s[i + j] {
            assert(s@.subrange(i as int, i + p@.len())[j as int] != p@[j as int]);
            return false;
        }
        j = j + 1;
    }
    assert(s@.subrange(i as int, i + p@.len()) =~= p@);
    true
}

/// The first index at or after `from` where `p` occurs in `s`.
pub fn find_sub(s: &[char], p: &[char], from: usize) -> (r: Option<usize>)
    ensures
        r matches Some(k) ==> find_from(s@, p@, from as int) == Some(k as int),
        r is None ==> find_from(s@, p@, from as int) is None,
{
    let mut i = from;
    if p.len() > s.len() {
        return None;
    }
    while i <= s.len() - p.len()
        invariant
            from <= i,
            p@.len() <= s@.len(),
            s@.len() == s.len(),
            find_from(s@, p@, i as int) == find_from(s@, p@, from as int),
        decreases s@.len() + 1 - i,
    {
        if p.len() == 0 {
            assert(s@.subrange(i as int, i as int) =~= p@);
        }
        if occurs_at_exec(s, p, i) {
            return Some(i);
        }
        i = i + 1;
    }
    None
}

/// The first index at or after `i` holding `c`, or `s.len()`.
pub open spec fn char_from(s: Seq<char>, c: char, i: int) -> int
    decreases s.len() - i,
{
    if i >= s.len() || i < 0 {
        s.len() as int
    } else if s[i] == c {
        i
    } else {
        char_from(s, c, i + 1)
    }
}

pub proof fn lemma_char_from(s: Seq<char>, c: char, i: int)
    requires
        0 <= i <= s.len(),
    ensures
        i <= char_from(s, c, i) <= s.len(),
        char_from(s, c, i) < s.len() ==> s[char_from(s, c, i)] == c,
        forall|j: int| i <= j < char_from(s, c, i) ==> s[j] != c,
    decreases s.len() - i,
{
    if i < s.len() && s[i] != c {
        lemma_char_from(s, c, i + 1);
    }
}

/// The first index at or after `from` holding `c`, or `s.len()`.
pub fn find_char(s: &[char], c: char, from: usize) -> (r: usize)
    requires
        from <= s@.len(),
    ensures
        r == char_from(s@, c, from as int),
{
    let mut i = from;
    while i < s.len() && s[i] != c
        invariant
            from <= i <= s@.len(),
            char_from(s@, c, i as int) == char_from(s@, c, from as int),
        decreases s@.len() - i,
    {
        i = i + 1;
    }
    i
}

/// The pieces of `ls` joined with `sep` between them.
pub open spec fn join(ls: Seq<Seq<char>>, sep: Seq<char>) -> Seq<char>
    decreases ls.len(),
{
    if ls.len() == 0 {
        Seq::empty()
    } else if ls.len() == 1 {
        ls[0]
    } else {
        join(ls.drop_last(), sep) + sep + ls.last()
    }
}

/// `join(views(ls), sep)` as a new vector.
pub fn join_vecs(ls: &[Vec<char>], sep: &[char]) -> (v: Vec<char>)
    ensures
        v@ == join(views(ls@), sep@),
{
    let mut v: Vec<char> = Vec::new();
    let mut i: usize = 0;
    while i < ls.len()
        invariant
            i <= ls@.len(),
            v@ == join(views(ls@).take(i as int), sep@),
        decreases ls@.len() - i,
    {
        let ghost pre = views(ls@).take(i as int);
        assert(views(ls@).take(i + 1).drop_last() == pre);
        if i > 0 {
            push_chars(&mut v, sep);
        }
        push_chars(&mut v, ls[i].as_slice());
        i = i + 1;
    }
    assert(views(ls@).take(ls@.len() as int) == views(ls@));
    v
}


/// `s` cut at every `c`; always at least one piece.
pub open spec fn split_on(s: Seq<char>, c: char) -> Seq<Seq<char>>
    decreases s.len(),
{
    if s.len() == 0 {
        seq![Seq::<char>::empty()]
    } else {
        let r = split_on(s.drop_last(), c);
        if s.last() == c {
            r.push(Seq::<char>::empty())
        } else {
            r.update(r.len() - 1, r.last().push(s.last()))
        }
    }
}

pub proof fn lemma_split_on_len(s: Seq<char>, c: char)
    ensures
        split_on(s, c).len() >= 1,
    decreases s.len(),
{
    if s.len() > 0 {
        lemma_split_on_len(s.drop_last(), c);
    }
}

/// The pieces of `s` between the occurrences of `c`.
pub fn split_vecs(s: &[char], c: char) -> (r: Vec<Vec<char>>)
    ensures
        views(r@) == split_on(s@, c),
{
    let mut out: Vec<Vec<char>> = Vec::new();
    let mut cur: Vec<char> = Vec::new();
    let mut i: usize = 0;
    assert(s@.take(0) == Seq::<char>::empty());
    assert(views(out@).push(cur@) == seq![Seq::<char>::empty()]);
    while i < s.len()
        invariant
            i <= s@.len(),
            split_on(s@.take(i as int), c) == views(out@).push(cur@),
        decreases s@.len() - i,
    {
        let d = s[i];
        assert(s@.take(i + 1).drop_last() == s@.take(i as int));
        if d == c {
            let ghost before = out@;
            let ghost prev = cur@;
            out.push(cur);
            cur = Vec::new();
            assert(views(out@) == views(before).push(prev));
        } else {
            let ghost prev = cur@;
            cur.push(d);
            assert(views(out@).push(prev).update(views(out@).len() as int, prev.push(d)) == views(out@).push(cur@));
        }
        i = i + 1;
    }
    assert(s@.take(s@.len() as int) == s@);
    let ghost before = out@;
    out.push(cur);
    assert(views(out@) == views(before).push(views(out@).last()));
    out
}

/// The number of copies of `c` that `s` starts with, from `i` on, plus `i`.
pub open spec fn lead(s: Seq<char>, c: char, i: int) -> int
    decreases s.len() - i,
{
    if 0 <= i < s.len() && s[i] == c {
        lead(s, c, i + 1)
    } else {
        i
    }
}

pub proof fn lemma_lead(s: Seq<char>, c: char, i: int)
    requires
        0 <= i <= s.len(),
    ensures
        i <= lead(s, c, i) <= s.len(),
        forall|j: int| i <= j < lead(s, c, i) ==> s[j] == c,
        lead(s, c, i) < s.len() ==> s[lead(s, c, i)] != c,
    decreases s.len() - i,
{
    if i < s.len() && s[i] == c {
        lemma_lead(s, c, i + 1);
    }
}

pub fn lead_count(s: &[char], c: char) -> (r: usize)
    ensures
        r == lead(s@, c, 0),
{
    let mut i: usize = 0;
    while i < s.len() && s[i] == c
        invariant
            i <= s@.len(),
            lead(s@, c, i as int) == lead(s@, c, 0),
        decreases s@.len() - i,
    {
        i = i + 1;
    }
    i
}

/// The number of copies of `c` that `s` ends with, counted back from `hi`:
/// the index where that run starts.
pub open spec fn back_lead(s: Seq<char>, c: char, lo: int, hi: int) -> int
    decreases hi - lo,
{
    if lo < hi && s[hi - 1] == c {
        back_lead(s, c, lo, hi - 1)
    } else {
        hi
    }
}

/// `s` without the copies of `c` at either end, as `str::trim_matches(c)` gives it.
pub open spec fn trim_matches(s: Seq<char>, c: char) -> Seq<char> {
    s.subrange(lead(s, c, 0), back_lead(s, c, lead(s, c, 0), s.len() as int))
}

pub proof fn lemma_back_lead(s: Seq<char>, c: char, lo: int, hi: int)
    requires
        0 <= lo <= hi <= s.len(),
    ensures
        lo <= back_lead(s, c, lo, hi) <= hi,
    decreases hi - lo,
{
    if lo < hi && s[hi - 1] == c {
        lemma_back_lead(s, c, lo, hi - 1);
    }
}

pub fn trim_matches_vec(s: &[char], c: char) -> (v: Vec<char>)
    ensures
        v@ == trim_matches(s@, c),
{
    let lo = lead_count(s, c);
    proof {
        lemma_lead(s@, c, 0);
    }
    let mut hi = s.len();
    while hi > lo && s[hi - 1] == c
        invariant
            lo <= hi <= s@.len(),
            back_lead(s@, c, lo as int, hi as int) == back_lead(s@, c, lo as int, s@.len() as int),
        decreases hi,
    {
        hi = hi - 1;
    }
    slice_of(s, lo, hi)
}

/// The first index at or after `i` holding whitespace, or `s.len()`.
pub open spec fn ws_from(s: Seq<char>, i: int) -> int
    decreases s.len() - i,
{
    if i < 0 || i >= s.len() {
        s.len() as int
    } else if is_ws(s[i]) {
        i
    } else {
        ws_from(s, i + 1)
    }
}

pub proof fn lemma_ws_from(s: Seq<char>, i: int)
    requires
        0 <= i <= s.len(),
    ensures
        i <= ws_from(s, i) <= s.len(),
        ws_from(s, i) < s.len() ==> is_ws(s[ws_from(s, i)]),
    decreases s.len() - i,
{
    if i < s.len() && !is_ws(s[i]) {
        lemma_ws_from(s, i + 1);
    }
}

pub fn find_ws(s: &[char]) -> (r: usize)
    ensures
        r == ws_from(s@, 0),
        r <= s@.len(),
{
    let mut i: usize = 0;
    while i < s.len() && !char_is_ws(s[i])
        invariant
            i <= s@.len(),
            ws_from(s@, i as int) == ws_from(s@, 0),
        decreases s@.len() - i,
    {
        i = i + 1;
    }
    i
}


/// `join(views(ls)[a..b], sep)` as a new vector.
pub fn join_range(ls: &[Vec<char>], a: usize, b: usize, sep: &[char]) -> (v: Vec<char>)
    requires
        a <= b <= ls@.len(),
    ensures
        v@ == join(views(ls@).subrange(a as int, b as int), sep@),
{
    let mut v: Vec<char> = Vec::new();
    let mut i: usize = a;
    let ghost all = views(ls@).subrange(a as int, b as int);
    while i < b
        invariant
            a <= i <= b <= ls@.len(),
            all == views(ls@).subrange(a as int, b as int),
            v@ == join(all.take(i - a), sep@),
        decreases b - i,
    {
        assert(all.take(i - a + 1).drop_last() == all.take(i - a));
        assert(all[i - a] == ls@[i as int]@);
        if i > a {
            push_chars(&mut v, sep);
        }
        push_chars(&mut v, ls[i].as_slice());
        i = i + 1;
    }
    assert(all.take(b - a) == all);
    v
}


/// The decimal digits of `n`.
pub open spec fn decimal(n: nat) -> Seq<char>
    decreases n,
{
    if n < 10 {
        seq![digit_char(n)]
    } else {
        decimal(n / 10).push(digit_char(n % 10))
    }
}

pub open spec fn digit_char(d: nat) -> char {
    ((d + 48) as u32) as char
}

/// Appends the decimal digits of `n`.
pub fn push_decimal(out: &mut Vec<char>, n: usize)
    ensures
        final(out)@ == old(out)@ + decimal(n as nat),
    decreases n,
{
    if n >= 10 {
        push_decimal(out, n / 10);
    }
    let d: u32 = (n % 10) as u32;
    let c = char_from_ascii(d + 48);
    out.push(c);
    assert(decimal(n as nat) == if n < 10 { seq![digit_char(n as nat)] } else { decimal((n / 10) as nat).push(digit_char((n % 10) as nat)) });
}

/// `s` holds no `c`.
pub open spec fn free_of(s: Seq<char>, c: char) -> bool {
    forall|i: int| 0 <= i < s.len() ==> s[i] != c
}

pub proof fn lemma_split_nl_is_split_on(s: Seq<char>)
    ensures
        split_nl(s) == split_on(s, '\n'),
    decreases s.len(),
{
    if s.len() > 0 {
        lemma_split_nl_is_split_on(s.drop_last());
    }
}

pub proof fn lemma_split_on_free(s: Seq<char>, c: char)
    requires
        free_of(s, c),
    ensures
        split_on(s, c) == seq![s],
    decreases s.len(),
{
    if s.len() > 0 {
        lemma_split_on_free(s.drop_last(), c);
        assert(s.drop_last().push(s.last()) =~= s);
        assert(seq![s.drop_last()].update(0, s.drop_last().push(s.last())) =~= seq![s]);
    } else {
        assert(s =~= Seq::<char>::empty());
    }
}

pub proof fn lemma_split_on_append(a: Seq<char>, b: Seq<char>, c: char)
    requires
        free_of(b, c),
    ensures
        split_on(a + seq![c] + b, c) == split_on(a, c).push(b),
    decreases b.len(),
{
    if b.len() == 0 {
        assert((a + seq![c] + b).drop_last() =~= a);
        assert(b =~= Seq::<char>::empty());
    } else {
        let b1 = b.drop_last();
        assert(free_of(b1, c));
        lemma_split_on_append(a, b1, c);
        assert((a + seq![c] + b).drop_last() =~= a + seq![c] + b1);
        assert((a + seq![c] + b).last() == b.last());
        let r = split_on(a, c).push(b1);
        assert(b1.push(b.last()) =~= b);
        assert(r.last() == b1);
        assert(r.update(r.len() - 1, r.last().push(b.last())) =~= split_on(a, c).push(b));
    }
}

/// Cutting pieces joined by `c` at `c` gives the pieces back, when none of
/// them holds `c`.
pub proof fn lemma_split_join(xs: Seq<Seq<char>>, c: char)
    requires
        xs.len() > 0,
        forall|i: int| 0 <= i < xs.len() ==> free_of(#[trigger] xs[i], c),
    ensures
        split_on(join(xs, seq![c]), c) == xs,
    decreases xs.len(),
{
    if xs.len() == 1 {
        lemma_split_on_free(xs[0], c);
        assert(xs =~= seq![xs[0]]);
    } else {
        lemma_split_join(xs.drop_last(), c);
        assert(free_of(xs.last(), c));
        lemma_split_on_append(join(xs.drop_last(), seq![c]), xs.last(), c);
        assert(xs.drop_last().push(xs.last()) =~= xs);
    }
}

pub proof fn lemma_join_free(xs: Seq<Seq<char>>, sep: Seq<char>, c: char)
    requires
        free_of(sep, c),
        forall|i: int| 0 <= i < xs.len() ==> free_of(#[trigger] xs[i], c),
    ensures
        free_of(join(xs, sep), c),
    decreases xs.len(),
{
    if xs.len() > 1 {
        lemma_join_free(xs.drop_last(), sep, c);
        let j = join(xs.drop_last(), sep);
        assert(free_of(xs.last(), c));
        assert forall|i: int| 0 <= i < (j + sep + xs.last()).len() implies (j + sep + xs.last())[i] != c by {
            if i < j.len() {
            } else if i < j.len() + sep.len() {
                assert((j + sep + xs.last())[i] == sep[i - j.len()]);
            } else {
                assert((j + sep + xs.last())[i] == xs.last()[i - j.len() - sep.len()]);
            }
        }
    } else if xs.len() == 1 {
        assert(free_of(xs[0], c));
    }
}

/// The pieces, each followed by a line feed, form their lines joined, plus
/// a final line feed.
pub proof fn lemma_terminated_join(h: Seq<char>, xs: Seq<Seq<char>>)
    ensures
        h + seq!['\n'] + xs.map_values(|l: Seq<char>| l + seq!['\n']).flatten() == join(
            seq![h] + xs,
            seq!['\n'],
        ) + seq!['\n'],
    decreases xs.len(),
{
    let m = xs.map_values(|l: Seq<char>| l + seq!['\n']);
    if xs.len() == 0 {
        assert(m =~= Seq::<Seq<char>>::empty());
        assert(seq![h] + xs =~= seq![h]);
    } else {
        let x0 = xs.drop_last();
        lemma_terminated_join(h, x0);
        let m0 = x0.map_values(|l: Seq<char>| l + seq!['\n']);
        assert(m =~= m0.push(xs.last() + seq!['\n']));
        m0.lemma_flatten_push(xs.last() + seq!['\n']);
        assert((seq![h] + xs).drop_last() =~= seq![h] + x0);
        assert((seq![h] + xs).last() == xs.last());
        assert(h + seq!['\n'] + m.flatten() =~= join(seq![h] + x0, seq!['\n']) + seq!['\n'] + xs.last()
            + seq!['\n']);
    }
}

/// The lines of a header line and further lines, each ending in a line
/// feed and holding none inside.
pub proof fn lemma_lines_of_terminated(h: Seq<char>, xs: Seq<Seq<char>>)
    requires
        free_of(h, '\n'),
        forall|i: int| 0 <= i < xs.len() ==> free_of(#[trigger] xs[i], '\n'),
    ensures
        lines(h + seq!['\n'] + xs.map_values(|l: Seq<char>| l + seq!['\n']).flatten()) == strip_crs(
            seq![h] + xs,
        ),
{
    lemma_terminated_join(h, xs);
    let all = seq![h] + xs;
    assert forall|i: int| 0 <= i < all.len() implies free_of(#[trigger] all[i], '\n') by {
        if i > 0 {
            assert(all[i] == xs[i - 1]);
        }
    }
    lemma_split_join(all, '\n');
    let s = join(all, seq!['\n']) + seq!['\n'];
    assert(s.drop_last() =~= join(all, seq!['\n']));
    lemma_split_nl_is_split_on(join(all, seq!['\n']));
}

pub proof fn lemma_trim_start_plain(s: Seq<char>)
    requires
        s.len() > 0 ==> !is_ws(s[0]),
    ensures
        trim_start(s) == s,
{
}

pub proof fn lemma_trim_end_plain(s: Seq<char>)
    requires
        s.len() > 0 ==> !is_ws(s.last()),
    ensures
        trim_end(s) == s,
{
}

/// Text that neither starts nor ends with whitespace is its own trim.
pub proof fn lemma_trim_plain(s: Seq<char>)
    requires
        s.len() > 0 ==> !is_ws(s[0]) && !is_ws(s.last()),
    ensures
        trim(s) == s,
{
    lemma_trim_start_plain(s);
    lemma_trim_end_plain(s);
}

/// Leading whitespace in front of such text is trimmed away.
pub proof fn lemma_trim_after_spaces(w: Seq<char>, s: Seq<char>)
    requires
        forall|i: int| 0 <= i < w.len() ==> is_ws(#[trigger] w[i]),
        s.len() > 0 ==> !is_ws(s[0]) && !is_ws(s.last()),
    ensures
        trim(w + s) == s,
    decreases w.len(),
{
    if w.len() == 0 {
        assert(w + s =~= s);
        lemma_trim_plain(s);
    } else {
        assert((w + s).drop_first() =~= w.drop_first() + s);
        lemma_trim_after_spaces(w.drop_first(), s);
        assert(trim_start(w + s) == trim_start(w.drop_first() + s));
    }
}

/// Lower-casing text that has no ASCII capitals changes nothing.
pub proof fn lemma_lower_plain(s: Seq<char>)
    requires
        forall|i: int| 0 <= i < s.len() ==> !('A' <= #[trigger] s[i] && s[i] <= 'Z'),
    ensures
        lower(s) == s,
{
    assert(lower(s) =~= s);
}

/// What `str::to_lowercase` gives for `s` (full Unicode lower-casing).
pub uninterp spec fn unicode_lower(s: Seq<char>) -> Seq<char>;

/// std's `str::to_lowercase`. Its result is named here; the Unicode case
/// tables are not restated. Of ASCII text the function's documentation
/// gives the ASCII lower case, which is stated.
#[verifier::external_body]
pub(crate) fn to_lowercase(s: &str) -> (r: String)
    ensures
        r@ == unicode_lower(s@),
        (forall|i: int| 0 <= i < s@.len() ==> (s@[i] as u32) < 128) ==> r@ == lower(s@),
{
    s.to_lowercase()
}

} // verus!
