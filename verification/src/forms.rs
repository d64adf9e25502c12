//! Form data: percent-encoding, the `name=value&...` payload a page's
//! inputs make, and reading values back out of such a payload.

use vstd::prelude::*;
use vstd::utf8::{encode_utf8, is_ascii_chars, is_ascii_chars_encode_utf8};
use crate::text;
use crate::utf8::{lossy_text, utf8_lossy};
use crate::document::{blocks_view, Block, BlockV};

verus! {

broadcast use vstd::string::group_string_axioms;

/// Bytes written as they are: ASCII letters and digits, `-`, `.`, `_`, `~`.
pub open spec fn plain_byte(b: u8) -> bool {
    (65u8 <= b && b <= 90u8) || (97u8 <= b && b <= 122u8) || (48u8 <= b && b <= 57u8) || b == 45u8
        || b == 46u8 || b == 95u8 || b == 126u8
}

/// An upper-case hexadecimal digit.
pub open spec fn hex_upper(d: u8) -> char {
    if d < 10 {
        ((d + 48) as u8) as char
    } else {
        ((d + 55) as u8) as char
    }
}

/// How one byte is percent-encoded.
pub open spec fn encoded_byte(b: u8) -> Seq<char> {
    if plain_byte(b) {
        seq![b as char]
    } else {
        seq!['%', hex_upper(b / 16), hex_upper(b % 16)]
    }
}

/// The UTF-8 bytes of `s`, percent-encoded.
pub open spec fn percent_encoded(s: Seq<char>) -> Seq<char> {
    encode_utf8(s).map_values(|b: u8| encoded_byte(b)).flatten()
}

fn hex_char(d: u8) -> (c: char)
    requires
        d < 16,
    ensures
        c == hex_upper(d),
{
    if d < 10 {
        (d + 48) as char
    } else {
        (d + 55) as char
    }
}

pub fn percent_encode(input: &str) -> (r: String)
    ensures
        r@ == percent_encoded(input@),
{
    let bytes = input.as_bytes();
    let ghost m = bytes@.map_values(|b: u8| encoded_byte(b));
    let mut out: Vec<char> = Vec::new();
    let mut i: usize = 0;
    assert(m.take(0) =~= Seq::<Seq<char>>::empty());
    while i < bytes.len()
        invariant
            i <= bytes@.len(),
            m == bytes@.map_values(|b: u8| encoded_byte(b)),
            out@ == m.take(i as int).flatten(),
        decreases bytes@.len() - i,
    {
        let b = bytes[i];
        let ghost before = out@;
        if (65u8 <= b && b <= 90u8) || (97u8 <= b && b <= 122u8) || (48u8 <= b && b <= 57u8) || b
            == 45u8 || b == 46u8 || b == 95u8 || b == 126u8 {
            out.push(b as char);
        } else {
            out.push('%');
            out.push(hex_char(b / 16));
            out.push(hex_char(b % 16));
        }
        proof {
            assert(out@ =~= before + m[i as int]);
            assert(m.take(i + 1) =~= m.take(i as int).push(m[i as int]));
            m.take(i as int).lemma_flatten_push(m[i as int]);
        }
        i = i + 1;
    }
    assert(m.take(bytes@.len() as int) =~= m);
    text::string_from(out.as_slice())
}

/// The value of a hexadecimal digit byte, if it is one.
pub open spec fn hex_value(b: u8) -> Option<u8> {
    if 48u8 <= b && b <= 57u8 {
        Some((b - 48) as u8)
    } else if 65u8 <= b && b <= 70u8 {
        Some((b - 55) as u8)
    } else if 97u8 <= b && b <= 102u8 {
        Some((b - 87) as u8)
    } else {
        None
    }
}

/// `u8::from_str_radix` in base 16 on two ASCII bytes: an optional `+`
/// and digits.
pub open spec fn hex_pair(a: u8, b: u8) -> Option<u8> {
    match (hex_value(a), hex_value(b)) {
        (Some(x), Some(y)) => Some((x * 16 + y) as u8),
        (None, Some(y)) => if a == 43u8 {
            Some(y)
        } else {
            None
        },
        _ => None,
    }
}

/// Two ASCII bytes that are both hexadecimal digits, read as one byte.
pub open spec fn hex_digit_pair(a: u8, b: u8) -> Option<u8> {
    match (hex_value(a), hex_value(b)) {
        (Some(x), Some(y)) => Some((x * 16 + y) as u8),
        _ => None,
    }
}

/// The bytes of `b` from `i` on, with each `%` that two more bytes follow
/// and that reads as a hexadecimal byte replaced by that byte.
pub open spec fn unescaped_from(b: Seq<u8>, i: int) -> Seq<u8>
    decreases b.len() - i,
{
    if i < 0 || i >= b.len() {
        Seq::empty()
    } else if b[i] == 37u8 && i + 2 < b.len() && hex_pair(b[i + 1], b[i + 2]) is Some {
        seq![hex_pair(b[i + 1], b[i + 2])->0] + unescaped_from(b, i + 3)
    } else {
        seq![b[i]] + unescaped_from(b, i + 1)
    }
}

/// Percent-decoding: the escapes read as bytes, then the bytes read as
/// UTF-8 (lossily).
pub open spec fn percent_decoded(s: Seq<char>) -> Seq<char> {
    lossy_text(unescaped_from(encode_utf8(s), 0))
}

/// The bytes that percent-encoding writes for one byte.
pub open spec fn encoded_byte_bytes(b: u8) -> Seq<u8> {
    encoded_byte(b).map_values(|c: char| c as u8)
}

proof fn lemma_encoded_byte(b: u8)
    ensures
        is_ascii_chars(encoded_byte(b)),
        encoded_byte_bytes(b) == if plain_byte(b) {
            seq![b]
        } else {
            seq![37u8, hex_upper(b / 16) as u8, hex_upper(b % 16) as u8]
        },
        !plain_byte(b) ==> hex_pair(hex_upper(b / 16) as u8, hex_upper(b % 16) as u8) == Some(b),
        plain_byte(b) ==> b != 37u8,
{
    let e = encoded_byte(b);
    if plain_byte(b) {
        assert(encoded_byte_bytes(b) =~= seq![b]);
    } else {
        let hi = b / 16;
        let lo = b % 16;
        assert(hex_upper(hi) as u8 == if hi < 10 { hi + 48 } else { hi + 55 });
        assert(hex_upper(lo) as u8 == if lo < 10 { lo + 48 } else { lo + 55 });
        assert(encoded_byte_bytes(b) =~= seq![37u8, hex_upper(hi) as u8, hex_upper(lo) as u8]);
        assert(hi * 16 + lo == b);
    }
}

/// Reading on from the end of a prefix is reading the rest.
proof fn lemma_unescaped_shift(p: Seq<u8>, y: Seq<u8>, j: int)
    requires
        0 <= j,
    ensures
        unescaped_from(p + y, p.len() + j) == unescaped_from(y, j),
    decreases y.len() - j,
{
    let x = p + y;
    let i = p.len() + j;
    if j < y.len() {
        assert(x[i] == y[j]);
        if j + 1 < y.len() {
            assert(x[i + 1] == y[j + 1]);
        }
        if j + 2 < y.len() {
            assert(x[i + 2] == y[j + 2]);
        }
        lemma_unescaped_shift(p, y, j + 1);
        if j + 2 < y.len() {
            lemma_unescaped_shift(p, y, j + 3);
        }
        assert(p.len() + (j + 1) == i + 1);
        assert(p.len() + (j + 3) == i + 3);
    }
}

/// Percent-encoded bytes read back as the bytes.
proof fn lemma_unescape_encoded(bs: Seq<u8>)
    ensures
        unescaped_from(bs.map_values(|b: u8| encoded_byte_bytes(b)).flatten(), 0) == bs,
    decreases bs.len(),
{
    let m = bs.map_values(|b: u8| encoded_byte_bytes(b));
    if bs.len() == 0 {
        assert(m =~= Seq::<Seq<u8>>::empty());
        assert(m.flatten() =~= Seq::<u8>::empty());
    } else {
        let b = bs[0];
        let rest = bs.drop_first();
        lemma_unescape_encoded(rest);
        assert(m.drop_first() =~= rest.map_values(|b: u8| encoded_byte_bytes(b)));
        let y = m.drop_first().flatten();
        assert(m.flatten() == m[0] + y);
        lemma_encoded_byte(b);
        let x = encoded_byte_bytes(b) + y;
        if plain_byte(b) {
            lemma_unescaped_shift(seq![b], y, 0);
            assert(x[0] == b);
        } else {
            lemma_unescaped_shift(encoded_byte_bytes(b), y, 0);
            assert(x[0] == 37u8);
            assert(x[1] == hex_upper(b / 16) as u8);
            assert(x[2] == hex_upper(b % 16) as u8);
        }
        assert(bs =~= seq![b] + rest);
    }
}

/// The percent-encoded text is ASCII and its UTF-8 bytes are the encoded
/// bytes.
proof fn lemma_encoded_text_bytes(bs: Seq<u8>)
    ensures
        is_ascii_chars(bs.map_values(|b: u8| encoded_byte(b)).flatten()),
        bs.map_values(|b: u8| encoded_byte(b)).flatten().map_values(|c: char| c as u8) == bs.map_values(
            |b: u8| encoded_byte_bytes(b),
        ).flatten(),
    decreases bs.len(),
{
    let m = bs.map_values(|b: u8| encoded_byte(b));
    let mb = bs.map_values(|b: u8| encoded_byte_bytes(b));
    if bs.len() == 0 {
        assert(m.flatten() =~= Seq::<char>::empty());
        assert(mb.flatten() =~= Seq::<u8>::empty());
        assert(m.flatten().map_values(|c: char| c as u8) =~= Seq::<u8>::empty());
    } else {
        let rest = bs.drop_first();
        lemma_encoded_text_bytes(rest);
        lemma_encoded_byte(bs[0]);
        assert(m.drop_first() =~= rest.map_values(|b: u8| encoded_byte(b)));
        assert(mb.drop_first() =~= rest.map_values(|b: u8| encoded_byte_bytes(b)));
        let a = encoded_byte(bs[0]);
        let t = m.drop_first().flatten();
        assert(m.flatten() == a + t);
        assert(mb.flatten() == encoded_byte_bytes(bs[0]) + mb.drop_first().flatten());
        assert((a + t).map_values(|c: char| c as u8) =~= a.map_values(|c: char| c as u8) + t.map_values(
            |c: char| c as u8,
        ));
        assert forall|i: int| 0 <= i < (a + t).len() implies '\0' <= #[trigger] (a + t)[i] <= '\u{7f}' by {
            if i < a.len() {
                assert((a + t)[i] == a[i]);
            } else {
                assert((a + t)[i] == t[i - a.len()]);
            }
        }
    }
}

/// Decoding percent-encoded text gives back its bytes.
pub proof fn lemma_percent_round_trip(s: Seq<char>)
    ensures
        unescaped_from(encode_utf8(percent_encoded(s)), 0) == encode_utf8(s),
{
    let bs = encode_utf8(s);
    let p = percent_encoded(s);
    lemma_encoded_text_bytes(bs);
    is_ascii_chars_encode_utf8(p);
    assert(encode_utf8(p) =~= p.map_values(|c: char| c as u8));
    lemma_unescape_encoded(bs);
}

fn hex_value_exec(b: u8) -> (r: Option<u8>)
    ensures
        r == hex_value(b),
{
    if 48u8 <= b && b <= 57u8 {
        Some(b - 48)
    } else if 65u8 <= b && b <= 70u8 {
        Some(b - 55)
    } else if 97u8 <= b && b <= 102u8 {
        Some(b - 87)
    } else {
        None
    }
}

pub(crate) fn hex_pair_exec(a: u8, b: u8) -> (r: Option<u8>)
    ensures
        r == hex_pair(a, b),
{
    match (hex_value_exec(a), hex_value_exec(b)) {
        (Some(x), Some(y)) => Some(x * 16 + y),
        (None, Some(y)) => if a == 43u8 {
            Some(y)
        } else {
            None
        },
        _ => None,
    }
}

pub(crate) fn hex_digit_pair_exec(a: u8, b: u8) -> (r: Option<u8>)
    ensures
        r == hex_digit_pair(a, b),
{
    match (hex_value_exec(a), hex_value_exec(b)) {
        (Some(x), Some(y)) => Some(x * 16 + y),
        _ => None,
    }
}

pub fn percent_decode(input: &str) -> (r: String)
    ensures
        r@ == percent_decoded(input@),
        forall|t: Seq<char>| #[trigger] percent_encoded(t) == input@ ==> r@ == t,
{
    let bytes = input.as_bytes();
    let mut out: Vec<u8> = Vec::new();
    let mut i: usize = 0;
    while i < bytes.len()
        invariant
            i <= bytes@.len(),
            out@ + unescaped_from(bytes@, i as int) == unescaped_from(bytes@, 0),
        decreases bytes@.len() - i,
    {
        let ghost before = out@;
        if bytes[i] == 37u8 && bytes.len() >= 3 && i < bytes.len() - 2 {
            match hex_pair_exec(bytes[i + 1], bytes[i + 2]) {
                Some(v) => {
                    out.push(v);
                    assert(out@ + unescaped_from(bytes@, i + 3) =~= before + unescaped_from(
                        bytes@,
                        i as int,
                    ));
                    i = i + 3;
                    continue;
                },
                None => {},
            }
        }
        out.push(bytes[i]);
        assert(out@ + unescaped_from(bytes@, i + 1) =~= before + unescaped_from(bytes@, i as int));
        i = i + 1;
    }
    assert(out@ =~= unescaped_from(bytes@, 0));
    let r = utf8_lossy(out.as_slice());
    assert forall|t: Seq<char>| #[trigger] percent_encoded(t) == input@ implies r@ == t by {
        lemma_percent_round_trip(t);
        vstd::utf8::encode_utf8_valid_utf8(t);
        vstd::utf8::encode_utf8_decode_utf8(t);
    }
    r
}

/// The part of a pair before its first `=` and the part after it.
pub open spec fn split_eq(p: Seq<char>) -> Option<(Seq<char>, Seq<char>)> {
    let i = text::char_from(p, '=', 0);
    if i < p.len() {
        Some((p.take(i), p.skip(i + 1)))
    } else {
        None
    }
}

/// The decoded value of the first pair named `key` (compared as written).
pub open spec fn first_form_value(pairs: Seq<Seq<char>>, key: Seq<char>) -> Option<Seq<char>>
    decreases pairs.len(),
{
    if pairs.len() == 0 {
        None
    } else {
        match split_eq(pairs[0]) {
            Some((n, v)) => if n == key {
                Some(percent_decoded(v))
            } else {
                first_form_value(pairs.drop_first(), key)
            },
            None => first_form_value(pairs.drop_first(), key),
        }
    }
}

/// The decoded value of the first pair whose decoded name is `name`.
pub open spec fn first_payload_value(pairs: Seq<Seq<char>>, name: Seq<char>) -> Option<Seq<char>>
    decreases pairs.len(),
{
    if pairs.len() == 0 {
        None
    } else {
        match split_eq(pairs[0]) {
            Some((k, v)) => if percent_decoded(k) == name {
                Some(percent_decoded(v))
            } else {
                first_payload_value(pairs.drop_first(), name)
            },
            None => first_payload_value(pairs.drop_first(), name),
        }
    }
}

/// Splits a pair at its first `=`.
fn split_eq_exec(p: &[char]) -> (r: Option<(Vec<char>, Vec<char>)>)
    ensures
        match split_eq(p@) {
            Some((n, v)) => r matches Some((a, b)) && a@ == n && b@ == v,
            None => r is None,
        },
{
    proof {
        text::lemma_char_from(p@, '=', 0);
    }
    let i = text::find_char(p, '=', 0);
    if i < p.len() {
        let a = text::slice_of(p, 0, i);
        let b = text::slice_of(p, i + 1, p.len());
        assert(a@ =~= p@.take(i as int));
        assert(b@ =~= p@.skip(i + 1));
        Some((a, b))
    } else {
        None
    }
}

/// The value of field `key` in a form body: the first `key=value` pair,
/// the value percent-decoded.
pub fn form_value(body: &str, key: &str) -> (r: Option<String>)
    ensures
        match first_form_value(text::split_on(body@, '&'), key@) {
            Some(v) => r matches Some(x) && x@ == v,
            None => r is None,
        },
{
    let pairs = text::split_vecs(text::chars_of(body).as_slice(), '&');
    let ghost ps = text::views(pairs@);
    let mut i: usize = 0;
    assert(ps.skip(0) =~= ps);
    while i < pairs.len()
        invariant
            i <= pairs@.len(),
            ps == text::views(pairs@),
            ps == text::split_on(body@, '&'),
            first_form_value(ps, key@) == first_form_value(ps.skip(i as int), key@),
        decreases pairs@.len() - i,
    {
        assert(ps.skip(i as int)[0] == pairs@[i as int]@);
        assert(ps.skip(i as int).drop_first() =~= ps.skip(i + 1));
        match split_eq_exec(pairs[i].as_slice()) {
            Some((n, v)) => {
                if text::chars_eq(n.as_slice(), text::chars_of(key).as_slice()) {
                    let vs = text::string_from(v.as_slice());
                    return Some(percent_decode(vs.as_str()));
                }
            },
            None => {},
        }
        i = i + 1;
    }
    None
}

/// The value named `name` in a payload, names and values percent-decoded.
pub fn payload_value(payload: &str, name: &str) -> (r: Option<String>)
    ensures
        match first_payload_value(text::split_on(payload@, '&'), name@) {
            Some(v) => r matches Some(x) && x@ == v,
            None => r is None,
        },
{
    let pairs = text::split_vecs(text::chars_of(payload).as_slice(), '&');
    let ghost ps = text::views(pairs@);
    let mut i: usize = 0;
    assert(ps.skip(0) =~= ps);
    while i < pairs.len()
        invariant
            i <= pairs@.len(),
            ps == text::views(pairs@),
            ps == text::split_on(payload@, '&'),
            first_payload_value(ps, name@) == first_payload_value(ps.skip(i as int), name@),
        decreases pairs@.len() - i,
    {
        assert(ps.skip(i as int)[0] == pairs@[i as int]@);
        assert(ps.skip(i as int).drop_first() =~= ps.skip(i + 1));
        match split_eq_exec(pairs[i].as_slice()) {
            Some((k, v)) => {
                let ks = text::string_from(k.as_slice());
                let dk = percent_decode(ks.as_str());
                if text::chars_eq(text::chars_of(dk.as_str()).as_slice(), text::chars_of(name).as_slice()) {
                    let vs = text::string_from(v.as_slice());
                    return Some(percent_decode(vs.as_str()));
                }
            },
            None => {},
        }
        i = i + 1;
    }
    None
}

/// An action target with its payload: after `?`, or after `&` where the
/// target already has a query.
pub open spec fn with_payload(target: Seq<char>, payload: Seq<char>) -> Seq<char> {
    if payload.len() == 0 {
        target
    } else if target.contains('?') {
        target + seq!['&'] + payload
    } else {
        target + seq!['?'] + payload
    }
}

pub fn target_with_payload(target: &str, payload: &str) -> (r: String)
    ensures
        r@ == with_payload(target@, payload@),
{
    let t = text::chars_of(target);
    let p = text::chars_of(payload);
    if p.len() == 0 {
        return String::from_str(target);
    }
    proof {
        text::lemma_char_from(t@, '?', 0);
    }
    let q = text::find_char(t.as_slice(), '?', 0);
    assert(t@.contains('?') <==> q < t@.len()) by {
        if t@.contains('?') {
            let j = choose|j: int| 0 <= j < t@.len() && t@[j] == '?';
            assert(!(q > j));
        }
    }
    let mut out = t;
    out.push(if q < out.len() {
        '&'
    } else {
        '?'
    });
    text::push_chars(&mut out, p.as_slice());
    text::string_from(out.as_slice())
}

/// The `name=value` pairs of a page's inputs, in order, each part
/// percent-encoded.
pub open spec fn input_pairs(bs: Seq<BlockV>) -> Seq<Seq<char>>
    decreases bs.len(),
{
    if bs.len() == 0 {
        Seq::empty()
    } else {
        let rest = input_pairs(bs.drop_last());
        match bs.last() {
            BlockV::Input(i) => rest.push(percent_encoded(i.name) + seq!['='] + percent_encoded(i.value)),
            _ => rest,
        }
    }
}

/// The payload a page's inputs make, pairs joined by `&`.
pub fn input_payload_from_blocks(blocks: &[Block]) -> (r: String)
    ensures
        r@ == text::join(input_pairs(blocks_view(blocks@)), seq!['&']),
{
    let mut pairs: Vec<Vec<char>> = Vec::new();
    let mut i: usize = 0;
    let ghost bv = blocks_view(blocks@);
    assert(bv.take(0) =~= Seq::<BlockV>::empty());
    while i < blocks.len()
        invariant
            i <= blocks@.len(),
            bv == blocks_view(blocks@),
            text::views(pairs@) == input_pairs(bv.take(i as int)),
        decreases blocks@.len() - i,
    {
        assert(bv.take(i + 1).drop_last() =~= bv.take(i as int));
        assert(bv.take(i + 1).last() == blocks@[i as int]@);
        match &blocks[i] {
            Block::Input(input) => {
                let mut pair = text::chars_of(percent_encode(input.name.as_str()).as_str());
                pair.push('=');
                text::push_str(&mut pair, percent_encode(input.value.as_str()).as_str());
                assert(pair@ =~= percent_encoded(input.name@) + seq!['='] + percent_encoded(input.value@));
                assert(input_pairs(bv.take(i + 1)) == input_pairs(bv.take(i as int)).push(pair@));
                let ghost before = pairs@;
                pairs.push(pair);
                assert(text::views(pairs@) =~= text::views(before).push(pair@));
            },
            _ => {
                assert(input_pairs(bv.take(i + 1)) == input_pairs(bv.take(i as int)));
            },
        }
        i = i + 1;
    }
    assert(bv.take(blocks@.len() as int) =~= bv);
    let sep = ['&'];
    assert(sep@ =~= seq!['&']);
    let j = text::join_vecs(pairs.as_slice(), sep.as_slice());
    text::string_from(j.as_slice())
}

} // verus!
