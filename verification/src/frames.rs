//! Encrypted framing for connections that share a key: a short text head
//! (`JRG-ENC/0.1`, the capability, the nonce and the ciphertext's length),
//! a blank line, and the ciphertext in base64. The associated data binds
//! each frame to its direction and to the capability.

use vstd::prelude::*;
use vstd::utf8::{encode_utf8, valid_utf8};
use crate::text;
use crate::codec::base64_encoded;
use crate::encryption::{decrypt_payload, encrypt_payload, opened_parts, xchacha_sealed};
use crate::protocol::{
    capability_header, parse_capability, EncryptedPayload, EncryptedTcpConfig, EncryptionCapability,
    EncryptionCapabilityV, EncryptionError, EncryptionNonce, EncryptionSuite, WireError,
};
use crate::request_wire::{parse_usize, parse_usize_exec, MAX_REQUEST_BODY};
use crate::utf8::text_of_bytes;

verus! {

broadcast use vstd::string::group_string_axioms;

/// Which way a frame travels.
#[derive(Debug, Clone, Copy, PartialEq, Eq)]
pub enum FrameDirection {
    Request,
    Response,
}

impl FrameDirection {
    pub open spec fn name(self) -> Seq<char> {
        match self {
            FrameDirection::Request => "request"@,
            FrameDirection::Response => "response"@,
        }
    }

    pub fn as_str(self) -> (r: &'static str)
        ensures
            r@ == self.name(),
    {
        match self {
            FrameDirection::Request => "request",
            FrameDirection::Response => "response",
        }
    }
}

/// The associated data of a frame: `JRG-ENC/0.1 <direction>; <capability>`.
pub open spec fn frame_aad_text(c: EncryptionCapabilityV, d: FrameDirection) -> Seq<char> {
    "JRG-ENC/0.1 "@ + d.name() + "; "@ + capability_header(c)
}

pub fn encrypted_frame_aad(config: &EncryptedTcpConfig, direction: FrameDirection) -> (r: Vec<u8>)
    ensures
        r@ == encode_utf8(frame_aad_text(config.capability@, direction)),
{
    let mut out = text::chars_of("JRG-ENC/0.1 ");
    text::push_str(&mut out, direction.as_str());
    text::push_str(&mut out, "; ");
    let cap = config.capability.to_header_value();
    text::push_str(&mut out, cap.as_str());
    proof {
        assert(out@ =~= frame_aad_text(config.capability@, direction));
    }
    let s = text::string_from(out.as_slice());
    s.as_str().as_bytes_vec()
}

/// A frame's text: the head lines, a blank line, and the ciphertext, whose
/// length in bytes the head gives.
pub open spec fn frame_text(c: EncryptionCapabilityV, nonce_b64: Seq<char>, ct_b64: Seq<char>) -> Seq<char> {
    "JRG-ENC/0.1\nContent-Encryption: "@ + capability_header(c) + "\nNonce: "@ + nonce_b64 + "\nContent-Length: "@
        + text::decimal(encode_utf8(ct_b64).len()) + "\n\n"@ + ct_b64
}

/// Seals `plaintext` under the connection's key with `nonce` (which the
/// caller draws at random) and writes it as a frame; reading the frame
/// with the same settings gives the plaintext back (see
/// `lemma_frame_round_trip`).
pub fn write_encrypted_frame(
    config: &EncryptedTcpConfig,
    direction: FrameDirection,
    nonce: EncryptionNonce,
    plaintext: &[u8],
) -> (r: Result<String, WireError>)
    ensures
        match xchacha_sealed(
            config.key.bytes(),
            nonce.bytes(),
            plaintext@,
            encode_utf8(frame_aad_text(config.capability@, direction)),
        ) {
            None => r matches Err(WireError::Encryption(e)) && e == EncryptionError::Encrypt,
            Some(c) => r matches Ok(t) && t@ == frame_text(
                config.capability@,
                base64_encoded(nonce.bytes()),
                base64_encoded(c),
            ) && (crate::protocol::plain_key_id(config.capability@.key_id) && text::free_of(
                config.capability@.key_id,
                '\n',
            ) && encode_utf8(base64_encoded(c)).len() <= MAX_REQUEST_BODY ==> read_frame(
                config.key.bytes(),
                config.capability@,
                direction,
                t@,
            ) == FrameOutcome::Plain(plaintext@)),
        },
{
    let aad = encrypted_frame_aad(config, direction);
    let payload = match encrypt_payload(&config.key, nonce, plaintext, aad.as_slice()) {
        Ok(p) => p,
        Err(e) => {
            return Err(WireError::Encryption(e));
        },
    };
    let mut out = text::chars_of("JRG-ENC/0.1\nContent-Encryption: ");
    let cap = config.capability.to_header_value();
    text::push_str(&mut out, cap.as_str());
    text::push_str(&mut out, "\nNonce: ");
    text::push_str(&mut out, payload.nonce_base64.as_str());
    text::push_str(&mut out, "\nContent-Length: ");
    let n = payload.ciphertext_base64.as_str().as_bytes().len();
    text::push_decimal(&mut out, n);
    text::push_str(&mut out, "\n\n");
    text::push_str(&mut out, payload.ciphertext_base64.as_str());
    proof {
        assert(out@ =~= frame_text(config.capability@, payload.nonce_base64@, payload.ciphertext_base64@));
        let nb = payload.nonce_base64@;
        assert forall|j: int| 0 <= j < nb.len() implies !text::is_ws(#[trigger] nb[j]) by {
            assert(crate::codec::base64_char(nb[j]));
        }
        if crate::protocol::plain_key_id(config.capability@.key_id) && text::free_of(config.capability@.key_id, '\n')
            && encode_utf8(payload.ciphertext_base64@).len() <= MAX_REQUEST_BODY {
            lemma_frame_round_trip(
                config.key.bytes(),
                config.capability@,
                direction,
                nb,
                payload.ciphertext_base64@,
                plaintext@,
            );
        }
    }
    Ok(text::string_from(out.as_slice()))
}

// ----- Reading a frame -----

/// What the head lines gave so far.
pub ghost struct FrameHead {
    pub cap: Option<EncryptionCapabilityV>,
    pub nonce: Option<Seq<char>>,
    pub length: Option<nat>,
}

/// Why a head line stops the reading.
pub ghost enum HeadFault {
    Bad,
    Capability(EncryptionError),
}

/// Where reading the head ends: a faulty line, or the head and the index
/// just past it.
pub ghost enum HeadScan {
    Fail(HeadFault),
    Done(FrameHead, int),
}

/// The line that starts at `i`, without its line feed and trailing
/// whitespace.
pub open spec fn line_at(s: Seq<char>, i: int) -> Seq<char> {
    text::trim_end(s.subrange(i, text::char_from(s, '\n', i)))
}

/// The start of the line after the one at `i`, or the end.
pub open spec fn next_line(s: Seq<char>, i: int) -> int {
    let e = text::char_from(s, '\n', i);
    if e < s.len() {
        e + 1
    } else {
        s.len() as int
    }
}

pub open spec fn cap_prefix() -> Seq<char> {
    "Content-Encryption:"@
}

pub open spec fn nonce_prefix() -> Seq<char> {
    "Nonce:"@
}

pub open spec fn length_prefix() -> Seq<char> {
    "Content-Length:"@
}

/// The head lines from `i` on, up to a blank line or the end; later lines
/// replace what earlier ones gave; other lines are passed over.
pub open spec fn scan_head(s: Seq<char>, i: int, h: FrameHead) -> HeadScan
    decreases s.len() - i,
{
    if i < 0 || i >= s.len() {
        HeadScan::Done(h, s.len() as int)
    } else {
        let l = line_at(s, i);
        let nx = next_line(s, i);
        proof {
            text::lemma_char_from(s, '\n', i);
        }
        if l.len() == 0 {
            HeadScan::Done(h, nx)
        } else if cap_prefix().is_prefix_of(l) {
            match parse_capability(text::trim(l.skip(cap_prefix().len() as int))) {
                Err(e) => HeadScan::Fail(HeadFault::Capability(e)),
                Ok(c) => scan_head(s, nx, FrameHead { cap: Some(c), ..h }),
            }
        } else if nonce_prefix().is_prefix_of(l) {
            scan_head(s, nx, FrameHead { nonce: Some(text::trim(l.skip(nonce_prefix().len() as int))), ..h })
        } else if length_prefix().is_prefix_of(l) {
            match parse_usize(text::trim(l.skip(length_prefix().len() as int))) {
                None => HeadScan::Fail(HeadFault::Bad),
                Some(n) => scan_head(s, nx, FrameHead { length: Some(n), ..h }),
            }
        } else {
            scan_head(s, nx, h)
        }
    }
}

proof fn lemma_scan_step(s: Seq<char>, i: int, h: FrameHead)
    requires
        0 <= i < s.len(),
        line_at(s, i).len() > 0,
    ensures
        next_line(s, i) > i,
        ({
            let l = line_at(s, i);
            let nx = next_line(s, i);
            scan_head(s, i, h) == if cap_prefix().is_prefix_of(l) {
                match parse_capability(text::trim(l.skip(cap_prefix().len() as int))) {
                    Err(e) => HeadScan::Fail(HeadFault::Capability(e)),
                    Ok(c) => scan_head(s, nx, FrameHead { cap: Some(c), ..h }),
                }
            } else if nonce_prefix().is_prefix_of(l) {
                scan_head(s, nx, FrameHead { nonce: Some(text::trim(l.skip(nonce_prefix().len() as int))), ..h })
            } else if length_prefix().is_prefix_of(l) {
                match parse_usize(text::trim(l.skip(length_prefix().len() as int))) {
                    None => HeadScan::Fail(HeadFault::Bad),
                    Some(n) => scan_head(s, nx, FrameHead { length: Some(n), ..h }),
                }
            } else {
                scan_head(s, nx, h)
            }
        }),
{
    text::lemma_char_from(s, '\n', i);
}

/// What reading a frame gives.
pub ghost enum FrameOutcome {
    Plain(Seq<u8>),
    BadFrame,
    BadCapability,
    TooLarge,
    Short,
    Sealed(EncryptionError),
}

pub open spec fn empty_head() -> FrameHead {
    FrameHead { cap: None, nonce: None, length: None }
}

/// The ciphertext's bytes, once the head is read: they must be there, be
/// text, and open under the key with the frame's associated data.
pub open spec fn frame_body(
    key: Seq<u8>,
    c: EncryptionCapabilityV,
    d: FrameDirection,
    s: Seq<char>,
    at: int,
    nonce: Seq<char>,
    n: nat,
) -> FrameOutcome {
    let rest = encode_utf8(s.skip(at));
    if n > rest.len() {
        FrameOutcome::Short
    } else if !valid_utf8(rest.take(n as int)) {
        FrameOutcome::BadFrame
    } else {
        match opened_parts(key, c.suite, nonce, vstd::utf8::decode_utf8(rest.take(n as int)), encode_utf8(frame_aad_text(c, d))) {
            Ok(m) => FrameOutcome::Plain(m),
            Err(e) => FrameOutcome::Sealed(e),
        }
    }
}

/// Reading a frame: the first line must be `JRG-ENC/0.1`; the head must
/// name the connection's capability, a nonce and a length no larger than
/// the request body limit.
pub open spec fn read_frame(key: Seq<u8>, c: EncryptionCapabilityV, d: FrameDirection, s: Seq<char>) -> FrameOutcome {
    if line_at(s, 0) != "JRG-ENC/0.1"@ {
        FrameOutcome::BadFrame
    } else {
        match scan_head(s, next_line(s, 0), empty_head()) {
            HeadScan::Fail(HeadFault::Bad) => FrameOutcome::BadFrame,
            HeadScan::Fail(HeadFault::Capability(e)) => FrameOutcome::Sealed(e),
            HeadScan::Done(h, at) => match h.cap {
                None => FrameOutcome::BadFrame,
                Some(cap) => if cap != c {
                    FrameOutcome::BadCapability
                } else {
                    match (h.nonce, h.length) {
                        (Some(nonce), Some(n)) => if n > MAX_REQUEST_BODY {
                            FrameOutcome::TooLarge
                        } else {
                            frame_body(key, c, d, s, at, nonce, n)
                        },
                        _ => FrameOutcome::BadFrame,
                    }
                },
            },
        }
    }
}

fn same_capability(a: &EncryptionCapability, b: &EncryptionCapability) -> (r: bool)
    ensures
        r == (a@ == b@),
{
    let x = text::chars_of(a.key_id.as_str());
    let y = text::chars_of(b.key_id.as_str());
    match (a.suite, b.suite) {
        (EncryptionSuite::XChaCha20Poly1305, EncryptionSuite::XChaCha20Poly1305) => text::chars_eq(
            x.as_slice(),
            y.as_slice(),
        ),
    }
}

pub open spec fn head_view(cap: Option<EncryptionCapability>, nonce: Option<Vec<char>>, length: Option<usize>) -> FrameHead {
    FrameHead {
        cap: match cap {
            Some(c) => Some(c@),
            None => None,
        },
        nonce: match nonce {
            Some(v) => Some(v@),
            None => None,
        },
        length: match length {
            Some(n) => Some(n as nat),
            None => None,
        },
    }
}

/// The line at `i` as `line_at` reads it, and where the next one starts.
fn line_exec(s: &[char], i: usize) -> (r: (Vec<char>, usize))
    requires
        i < s@.len(),
    ensures
        r.0@ == line_at(s@, i as int),
        r.1 == next_line(s@, i as int),
        i < r.1 <= s@.len(),
{
    let e = text::find_char(s, '\n', i);
    proof {
        text::lemma_char_from(s@, '\n', i as int);
    }
    let raw = text::slice_of(s, i, e);
    let l = text::trimmed_end(raw.as_slice());
    let nx = if e < s.len() {
        e + 1
    } else {
        s.len()
    };
    (l, nx)
}

/// Reads a frame and opens its ciphertext; see `read_frame`.
pub fn read_encrypted_frame(config: &EncryptedTcpConfig, direction: FrameDirection, frame: &str) -> (r: Result<
    Vec<u8>,
    WireError,
>)
    ensures
        match read_frame(config.key.bytes(), config.capability@, direction, frame@) {
            FrameOutcome::Plain(m) => r matches Ok(v) && v@ == m,
            FrameOutcome::BadFrame => r matches Err(WireError::BadEncryptedFrame),
            FrameOutcome::BadCapability => r matches Err(WireError::BadEncryptedCapability),
            FrameOutcome::TooLarge => r matches Err(WireError::PayloadTooLarge),
            FrameOutcome::Short => r matches Err(WireError::Io(_)),
            FrameOutcome::Sealed(e) => r matches Err(WireError::Encryption(x)) && x == e,
        },
{
    let s = text::chars_of(frame);
    let ghost sv = s@;
    let tag = text::chars_of("JRG-ENC/0.1");
    let mut first: Vec<char> = Vec::new();
    let mut i: usize = 0;
    if s.len() == 0 {
        proof {
            text::lemma_char_from(sv, '\n', 0);
            assert(line_at(sv, 0) =~= Seq::<char>::empty());
            reveal_strlit("JRG-ENC/0.1");
        }
        return Err(WireError::BadEncryptedFrame);
    } else {
        let (l, nx) = line_exec(s.as_slice(), 0);
        first = l;
        i = nx;
    }
    if !text::chars_eq(first.as_slice(), tag.as_slice()) {
        return Err(WireError::BadEncryptedFrame);
    }
    let ghost start = i as int;
    let cp = text::chars_of("Content-Encryption:");
    let np = text::chars_of("Nonce:");
    let lp = text::chars_of("Content-Length:");
    let mut cap: Option<EncryptionCapability> = None;
    let mut nonce: Option<Vec<char>> = None;
    let mut length: Option<usize> = None;
    let mut at: usize = 0;
    loop
        invariant
            sv == s@,
            sv == frame@,
            cp@ == cap_prefix(),
            np@ == nonce_prefix(),
            lp@ == length_prefix(),
            i <= sv.len(),
            line_at(sv, 0) == "JRG-ENC/0.1"@,
            start == next_line(sv, 0),
            scan_head(sv, i as int, head_view(cap, nonce, length)) == scan_head(sv, start, empty_head()),
        ensures
            at <= sv.len(),
            scan_head(sv, start, empty_head()) == HeadScan::Done(head_view(cap, nonce, length), at as int),
        decreases sv.len() - i,
    {
        if i >= s.len() {
            at = s.len();
            break;
        }
        let ghost h0 = head_view(cap, nonce, length);
        let (l, nx) = line_exec(s.as_slice(), i);
        let ghost ii: int = i as int;
        if l.len() == 0 {
            at = nx;
            break;
        }
        proof {
            lemma_scan_step(sv, ii, h0);
        }
        if text::starts_with(l.as_slice(), cp.as_slice()) {
            let v = text::trimmed(text::slice_of(l.as_slice(), cp.len(), l.len()).as_slice());
            proof {
                assert(l@.subrange(cp@.len() as int, l@.len() as int) =~= l@.skip(cap_prefix().len() as int));
            }
            let vs = text::string_from(v.as_slice());
            match EncryptionCapability::from_header_value(vs.as_str()) {
                Ok(c) => {
                    let ghost cv = c@;
                    cap = Some(c);
                    proof {
                        assert(head_view(cap, nonce, length) == (FrameHead { cap: Some(cv), ..h0 }));
                    }
                },
                Err(e) => {
                    return Err(WireError::Encryption(e));
                },
            }
        } else if text::starts_with(l.as_slice(), np.as_slice()) {
            let v = text::trimmed(text::slice_of(l.as_slice(), np.len(), l.len()).as_slice());
            proof {
                assert(l@.subrange(np@.len() as int, l@.len() as int) =~= l@.skip(nonce_prefix().len() as int));
            }
            let ghost vv = v@;
            nonce = Some(v);
            proof {
                assert(head_view(cap, nonce, length) == (FrameHead { nonce: Some(vv), ..h0 }));
            }
        } else if text::starts_with(l.as_slice(), lp.as_slice()) {
            let v = text::trimmed(text::slice_of(l.as_slice(), lp.len(), l.len()).as_slice());
            proof {
                assert(l@.subrange(lp@.len() as int, l@.len() as int) =~= l@.skip(length_prefix().len() as int));
            }
            match parse_usize_exec(v.as_slice()) {
                Some(n) => {
                    length = Some(n);
                    proof {
                        assert(head_view(cap, nonce, length) == (FrameHead { length: Some(n as nat), ..h0 }));
                    }
                },
                None => {
                    return Err(WireError::BadEncryptedFrame);
                },
            }
        }
        i = nx;
    }
    let c = match cap {
        Some(c) => c,
        None => {
            return Err(WireError::BadEncryptedFrame);
        },
    };
    if !same_capability(&c, &config.capability) {
        return Err(WireError::BadEncryptedCapability);
    }
    let nv = match nonce {
        Some(v) => v,
        None => {
            return Err(WireError::BadEncryptedFrame);
        },
    };
    let n = match length {
        Some(n) => n,
        None => {
            return Err(WireError::BadEncryptedFrame);
        },
    };
    if n > MAX_REQUEST_BODY {
        return Err(WireError::PayloadTooLarge);
    }
    let rest_text = text::string_from(text::slice_of(s.as_slice(), at, s.len()).as_slice());
    let rest = rest_text.as_str().as_bytes();
    proof {
        assert(sv.subrange(at as int, sv.len() as int) =~= sv.skip(at as int));
    }
    if n > rest.len() {
        return Err(WireError::Io(String::from_str("failed to fill whole buffer")));
    }
    let mut ct: Vec<u8> = Vec::new();
    let mut j: usize = 0;
    while j < n
        invariant
            j <= n <= rest@.len(),
            ct@ == rest@.take(j as int),
        decreases n - j,
    {
        ct.push(rest[j]);
        proof {
            assert(rest@.take(j + 1) =~= rest@.take(j as int).push(rest@[j as int]));
        }
        j = j + 1;
    }
    let ct_text = match text_of_bytes(ct.as_slice()) {
        Some(t) => t,
        None => {
            return Err(WireError::BadEncryptedFrame);
        },
    };
    let payload = EncryptedPayload {
        suite: c.suite,
        nonce_base64: text::string_from(nv.as_slice()),
        ciphertext_base64: ct_text,
    };
    let aad = encrypted_frame_aad(config, direction);
    match decrypt_payload(&config.key, &payload, aad.as_slice()) {
        Ok(m) => Ok(m),
        Err(e) => Err(WireError::Encryption(e)),
    }
}

// ----- Reading back what was written -----

proof fn lemma_char_from_at(s: Seq<char>, c: char, i: int, k: int)
    requires
        0 <= i <= k < s.len(),
        forall|j: int| i <= j < k ==> s[j] != c,
        s[k] == c,
    ensures
        text::char_from(s, c, i) == k,
    decreases k - i,
{
    if i < k {
        lemma_char_from_at(s, c, i + 1, k);
    }
}

/// The line `l` that stands at `i` of `s`, ended by a line feed.
proof fn lemma_line_of(s: Seq<char>, i: int, l: Seq<char>)
    requires
        0 <= i,
        i + l.len() < s.len(),
        s.subrange(i, i + l.len()) == l,
        text::free_of(l, '\n'),
        s[i + l.len()] == '\n',
    ensures
        line_at(s, i) == text::trim_end(l),
        next_line(s, i) == i + l.len() + 1,
{
    assert forall|j: int| i <= j < i + l.len() implies s[j] != '\n' by {
        assert(s[j] == s.subrange(i, i + l.len())[j - i]);
    }
    lemma_char_from_at(s, '\n', i, i + l.len());
}

proof fn lemma_no_ws_trim(w: Seq<char>, t: Seq<char>)
    requires
        forall|j: int| 0 <= j < w.len() ==> text::is_ws(#[trigger] w[j]),
        forall|j: int| 0 <= j < t.len() ==> !text::is_ws(#[trigger] t[j]),
    ensures
        text::trim(w + t) == t,
{
    text::lemma_trim_after_spaces(w, t);
}

/// The line `l` standing after `a` and before a line feed.
proof fn lemma_line_in(a: Seq<char>, l: Seq<char>, b: Seq<char>)
    requires
        text::free_of(l, '\n'),
    ensures
        line_at(a + l + seq!['\n'] + b, a.len() as int) == text::trim_end(l),
        next_line(a + l + seq!['\n'] + b, a.len() as int) == a.len() + l.len() + 1,
{
    let s = a + l + seq!['\n'] + b;
    assert(s.subrange(a.len() as int, a.len() + l.len() as int) =~= l);
    assert(s[a.len() + l.len() as int] == '\n');
    lemma_line_of(s, a.len() as int, l);
}

/// A capability's header text: one line, without whitespace at its ends,
/// that reads back as the capability.
proof fn lemma_header_line(c: EncryptionCapabilityV)
    requires
        crate::protocol::plain_key_id(c.key_id),
        text::free_of(c.key_id, '\n'),
    ensures
        text::free_of(capability_header(c), '\n'),
        capability_header(c).len() > 0,
        !text::is_ws(capability_header(c)[0]),
        !text::is_ws(capability_header(c).last()),
        parse_capability(capability_header(c)) == Ok::<EncryptionCapabilityV, EncryptionError>(c),
{
    reveal_strlit("xchacha20poly1305");
    reveal_strlit("; ");
    reveal_strlit("key-id=");
    let h = capability_header(c);
    let front = c.suite.name() + "; "@ + crate::protocol::key_id_prefix();
    assert(h =~= front + c.key_id);
    assert(front.len() == 26);
    assert forall|j: int| 0 <= j < h.len() implies h[j] != '\n' by {
        if j >= 26 {
            assert(h[j] == c.key_id[j - 26]);
        }
    }
    assert(h[0] == 'x');
    assert(h.last() == c.key_id.last());
    crate::protocol::lemma_capability_round_trip(c);
}

/// How a frame's text is laid out, line by line.
proof fn lemma_frame_layout(c: EncryptionCapabilityV, nonce_b64: Seq<char>, ct_b64: Seq<char>)
    ensures
        frame_text(c, nonce_b64, ct_b64) == "JRG-ENC/0.1"@ + seq!['\n'] + ("Content-Encryption: "@ + capability_header(c))
            + seq!['\n'] + ("Nonce: "@ + nonce_b64) + seq!['\n'] + ("Content-Length: "@ + text::decimal(
            encode_utf8(ct_b64).len(),
        )) + seq!['\n'] + (seq!['\n'] + ct_b64),
{
    reveal_strlit("JRG-ENC/0.1\nContent-Encryption: ");
    reveal_strlit("\nNonce: ");
    reveal_strlit("\nContent-Length: ");
    reveal_strlit("\n\n");
    reveal_strlit("JRG-ENC/0.1");
    reveal_strlit("Content-Encryption: ");
    reveal_strlit("Nonce: ");
    reveal_strlit("Content-Length: ");
    assert(frame_text(c, nonce_b64, ct_b64) =~= "JRG-ENC/0.1"@ + seq!['\n'] + ("Content-Encryption: "@
        + capability_header(c)) + seq!['\n'] + ("Nonce: "@ + nonce_b64) + seq!['\n'] + ("Content-Length: "@
        + text::decimal(encode_utf8(ct_b64).len())) + seq!['\n'] + (seq!['\n'] + ct_b64));
}

/// The head of a frame as written.
pub open spec fn written_head(c: EncryptionCapabilityV, nonce_b64: Seq<char>, n: nat) -> FrameHead {
    FrameHead { cap: Some(c), nonce: Some(nonce_b64), length: Some(n) }
}

/// A capability line read in a head.
proof fn lemma_cap_line(s: Seq<char>, p: int, c: EncryptionCapabilityV, h: FrameHead)
    requires
        0 <= p < s.len(),
        crate::protocol::plain_key_id(c.key_id),
        text::free_of(c.key_id, '\n'),
        line_at(s, p) == "Content-Encryption: "@ + capability_header(c),
    ensures
        scan_head(s, p, h) == scan_head(s, next_line(s, p), FrameHead { cap: Some(c), ..h }),
{
    reveal_strlit("Content-Encryption: ");
    reveal_strlit("Content-Encryption:");
    lemma_header_line(c);
    let hd = capability_header(c);
    let l = line_at(s, p);
    assert(l.subrange(0, 19) =~= cap_prefix());
    assert(l.skip(cap_prefix().len() as int) =~= seq![' '] + hd);
    text::lemma_trim_after_spaces(seq![' '], hd);
    lemma_scan_step(s, p, h);
}

/// A nonce line read in a head.
proof fn lemma_nonce_line(s: Seq<char>, p: int, nonce_b64: Seq<char>, h: FrameHead)
    requires
        0 <= p < s.len(),
        forall|j: int| 0 <= j < nonce_b64.len() ==> !text::is_ws(#[trigger] nonce_b64[j]),
        line_at(s, p) == text::trim_end("Nonce: "@ + nonce_b64),
    ensures
        scan_head(s, p, h) == scan_head(s, next_line(s, p), FrameHead { nonce: Some(nonce_b64), ..h }),
{
    reveal_strlit("Nonce: ");
    reveal_strlit("Nonce:");
    reveal_strlit("Content-Encryption:");
    let l2 = "Nonce: "@ + nonce_b64;
    let t = line_at(s, p);
    if nonce_b64.len() > 0 {
        assert(l2.last() == nonce_b64.last());
        text::lemma_trim_end_plain(l2);
        assert(t.skip(nonce_prefix().len() as int) =~= seq![' '] + nonce_b64);
        text::lemma_trim_after_spaces(seq![' '], nonce_b64);
    } else {
        assert(l2 =~= "Nonce: "@);
        assert(l2.drop_last() =~= "Nonce:"@);
        assert(text::trim_end(l2.drop_last()) == l2.drop_last());
        assert(t == "Nonce:"@);
        assert(t.skip(nonce_prefix().len() as int) =~= Seq::<char>::empty());
        assert(nonce_b64 =~= Seq::<char>::empty());
    }
    assert(t.len() > 0 && t[0] == 'N');
    assert(!cap_prefix().is_prefix_of(t)) by {
        if cap_prefix().is_prefix_of(t) {
            assert(t.subrange(0, 19)[0] == cap_prefix()[0]);
        }
    }
    assert(t.subrange(0, 6) =~= nonce_prefix());
    lemma_scan_step(s, p, h);
}

/// A length line read in a head.
proof fn lemma_length_line(s: Seq<char>, p: int, n: nat, h: FrameHead)
    requires
        0 <= p < s.len(),
        n <= usize::MAX,
        line_at(s, p) == "Content-Length: "@ + text::decimal(n),
    ensures
        scan_head(s, p, h) == scan_head(s, next_line(s, p), FrameHead { length: Some(n), ..h }),
{
    reveal_strlit("Content-Length: ");
    reveal_strlit("Content-Length:");
    reveal_strlit("Content-Encryption:");
    reveal_strlit("Nonce:");
    let dg = text::decimal(n);
    crate::wire::lemma_decimal(n);
    let l3 = line_at(s, p);
    assert(!cap_prefix().is_prefix_of(l3)) by {
        if cap_prefix().is_prefix_of(l3) {
            assert(l3.subrange(0, 19)[8] == cap_prefix()[8]);
        }
    }
    assert(!nonce_prefix().is_prefix_of(l3)) by {
        if nonce_prefix().is_prefix_of(l3) {
            assert(l3.subrange(0, 6)[0] == nonce_prefix()[0]);
        }
    }
    assert(l3.subrange(0, 15) =~= length_prefix());
    assert(l3.skip(length_prefix().len() as int) =~= seq![' '] + dg);
    assert forall|j: int| 0 <= j < dg.len() implies !text::is_ws(#[trigger] dg[j]) by {
        assert('0' <= dg[j] <= '9');
    }
    text::lemma_trim_after_spaces(seq![' '], dg);
    assert('0' <= dg[0] <= '9');
    assert(parse_usize(dg) == Some(n));
    lemma_scan_step(s, p, h);
}

/// Reading the head of a frame as written gives its capability, nonce and
/// length, and stops where the ciphertext starts.
#[verifier::rlimit(40)]
proof fn lemma_scan_written(c: EncryptionCapabilityV, nonce_b64: Seq<char>, ct_b64: Seq<char>)
    requires
        crate::protocol::plain_key_id(c.key_id),
        text::free_of(c.key_id, '\n'),
        forall|j: int| 0 <= j < nonce_b64.len() ==> !text::is_ws(#[trigger] nonce_b64[j]),
        encode_utf8(ct_b64).len() <= usize::MAX,
    ensures
        ({
            let s = frame_text(c, nonce_b64, ct_b64);
            let at = s.len() - ct_b64.len();
            &&& line_at(s, 0) == "JRG-ENC/0.1"@
            &&& scan_head(s, next_line(s, 0), empty_head()) == HeadScan::Done(
                written_head(c, nonce_b64, encode_utf8(ct_b64).len()),
                at,
            )
            &&& 0 <= at <= s.len()
            &&& s.skip(at) == ct_b64
        }),
{
    reveal_strlit("JRG-ENC/0.1");
    reveal_strlit("Content-Encryption: ");
    reveal_strlit("Nonce: ");
    reveal_strlit("Content-Length: ");
    lemma_header_line(c);
    lemma_frame_layout(c, nonce_b64, ct_b64);
    let n = encode_utf8(ct_b64).len();
    let hd = capability_header(c);
    let dg = text::decimal(n);
    crate::wire::lemma_decimal(n);
    let nl = seq!['\n'];
    let l0 = "JRG-ENC/0.1"@;
    let l1 = "Content-Encryption: "@ + hd;
    let l2 = "Nonce: "@ + nonce_b64;
    let l3 = "Content-Length: "@ + dg;
    let s = frame_text(c, nonce_b64, ct_b64);
    assert(text::free_of(l0, '\n'));
    assert forall|j: int| 0 <= j < l1.len() implies l1[j] != '\n' by {
        if j >= 20 {
            assert(l1[j] == hd[j - 20]);
        }
    }
    assert forall|j: int| 0 <= j < l2.len() implies l2[j] != '\n' by {
        if j >= 7 {
            assert(l2[j] == nonce_b64[j - 7]);
        }
    }
    assert forall|j: int| 0 <= j < l3.len() implies l3[j] != '\n' by {
        if j >= 16 {
            assert(l3[j] == dg[j - 16]);
            assert('0' <= dg[j - 16] <= '9');
        }
    }
    let e = Seq::<char>::empty();
    let b1 = l2 + nl + l3 + nl + (nl + ct_b64);
    assert(s =~= e + l0 + nl + (l1 + nl + b1));
    lemma_line_in(e, l0, l1 + nl + b1);
    text::lemma_trim_end_plain(l0);
    let a1 = l0 + nl;
    let p1: int = a1.len() as int;
    assert(s =~= a1 + l1 + nl + b1);
    lemma_line_in(a1, l1, b1);
    assert(l1.last() == hd.last());
    text::lemma_trim_end_plain(l1);
    lemma_cap_line(s, p1, c, empty_head());
    let a2 = a1 + l1 + nl;
    let p2: int = a2.len() as int;
    let b2 = l3 + nl + (nl + ct_b64);
    assert(s =~= a2 + l2 + nl + b2);
    lemma_line_in(a2, l2, b2);
    let h1 = FrameHead { cap: Some(c), ..empty_head() };
    lemma_nonce_line(s, p2, nonce_b64, h1);
    let h2 = FrameHead { nonce: Some(nonce_b64), ..h1 };
    let a3 = a2 + l2 + nl;
    let p3: int = a3.len() as int;
    assert(s =~= a3 + l3 + nl + (nl + ct_b64));
    lemma_line_in(a3, l3, nl + ct_b64);
    assert(l3.last() == dg.last());
    assert('0' <= dg.last() <= '9');
    text::lemma_trim_end_plain(l3);
    lemma_length_line(s, p3, n, h2);
    let h3 = FrameHead { length: Some(n), ..h2 };
    let a4 = a3 + l3 + nl;
    let p4: int = a4.len() as int;
    assert(s =~= a4 + e + nl + ct_b64);
    lemma_line_in(a4, e, ct_b64);
    assert(line_at(s, p4) =~= Seq::<char>::empty());
    assert(h3 == written_head(c, nonce_b64, n));
    assert(s.skip(p4 + 1) =~= ct_b64);
}

/// A frame as written reads back: its head names the capability, the nonce
/// and the ciphertext's length, and the ciphertext that follows opens to
/// the message it was sealed from. This holds where the key id can stand
/// in a header line (no line feed, no whitespace at its ends, no `;`), the
/// nonce text has no whitespace, and the ciphertext is within the size
/// limit.
pub proof fn lemma_frame_round_trip(
    key: Seq<u8>,
    c: EncryptionCapabilityV,
    d: FrameDirection,
    nonce_b64: Seq<char>,
    ct_b64: Seq<char>,
    msg: Seq<u8>,
)
    requires
        crate::protocol::plain_key_id(c.key_id),
        text::free_of(c.key_id, '\n'),
        forall|j: int| 0 <= j < nonce_b64.len() ==> !text::is_ws(#[trigger] nonce_b64[j]),
        encode_utf8(ct_b64).len() <= MAX_REQUEST_BODY,
        opened_parts(key, c.suite, nonce_b64, ct_b64, encode_utf8(frame_aad_text(c, d))) == Ok::<
            Seq<u8>,
            EncryptionError,
        >(msg),
    ensures
        read_frame(key, c, d, frame_text(c, nonce_b64, ct_b64)) == FrameOutcome::Plain(msg),
{
    lemma_scan_written(c, nonce_b64, ct_b64);
    let s = frame_text(c, nonce_b64, ct_b64);
    let at = s.len() - ct_b64.len();
    let rest = encode_utf8(s.skip(at));
    let n = encode_utf8(ct_b64).len();
    assert(rest.take(n as int) =~= rest);
    vstd::utf8::encode_utf8_valid_utf8(ct_b64);
    vstd::utf8::encode_utf8_decode_utf8(ct_b64);
}

/// Whether an error on an encrypted connection is the client's doing (a
/// frame that does not open, is malformed, or names another capability),
/// after which a server goes on to the next connection.
pub fn is_client_frame_error(e: &WireError) -> (r: bool)
    ensures
        r == (e is Encryption || e is BadEncryptedFrame || e is BadEncryptedCapability),
{
    match e {
        WireError::Encryption(_) => true,
        WireError::BadEncryptedFrame => true,
        WireError::BadEncryptedCapability => true,
        _ => false,
    }
}

} // verus!
