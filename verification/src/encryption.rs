//! Sealing and opening payloads with XChaCha20-Poly1305, their nonce and
//! ciphertext carried as base64 text.

use vstd::prelude::*;
use chacha20poly1305::aead::{Aead, KeyInit};
use crate::codec::{base64_decode, base64_decoded, base64_encode, base64_encoded, base64_text};
use crate::text;
use crate::forms::{hex_digit_pair, hex_digit_pair_exec};
use crate::utf8::text_of_bytes;
use vstd::utf8::{decode_utf8, encode_utf8, valid_utf8};
use crate::protocol::{EncryptedPayload, EncryptionError, EncryptionKey, EncryptionNonce, EncryptionSuite};

verus! {

pub open spec fn opt_bytes(o: Option<Vec<u8>>) -> Option<Seq<u8>> {
    match o {
        Some(v) => Some(v@),
        None => None,
    }
}

/// What `chacha20poly1305` seals `msg` to under a key, nonce and
/// associated data, or `None` where it refuses.
pub uninterp spec fn xchacha_sealed(key: Seq<u8>, nonce: Seq<u8>, msg: Seq<u8>, aad: Seq<u8>) -> Option<
    Seq<u8>,
>;

/// What `chacha20poly1305` opens a ciphertext to, or `None` where it is
/// not authentic.
pub uninterp spec fn xchacha_opened(key: Seq<u8>, nonce: Seq<u8>, ciphertext: Seq<u8>, aad: Seq<u8>) -> Option<
    Seq<u8>,
>;

/// `XChaCha20Poly1305::encrypt` under `key` and `nonce`. The cipher is
/// only named; what it seals, `decrypt` under the same key, nonce and
/// associated data opens to the message sealed.
#[verifier::external_body]
fn xchacha_seal(key: &[u8], nonce: &[u8], msg: &[u8], aad: &[u8]) -> (r: Option<Vec<u8>>)
    requires
        key@.len() == 32,
        nonce@.len() == 24,
    ensures
        opt_bytes(r) == xchacha_sealed(key@, nonce@, msg@, aad@),
        r matches Some(c) ==> xchacha_opened(key@, nonce@, c@, aad@) == Some(msg@),
{
    let cipher = chacha20poly1305::XChaCha20Poly1305::new(chacha20poly1305::Key::from_slice(key));
    let payload = chacha20poly1305::aead::Payload { msg, aad };
    cipher.encrypt(chacha20poly1305::XNonce::from_slice(nonce), payload).ok()
}

/// `XChaCha20Poly1305::decrypt` under `key` and `nonce`. The cipher is
/// only named.
#[verifier::external_body]
fn xchacha_open(key: &[u8], nonce: &[u8], ciphertext: &[u8], aad: &[u8]) -> (r: Option<Vec<u8>>)
    requires
        key@.len() == 32,
        nonce@.len() == 24,
    ensures
        opt_bytes(r) == xchacha_opened(key@, nonce@, ciphertext@, aad@),
{
    let cipher = chacha20poly1305::XChaCha20Poly1305::new(chacha20poly1305::Key::from_slice(key));
    let payload = chacha20poly1305::aead::Payload { msg: ciphertext, aad };
    cipher.decrypt(chacha20poly1305::XNonce::from_slice(nonce), payload).ok()
}

/// Seals `plaintext` with the key and nonce; the nonce and ciphertext are
/// written in base64. What it seals opens back to the plaintext under the
/// same key and associated data.
pub fn encrypt_payload(
    key: &EncryptionKey,
    nonce: EncryptionNonce,
    plaintext: &[u8],
    associated_data: &[u8],
) -> (r: Result<EncryptedPayload, EncryptionError>)
    ensures
        match xchacha_sealed(key.bytes(), nonce.bytes(), plaintext@, associated_data@) {
            None => r == Err::<EncryptedPayload, EncryptionError>(EncryptionError::Encrypt),
            Some(c) => r matches Ok(p) && p.suite == EncryptionSuite::XChaCha20Poly1305
                && p.nonce_base64@ == base64_encoded(nonce.bytes()) && p.ciphertext_base64@
                == base64_encoded(c),
        },
        r matches Ok(p) ==> opened_payload(key.bytes(), p, associated_data@) == Ok::<
            Seq<u8>,
            EncryptionError,
        >(plaintext@),
        r matches Ok(p) ==> base64_text(p.nonce_base64@) && base64_text(p.ciphertext_base64@),
{
    let k = key.as_bytes();
    let n = nonce.as_bytes();
    let sealed = match xchacha_seal(k.as_slice(), n.as_slice(), plaintext, associated_data) {
        Some(c) => c,
        None => {
            return Err(EncryptionError::Encrypt);
        },
    };
    Ok(
        EncryptedPayload {
            suite: EncryptionSuite::XChaCha20Poly1305,
            nonce_base64: base64_encode(n.as_slice()),
            ciphertext_base64: base64_encode(sealed.as_slice()),
        },
    )
}

/// What opening a sealed message gives: the suite must be
/// XChaCha20-Poly1305, the nonce base64 of 24 bytes, the ciphertext base64,
/// and the cipher must find it authentic.
pub open spec fn opened_parts(
    key: Seq<u8>,
    suite: EncryptionSuite,
    nonce_base64: Seq<char>,
    ciphertext_base64: Seq<char>,
    aad: Seq<u8>,
) -> Result<Seq<u8>, EncryptionError> {
    if suite != EncryptionSuite::XChaCha20Poly1305 {
        Err(EncryptionError::UnsupportedSuite)
    } else {
        match base64_decoded(nonce_base64) {
            Err(_) => Err(EncryptionError::BadNonce),
            Ok(n) => if n.len() != 24 {
                Err(EncryptionError::BadNonce)
            } else {
                match base64_decoded(ciphertext_base64) {
                    Err(_) => Err(EncryptionError::BadCiphertext),
                    Ok(c) => match xchacha_opened(key, n, c, aad) {
                        None => Err(EncryptionError::Decrypt),
                        Some(m) => Ok(m),
                    },
                }
            },
        }
    }
}

/// What opening a payload gives; see `opened_parts`.
pub open spec fn opened_payload(key: Seq<u8>, p: EncryptedPayload, aad: Seq<u8>) -> Result<Seq<u8>, EncryptionError> {
    opened_parts(key, p.suite, p.nonce_base64@, p.ciphertext_base64@, aad)
}

/// Opens a payload; see `opened_payload`.
pub fn decrypt_payload(key: &EncryptionKey, payload: &EncryptedPayload, associated_data: &[u8]) -> (r:
    Result<Vec<u8>, EncryptionError>)
    ensures
        match opened_payload(key.bytes(), *payload, associated_data@) {
            Ok(m) => r matches Ok(v) && v@ == m,
            Err(e) => r == Err::<Vec<u8>, EncryptionError>(e),
        },
{
    if payload.suite != EncryptionSuite::XChaCha20Poly1305 {
        return Err(EncryptionError::UnsupportedSuite);
    }
    let nonce = match base64_decode(payload.nonce_base64.as_str()) {
        Ok(n) => n,
        Err(_) => {
            return Err(EncryptionError::BadNonce);
        },
    };
    if nonce.len() != 24 {
        return Err(EncryptionError::BadNonce);
    }
    let ciphertext = match base64_decode(payload.ciphertext_base64.as_str()) {
        Ok(c) => c,
        Err(_) => {
            return Err(EncryptionError::BadCiphertext);
        },
    };
    let k = key.as_bytes();
    match xchacha_open(k.as_slice(), nonce.as_slice(), ciphertext.as_slice(), associated_data) {
        Some(m) => Ok(m),
        None => Err(EncryptionError::Decrypt),
    }
}

// ----- Keys written as hexadecimal -----

/// The two bytes of a key's text that stand for its `k`th byte.
pub open spec fn key_pair(b: Seq<u8>, k: int) -> Seq<u8> {
    b.subrange(2 * k, 2 * k + 2)
}

/// The first of the 32 byte pairs at or after `k` that does not read as a
/// hexadecimal byte (32 when every one does).
pub open spec fn first_bad_pair(b: Seq<u8>, k: int) -> int
    decreases 32 - k,
{
    if k < 0 || k >= 32 {
        32
    } else if valid_utf8(key_pair(b, k)) && hex_digit_pair(b[2 * k], b[2 * k + 1]) is Some {
        first_bad_pair(b, k + 1)
    } else {
        k
    }
}

/// A 32-byte key written as 64 hexadecimal digits, after surrounding
/// whitespace is trimmed; each pair must be two hexadecimal digits.
pub open spec fn hex_key(input: Seq<char>) -> Result<Seq<u8>, Seq<char>> {
    let b = encode_utf8(text::trim(input));
    if b.len() != 64 {
        Err("JARINGAN_ENCRYPTION_KEY_HEX must be exactly 64 hex characters"@)
    } else {
        let k = first_bad_pair(b, 0);
        if k < 32 {
            if !valid_utf8(key_pair(b, k)) {
                Err("encryption key contains invalid UTF-8"@)
            } else {
                Err("invalid hex byte `"@ + decode_utf8(key_pair(b, k)) + "` in JARINGAN_ENCRYPTION_KEY_HEX"@)
            }
        } else {
            Ok(Seq::new(32, |i: int| hex_digit_pair(b[2 * i], b[2 * i + 1])->0))
        }
    }
}

pub open spec fn key_result(r: Result<[u8; 32], String>) -> Result<Seq<u8>, Seq<char>> {
    match r {
        Ok(k) => Ok(k@),
        Err(e) => Err(e@),
    }
}

/// Reads a 32-byte key from its hexadecimal text.
pub fn parse_32_byte_hex_key(input: &str) -> (r: Result<[u8; 32], String>)
    ensures
        key_result(r) == hex_key(input@),
{
    let t = text::trimmed(text::chars_of(input).as_slice());
    let ts = text::string_from(t.as_slice());
    let b = ts.as_str().as_bytes();
    if b.len() != 64 {
        return Err(String::from_str("JARINGAN_ENCRYPTION_KEY_HEX must be exactly 64 hex characters"));
    }
    let ghost bv = b@;
    let mut bytes = [0u8; 32];
    let mut k: usize = 0;
    while k < 32
        invariant
            k <= 32,
            bv == b@,
            bv == encode_utf8(text::trim(input@)),
            bv.len() == 64,
            first_bad_pair(bv, k as int) == first_bad_pair(bv, 0),
            forall|i: int| 0 <= i < k ==> hex_digit_pair(#[trigger] bv[2 * i], bv[2 * i + 1]) == Some(bytes@[i]),
        decreases 32 - k,
    {
        let pair = [b[2 * k], b[2 * k + 1]];
        assert(pair@ =~= key_pair(bv, k as int));
        match text_of_bytes(pair.as_slice()) {
            None => {
                return Err(String::from_str("encryption key contains invalid UTF-8"));
            },
            Some(h) => {
                match hex_digit_pair_exec(b[2 * k], b[2 * k + 1]) {
                    Some(v) => {
                        bytes[k] = v;
                    },
                    None => {
                        let mut msg = text::chars_of("invalid hex byte `");
                        text::push_str(&mut msg, h.as_str());
                        text::push_str(&mut msg, "` in JARINGAN_ENCRYPTION_KEY_HEX");
                        return Err(text::string_from(msg.as_slice()));
                    },
                }
            },
        }
        k = k + 1;
    }
    assert(bytes@ =~= Seq::new(32, |i: int| hex_digit_pair(bv[2 * i], bv[2 * i + 1])->0));
    Ok(bytes)
}

} // verus!
