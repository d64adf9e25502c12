use jaringan::encryption::{decrypt_payload, encrypt_payload};
use jaringan::protocol::{
    EncryptedPayload, EncryptionError, EncryptionKey, EncryptionNonce, EncryptionSuite,
};

#[test]
fn encrypted_payload_round_trips_with_xchacha20_poly1305() {
    let key = EncryptionKey::from_bytes([3; 32]);
    let nonce = EncryptionNonce::from_bytes([4; 24]);
    let payload = encrypt_payload(&key, nonce, b"# Secret page\n", b"jrg://example.org/").unwrap();

    assert_eq!(payload.suite, EncryptionSuite::XChaCha20Poly1305);
    assert_ne!(payload.ciphertext_base64, "# Secret page\n");
    assert_eq!(decrypt_payload(&key, &payload, b"jrg://example.org/").unwrap(), b"# Secret page\n");
}

#[test]
fn payloads_do_not_open_under_another_key_or_context() {
    let key = EncryptionKey::from_bytes([3; 32]);
    let other = EncryptionKey::from_bytes([5; 32]);
    let nonce = EncryptionNonce::from_bytes([4; 24]);
    let payload = encrypt_payload(&key, nonce, b"hello", b"ctx").unwrap();
    assert_eq!(payload.nonce_base64, "BAQEBAQEBAQEBAQEBAQEBAQEBAQEBAQE");
    assert_eq!(decrypt_payload(&other, &payload, b"ctx"), Err(EncryptionError::Decrypt));
    assert_eq!(decrypt_payload(&key, &payload, b"other"), Err(EncryptionError::Decrypt));
}

#[test]
fn malformed_payloads_are_refused() {
    let key = EncryptionKey::from_bytes([3; 32]);
    let bad_nonce = EncryptedPayload {
        suite: EncryptionSuite::XChaCha20Poly1305,
        nonce_base64: "AAAA".to_string(),
        ciphertext_base64: String::new(),
    };
    assert_eq!(decrypt_payload(&key, &bad_nonce, b""), Err(EncryptionError::BadNonce));
    let bad_text = EncryptedPayload {
        suite: EncryptionSuite::XChaCha20Poly1305,
        nonce_base64: "BAQEBAQEBAQEBAQEBAQEBAQEBAQEBAQE".to_string(),
        ciphertext_base64: "!!".to_string(),
    };
    assert_eq!(decrypt_payload(&key, &bad_text, b""), Err(EncryptionError::BadCiphertext));
}
