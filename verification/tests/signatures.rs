use base64::Engine;
use ed25519_dalek::{Signer, SigningKey};
use jaringan::signature::{
    canonical_signature_payload, security_label, verify_source_signature, PublicKeyring,
    SignatureStatus,
};

fn b64(bytes: &[u8]) -> String {
    base64::engine::general_purpose::STANDARD.encode(bytes)
}

#[test]
fn unsigned_sources_are_not_secure_but_allowed() {
    let source = "# Plain page\n\nUnsigned pages are still valid Jaringan pages.\n";
    let keyring = PublicKeyring::default();

    assert_eq!(verify_source_signature(source, &keyring), SignatureStatus::Unsigned);
}

#[test]
fn signed_sources_verify_against_public_keyring() {
    let signing_key = SigningKey::from_bytes(&[7; 32]);
    let verifying_key = signing_key.verifying_key();
    let unsigned =
        "# Signed page\n\nThis content is covered.\n\n~~~~~\ntitle: Signed page\nsigned-by: alice\n";
    let signature = signing_key.sign(canonical_signature_payload(unsigned).as_bytes());
    let source = format!("{unsigned}signature: ed25519:{}\n", b64(&signature.to_bytes()));
    let mut keyring = PublicKeyring::default();
    keyring.add_ed25519_key("alice", &b64(&verifying_key.to_bytes())).unwrap();

    assert_eq!(
        verify_source_signature(&source, &keyring),
        SignatureStatus::Secure { signer: "alice".into() }
    );
}

#[test]
fn keyring_text_parses_human_editable_ed25519_keys() {
    let signing_key = SigningKey::from_bytes(&[9; 32]);
    let public_key = b64(&signing_key.verifying_key().to_bytes());
    let keyring =
        PublicKeyring::from_text(&format!("# trusted signers\n\nalice ed25519:{public_key}\n"))
            .unwrap();
    let unsigned = "# Signed page\n\nLoaded through a keyring file.\n\n~~~~~\nsigned-by: alice\n";
    let signature = signing_key.sign(canonical_signature_payload(unsigned).as_bytes());
    let source = format!("{unsigned}signature: ed25519:{}\n", b64(&signature.to_bytes()));

    assert_eq!(
        verify_source_signature(&source, &keyring),
        SignatureStatus::Secure { signer: "alice".into() }
    );
}

#[test]
fn keyring_text_rejects_malformed_lines_with_line_numbers() {
    let valid_empty_key = "AAAAAAAAAAAAAAAAAAAAAAAAAAAAAAAAAAAAAAAAAAA=";
    let error = PublicKeyring::from_text(&format!("alice ed25519:{valid_empty_key}\nbroken\n"))
        .unwrap_err();

    assert!(error.contains("line 2"));
    assert!(error.contains("expected `<signer> ed25519:<base64-public-key>`"));
}

#[test]
fn security_label_marks_unsigned_and_signed_pages() {
    assert_eq!(security_label(&SignatureStatus::Unsigned), "not secure: unsigned");
    assert_eq!(
        security_label(&SignatureStatus::Secure { signer: "alice".into() }),
        "secure: signed by alice"
    );
}

#[test]
fn security_labels_name_unknown_signers_and_reasons() {
    assert_eq!(
        security_label(&SignatureStatus::UnknownSigner { signer: "bob".into() }),
        "not secure: unknown signer bob"
    );
    assert_eq!(
        security_label(&SignatureStatus::Invalid { reason: "bad".into() }),
        "not secure: bad"
    );
}

#[test]
fn payload_drops_signature_lines_and_trims_metadata() {
    assert_eq!(canonical_signature_payload("no metadata"), "no metadata");
    assert_eq!(
        canonical_signature_payload("body\n~~~~~\n title: T \nSignature: x\nsigned-by: a\n\n"),
        "body\n~~~~~\ntitle: T \nsigned-by: a\n"
    );
}

#[test]
fn signature_problems_are_reported() {
    let keyring = PublicKeyring::default();
    assert_eq!(
        verify_source_signature("x\n~~~~~\nsigned-by: alice\n", &keyring),
        SignatureStatus::Invalid {
            reason: "signed-by `alice` is present without a signature".into()
        }
    );
    assert_eq!(
        verify_source_signature("x\n~~~~~\nsigned-by: alice\nsignature: rsa:abc\n", &keyring),
        SignatureStatus::Invalid { reason: "signature must use ed25519:<base64>".into() }
    );
    assert_eq!(
        verify_source_signature("x\n~~~~~\nsigned-by: alice\nsignature: ed25519:abc\n", &keyring),
        SignatureStatus::UnknownSigner { signer: "alice".into() }
    );
    let signing_key = SigningKey::from_bytes(&[3; 32]);
    let mut keyring = PublicKeyring::default();
    keyring.add_ed25519_key("alice", &b64(&signing_key.verifying_key().to_bytes())).unwrap();
    assert_eq!(
        verify_source_signature("x\n~~~~~\nsigned-by: alice\nsignature: ed25519:AAAA\n", &keyring),
        SignatureStatus::Invalid { reason: "ed25519 signatures must be 64 bytes".into() }
    );
    let wrong = signing_key.sign(b"something else");
    let source = format!("x\n~~~~~\nsigned-by: alice\nsignature: ed25519:{}\n", b64(&wrong.to_bytes()));
    assert!(matches!(
        verify_source_signature(&source, &keyring),
        SignatureStatus::Invalid { reason } if reason.starts_with("signature verification failed: ")
    ));
}

#[test]
fn keyring_refuses_bad_keys() {
    let mut keyring = PublicKeyring::default();
    assert_eq!(
        keyring.add_ed25519_key("a", "AAAA").unwrap_err(),
        "ed25519 public keys must be 32 bytes"
    );
    assert!(keyring.add_ed25519_key("a", "!!").unwrap_err().starts_with("bad ed25519 public key base64: "));
    let err = PublicKeyring::from_text("alice rsa:AAAA\n").unwrap_err();
    assert_eq!(err, "line 1: expected `<signer> ed25519:<base64-public-key>`");
    let err = PublicKeyring::from_text("# c\nalice ed25519:AAAA\n").unwrap_err();
    assert_eq!(err, "line 2: ed25519 public keys must be 32 bytes");
}
