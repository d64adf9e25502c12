use jaringan::frames::{encrypted_frame_aad, is_client_frame_error, read_encrypted_frame, write_encrypted_frame, FrameDirection};
use jaringan::protocol::{EncryptedTcpConfig, EncryptionError, EncryptionKey, EncryptionNonce, WireError};

fn config(key_id: &str, key: u8) -> EncryptedTcpConfig {
    EncryptedTcpConfig::new(key_id, EncryptionKey::from_bytes([key; 32]))
}

#[test]
fn frame_associated_data_names_direction_and_capability() {
    let c = config("k1", 7);
    assert_eq!(
        encrypted_frame_aad(&c, FrameDirection::Request),
        b"JRG-ENC/0.1 request; xchacha20poly1305; key-id=k1".to_vec()
    );
    assert_eq!(
        encrypted_frame_aad(&c, FrameDirection::Response),
        b"JRG-ENC/0.1 response; xchacha20poly1305; key-id=k1".to_vec()
    );
}

#[test]
fn frames_round_trip() {
    let c = config("k1", 7);
    let frame = write_encrypted_frame(&c, FrameDirection::Request, EncryptionNonce::from_bytes([1; 24]), b"GET jrg://x/ JRG/0.1\n")
        .unwrap();
    assert!(frame.starts_with("JRG-ENC/0.1\nContent-Encryption: xchacha20poly1305; key-id=k1\nNonce: AQEBAQEBAQEBAQEBAQEBAQEBAQEBAQEB\nContent-Length: "));
    let body = frame.split_once("\n\n").unwrap().1;
    assert!(frame.contains(&format!("Content-Length: {}\n\n", body.len())));
    assert_eq!(read_encrypted_frame(&c, FrameDirection::Request, &frame).unwrap(), b"GET jrg://x/ JRG/0.1\n".to_vec());
    // The other direction's associated data does not open it.
    assert!(matches!(
        read_encrypted_frame(&c, FrameDirection::Response, &frame),
        Err(WireError::Encryption(EncryptionError::Decrypt))
    ));
}

#[test]
fn frames_that_are_not_frames_are_refused() {
    let c = config("k1", 7);
    assert!(matches!(read_encrypted_frame(&c, FrameDirection::Request, ""), Err(WireError::BadEncryptedFrame)));
    assert!(matches!(
        read_encrypted_frame(&c, FrameDirection::Request, "JRG/0.1 200 OK\n\n"),
        Err(WireError::BadEncryptedFrame)
    ));
    // No capability line.
    assert!(matches!(
        read_encrypted_frame(&c, FrameDirection::Request, "JRG-ENC/0.1\nNonce: AA==\nContent-Length: 0\n\n"),
        Err(WireError::BadEncryptedFrame)
    ));
    // A length that is not a number.
    assert!(matches!(
        read_encrypted_frame(
            &c,
            FrameDirection::Request,
            "JRG-ENC/0.1\nContent-Encryption: xchacha20poly1305; key-id=k1\nContent-Length: ten\n\n"
        ),
        Err(WireError::BadEncryptedFrame)
    ));
    // A capability that does not parse.
    assert!(matches!(
        read_encrypted_frame(&c, FrameDirection::Request, "JRG-ENC/0.1\nContent-Encryption: rot13; key-id=k1\n\n"),
        Err(WireError::Encryption(EncryptionError::BadCapability))
    ));
}

#[test]
fn frames_for_another_key_too_large_or_short_are_refused() {
    let c = config("k1", 7);
    let other = config("k2", 7);
    let frame = write_encrypted_frame(&other, FrameDirection::Response, EncryptionNonce::from_bytes([2; 24]), b"hi").unwrap();
    assert!(matches!(
        read_encrypted_frame(&c, FrameDirection::Response, &frame),
        Err(WireError::BadEncryptedCapability)
    ));
    assert!(matches!(
        read_encrypted_frame(
            &c,
            FrameDirection::Request,
            "JRG-ENC/0.1\nContent-Encryption: xchacha20poly1305; key-id=k1\nNonce: AA==\nContent-Length: 10485761\n\n"
        ),
        Err(WireError::PayloadTooLarge)
    ));
    assert!(matches!(
        read_encrypted_frame(
            &c,
            FrameDirection::Request,
            "JRG-ENC/0.1\nContent-Encryption: xchacha20poly1305; key-id=k1\nNonce: AA==\nContent-Length: 50\n\nabc"
        ),
        Err(WireError::Io(_))
    ));
}

#[test]
fn client_frame_errors_are_told_apart() {
    assert!(is_client_frame_error(&WireError::BadEncryptedFrame));
    assert!(is_client_frame_error(&WireError::BadEncryptedCapability));
    assert!(is_client_frame_error(&WireError::Encryption(EncryptionError::Decrypt)));
    assert!(!is_client_frame_error(&WireError::PayloadTooLarge));
    assert!(!is_client_frame_error(&WireError::BadRequest));
}
