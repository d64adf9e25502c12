use jaringan::protocol::{
    read_response, write_response, ContentType, EncryptionCapability, EncryptionError, EncryptionSuite,
    Response, ResponseTag, StatusCode, WireError,
};

#[test]
fn exposes_status_numbers() {
    assert_eq!(StatusCode::Success.as_u16(), 200);
    assert_eq!(StatusCode::NotFound.as_u16(), 404);
}

#[test]
fn encryption_capabilities_serialize_to_headers() {
    let capability = EncryptionCapability::xchacha20_poly1305("key-2026");

    assert_eq!(capability.to_header_value(), "xchacha20poly1305; key-id=key-2026");
    assert_eq!(
        EncryptionCapability::from_header_value("xchacha20poly1305; key-id=key-2026").unwrap(),
        capability
    );
}

#[test]
fn capability_header_reading_rejects_missing_or_empty_key_ids() {
    assert_eq!(
        EncryptionCapability::from_header_value("aes; key-id=k").unwrap_err(),
        EncryptionError::BadCapability
    );
    assert_eq!(
        EncryptionCapability::from_header_value("xchacha20poly1305").unwrap_err(),
        EncryptionError::BadCapability
    );
    assert_eq!(
        EncryptionCapability::from_header_value("xchacha20poly1305; key-id=  ").unwrap_err(),
        EncryptionError::BadCapability
    );
    let c = EncryptionCapability::from_header_value(" XChaCha20Poly1305 ;other=1; key-id=a ;key-id= b ").unwrap();
    assert_eq!(c.suite, EncryptionSuite::XChaCha20Poly1305);
    assert_eq!(c.key_id, "b");
}

#[test]
fn status_codes_read_back_from_their_numbers() {
    for code in [200u16, 301, 302, 303, 304, 400, 403, 404, 409, 410, 422, 429, 500, 501, 502, 503] {
        let s = StatusCode::from_u16(code).unwrap();
        assert_eq!(s.as_u16(), code);
    }
    assert_eq!(StatusCode::from_u16(201), None);
    assert_eq!(StatusCode::ServerError.reason_phrase(), "Internal Server Error");
}

#[test]
fn content_types_ignore_parameters() {
    assert_eq!(ContentType::from_header(" text/jaringan ; x=y"), Some(ContentType::JaringanPage));
    assert_eq!(ContentType::from_header(ContentType::JrgStream.as_str()), Some(ContentType::JrgStream));
    assert_eq!(ContentType::from_header("text/html"), None);
}

#[test]
fn responses_are_written_and_read_back() {
    let response = Response::page(StatusCode::Success, "# Home\n\nBody text\n".to_string())
        .with_tag(ResponseTag::Redirect { target: "/next".into() })
        .with_tag(ResponseTag::Stream)
        .with_tag(ResponseTag::Key { key_id: "k1".into(), key_base64: "QUJD".into() })
        .with_tag(ResponseTag::ContentType { value: "text/html".into() });
    let wire = write_response(&response);
    assert_eq!(
        wire,
        "JRG/0.1 200 OK\nContent-Type: text/jrg; charset=utf-8\nTag-Redirect: /next\nTag-Stream: true\nTag-Key: k1 ed25519:QUJD\nTag-ContentType: text/html\n\n# Home\n\nBody text\n"
    );
    assert_eq!(read_response(&wire).unwrap(), response);
}

#[test]
fn malformed_responses_are_rejected() {
    assert!(matches!(read_response("JRG/0.1 200 OK\nContent-Type: text/plain\n"), Err(WireError::BadResponse)));
    assert!(matches!(read_response("HTTP/1.1 200 OK\nContent-Type: text/plain\n\nx"), Err(WireError::BadResponse)));
    assert!(matches!(read_response("JRG/0.1 299 Odd\nContent-Type: text/plain\n\nx"), Err(WireError::BadResponse)));
    assert!(matches!(read_response("JRG/0.1 200 OK\n\nx"), Err(WireError::BadResponse)));
    let r = read_response("JRG/0.1 +404\nContent-Type: text/plain\n\nmissing").unwrap();
    assert_eq!(r.status, StatusCode::NotFound);
    assert_eq!(r.body, "missing");
}

#[test]
fn key_ids_with_a_tab_are_read_back() {
    let response = Response::page(StatusCode::Success, "x".to_string())
        .with_tag(ResponseTag::Key { key_id: "k\t1".into(), key_base64: "QUJD".into() });
    assert_eq!(read_response(&write_response(&response)).unwrap(), response);
}
