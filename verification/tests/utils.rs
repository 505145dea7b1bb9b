use websocket_benchmark::utils::{
    base64_decode, base64_encode, generate_websocket_key, try_base64_encode, websocket_key_of,
    Base64Error,
};

#[test]
fn test_websocket_key_generation() {
    let key1 = generate_websocket_key();
    let key2 = generate_websocket_key();

    // Keys should be different
    assert_ne!(key1, key2);

    // Keys should be valid base64 (24 chars for 16 bytes)
    assert_eq!(key1.len(), 24);
    assert_eq!(key2.len(), 24);
}

#[test]
fn test_base64_roundtrip() {
    let original = b"Hello, World!";
    let encoded = base64_encode(original);
    let decoded = base64_decode(&encoded).unwrap();

    assert_eq!(original.to_vec(), decoded);
}

#[test]
fn base64_encodes_with_padding() {
    assert_eq!(base64_encode(b""), "");
    assert_eq!(base64_encode(b"f"), "Zg==");
    assert_eq!(base64_encode(b"fo"), "Zm8=");
    assert_eq!(base64_encode(b"foo"), "Zm9v");
    assert_eq!(base64_encode(b"Hello, World!"), "SGVsbG8sIFdvcmxkIQ==");
    assert_eq!(try_base64_encode(&[0xFB, 0xFF]).unwrap(), "+/8=");
}

#[test]
fn base64_decodes_what_it_accepts() {
    assert_eq!(base64_decode("Zm9vYmFy").unwrap(), b"foobar".to_vec());
    assert_eq!(base64_decode("").unwrap(), Vec::<u8>::new());
}

#[test]
fn base64_reports_why_it_rejects() {
    assert_eq!(base64_decode("Zm9v!A==").unwrap_err(), Base64Error::InvalidByte { offset: 4, byte: b'!' });
    assert_eq!(base64_decode("Zg").unwrap_err(), Base64Error::InvalidPadding);
    assert_eq!(base64_decode("Z").unwrap_err(), Base64Error::InvalidLength { length: 1 });
    assert_eq!(
        base64_decode("Zh==").unwrap_err(),
        Base64Error::InvalidLastSymbol { offset: 1, byte: b'h' }
    );
}

#[test]
fn websocket_key_is_the_base64_of_sixteen_bytes() {
    let material = [7u8; 16];
    let key = websocket_key_of(&material).unwrap();
    assert_eq!(key, base64_encode(&material));
    assert_eq!(key.len(), 24);
    assert_eq!(base64_decode(&key).unwrap(), material.to_vec());
    assert_eq!(websocket_key_of(&[1, 2, 3]), None);
    assert_eq!(base64_decode(&generate_websocket_key()).unwrap().len(), 16);
}
