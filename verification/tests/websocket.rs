use websocket_benchmark::websocket::{
    create_ping_frame, FrameError, WebSocketFrame, OPCODE_BINARY, OPCODE_CLOSE, OPCODE_PING,
    OPCODE_PONG, OPCODE_TEXT,
};

#[test]
fn test_create_text_frame() {
    let frame = WebSocketFrame::create_text_frame(b"Hello");

    // Should have at least 2 bytes (header) + 4 (mask) + 5 (payload)
    assert!(frame.len() >= 11);

    // First byte should be 0x81 (FIN + Text frame)
    assert_eq!(frame[0], 0x81);

    // Second byte should have mask bit set
    assert!(frame[1] & 0x80 != 0);
}

#[test]
fn test_ping_frame() {
    let frame = create_ping_frame();

    // Should create a valid frame
    assert!(!frame.is_empty());
    assert_eq!(frame[0], 0x81);
}

#[test]
fn test_parse_frame() {
    let original = b"Test message";
    let frame_data = WebSocketFrame::create_text_frame(original);

    let frame = WebSocketFrame::parse_frame(&frame_data).unwrap();

    assert_eq!(frame.fin, true);
    assert_eq!(frame.opcode, 1); // Text frame
    assert_eq!(frame.payload, original.to_vec());
}

#[test]
fn test_large_frame() {
    let large_payload = vec![0x42u8; 1000];
    let frame_data = WebSocketFrame::create_text_frame(&large_payload);

    let frame = WebSocketFrame::parse_frame(&frame_data).unwrap();

    assert_eq!(frame.payload.len(), 1000);
    assert_eq!(frame.payload, large_payload);
}

fn payload_of(len: usize) -> Vec<u8> {
    (0..len).map(|i| (i * 7 + 3) as u8).collect()
}

#[test]
fn round_trip_at_every_length_boundary() {
    for len in [0usize, 1, 125, 126, 127, 65535, 65536] {
        for opcode in [OPCODE_TEXT, OPCODE_BINARY, OPCODE_CLOSE, OPCODE_PING, OPCODE_PONG] {
            let payload = payload_of(len);
            let data = WebSocketFrame::create_frame(opcode, &payload);
            let frame = WebSocketFrame::parse_frame(&data).unwrap();
            assert_eq!(frame.payload, payload);
            assert_eq!(frame.opcode, opcode);
            assert_eq!(frame.payload_len, len as u64);
            assert!(frame.fin);
            assert!(frame.masked);
            assert!(!frame.rsv1 && !frame.rsv2 && !frame.rsv3);
            assert!(frame.masking_key.is_some());
        }
    }
}

#[test]
fn encoded_length_field_has_the_right_width() {
    let key = [1u8, 2, 3, 4];
    assert_eq!(WebSocketFrame::encode_frame(1, &payload_of(0), key).len(), 6);
    assert_eq!(WebSocketFrame::encode_frame(1, &payload_of(125), key).len(), 2 + 4 + 125);
    assert_eq!(WebSocketFrame::encode_frame(1, &payload_of(126), key).len(), 4 + 4 + 126);
    assert_eq!(WebSocketFrame::encode_frame(1, &payload_of(65535), key).len(), 4 + 4 + 65535);
    assert_eq!(WebSocketFrame::encode_frame(1, &payload_of(65536), key).len(), 10 + 4 + 65536);
}

#[test]
fn encode_gives_the_exact_bytes() {
    let frame = WebSocketFrame::encode_frame(1, b"PING", [0x10, 0x20, 0x30, 0x40]);
    assert_eq!(
        frame,
        vec![0x81, 0x84, 0x10, 0x20, 0x30, 0x40, 0x50 ^ 0x10, 0x49 ^ 0x20, 0x4E ^ 0x30, 0x47 ^ 0x40]
    );
}

#[test]
fn encode_writes_big_endian_lengths() {
    let key = [0u8; 4];
    let medium = WebSocketFrame::encode_frame(2, &payload_of(300), key);
    assert_eq!(&medium[..4], &[0x82, 0xFE, 0x01, 0x2C]);
    let large = WebSocketFrame::encode_frame(2, &payload_of(65536), key);
    assert_eq!(&large[..10], &[0x82, 0xFF, 0, 0, 0, 0, 0, 1, 0, 0]);
    assert_eq!(&large[14..], &payload_of(65536)[..]);
}

#[test]
fn encode_keeps_only_four_opcode_bits() {
    let frame = WebSocketFrame::encode_frame(0x81, b"", [0; 4]);
    assert_eq!(frame[0], 0x81);
    let frame = WebSocketFrame::encode_frame(0x7A, b"", [0; 4]);
    assert_eq!(frame[0], 0x8A);
}

#[test]
fn every_created_frame_is_masked() {
    for len in [0usize, 5, 126, 70000] {
        let frame = WebSocketFrame::create_frame(OPCODE_BINARY, &payload_of(len));
        assert_eq!(frame[1] & 0x80, 0x80);
    }
}

#[test]
fn masking_keys_differ_between_calls() {
    let keys: Vec<Vec<u8>> =
        (0..8).map(|_| WebSocketFrame::create_text_frame(b"x")[2..6].to_vec()).collect();
    assert!(keys.iter().any(|key| key != &keys[0]));
}

#[test]
fn ping_frame_carries_the_ping_message() {
    let data = create_ping_frame();
    assert_eq!(data.len(), 10);
    assert_eq!(data[1], 0x84);
    let frame = WebSocketFrame::parse_frame(&data).unwrap();
    assert_eq!(frame.payload, b"PING".to_vec());
    assert_eq!(frame.opcode, OPCODE_TEXT);
}

#[test]
fn decode_reports_too_short() {
    assert_eq!(WebSocketFrame::parse_frame(&[]).unwrap_err(), FrameError::TooShort);
    assert_eq!(WebSocketFrame::parse_frame(&[0x81]).unwrap_err(), FrameError::TooShort);
}

#[test]
fn decode_reports_cut_extended_length() {
    assert_eq!(
        WebSocketFrame::parse_frame(&[0x81, 126]).unwrap_err(),
        FrameError::ExtendedLengthIncomplete
    );
    assert_eq!(
        WebSocketFrame::parse_frame(&[0x81, 126, 0]).unwrap_err(),
        FrameError::ExtendedLengthIncomplete
    );
    assert_eq!(
        WebSocketFrame::parse_frame(&[0x81, 127, 0, 0, 0, 0, 0, 0, 0]).unwrap_err(),
        FrameError::ExtendedLengthIncomplete
    );
    assert_eq!(
        WebSocketFrame::parse_frame(&[0x81, 0x80 | 127, 0, 0]).unwrap_err(),
        FrameError::ExtendedLengthIncomplete
    );
}

#[test]
fn decode_reports_cut_masking_key() {
    assert_eq!(
        WebSocketFrame::parse_frame(&[0x81, 0x80, 1, 2, 3]).unwrap_err(),
        FrameError::MaskingKeyIncomplete
    );
    assert_eq!(
        WebSocketFrame::parse_frame(&[0x81, 0x80 | 126, 0, 5, 1, 2, 3]).unwrap_err(),
        FrameError::MaskingKeyIncomplete
    );
}

#[test]
fn decode_reports_cut_payload() {
    assert_eq!(
        WebSocketFrame::parse_frame(&[0x81, 3, b'a', b'b']).unwrap_err(),
        FrameError::PayloadIncomplete
    );
    assert_eq!(
        WebSocketFrame::parse_frame(&[0x81, 0x81, 1, 2, 3, 4]).unwrap_err(),
        FrameError::PayloadIncomplete
    );
    let huge = [0x82, 127, 0xFF, 0xFF, 0xFF, 0xFF, 0xFF, 0xFF, 0xFF, 0xFF, 1, 2, 3];
    assert_eq!(WebSocketFrame::parse_frame(&huge).unwrap_err(), FrameError::PayloadIncomplete);
}

#[test]
fn decode_reads_an_unmasked_frame() {
    let frame = WebSocketFrame::parse_frame(&[0x8A, 2, 0xAA, 0xBB, 0xCC]).unwrap();
    assert!(frame.fin);
    assert_eq!(frame.opcode, OPCODE_PONG);
    assert!(!frame.masked);
    assert_eq!(frame.masking_key, None);
    assert_eq!(frame.payload_len, 2);
    assert_eq!(frame.payload, vec![0xAA, 0xBB]);
}

#[test]
fn decode_unmasks_with_the_key() {
    let data = [0x82, 0x85, 1, 2, 3, 4, 1 ^ 10, 2 ^ 20, 3 ^ 30, 4 ^ 40, 1 ^ 50];
    let frame = WebSocketFrame::parse_frame(&data).unwrap();
    assert_eq!(frame.masking_key, Some([1, 2, 3, 4]));
    assert_eq!(frame.payload, vec![10, 20, 30, 40, 50]);
}

#[test]
fn decode_surfaces_reserved_bits_and_unknown_opcodes() {
    let frame = WebSocketFrame::parse_frame(&[0x7F, 0]).unwrap();
    assert!(!frame.fin);
    assert!(frame.rsv1 && frame.rsv2 && frame.rsv3);
    assert_eq!(frame.opcode, 0x0F);
    let frame = WebSocketFrame::parse_frame(&[0x23, 0]).unwrap();
    assert!(!frame.rsv1 && frame.rsv2 && !frame.rsv3);
    assert_eq!(frame.opcode, 3);
}

#[test]
fn decode_reads_extended_lengths() {
    let mut data = vec![0x82, 126, 0x01, 0x00];
    data.extend(payload_of(256));
    data.push(0xEE);
    let frame = WebSocketFrame::parse_frame(&data).unwrap();
    assert_eq!(frame.payload_len, 256);
    assert_eq!(frame.payload, payload_of(256));

    let mut data = vec![0x82, 127, 0, 0, 0, 0, 0, 1, 0, 1];
    data.extend(payload_of(65537));
    let frame = WebSocketFrame::parse_frame(&data).unwrap();
    assert_eq!(frame.payload_len, 65537);
    assert_eq!(frame.payload, payload_of(65537));
}

#[test]
fn frame_errors_describe_themselves() {
    assert_eq!(FrameError::TooShort.message(), "Frame too short");
    assert_eq!(FrameError::ExtendedLengthIncomplete.message(), "Extended length incomplete");
    assert_eq!(FrameError::MaskingKeyIncomplete.message(), "Masking key incomplete");
    assert_eq!(FrameError::PayloadIncomplete.message(), "Payload incomplete");
}
