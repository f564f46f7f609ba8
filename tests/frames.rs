use ktls_uring::{
    decode_frame, encode_close_frame, encode_frame, encode_frame_with_key, encode_text_frame,
    mask_key_from_clock, parse_frame_header, FrameHeader, Message, Opcode,
};

fn payload_of(len: usize) -> Vec<u8> {
    (0..len).map(|i| (i % 251) as u8).collect()
}

#[test]
fn masked_frames_round_trip_for_all_length_encodings() {
    for len in [0usize, 1, 125, 126, 1000, 65535, 65536] {
        let payload = payload_of(len);
        let frame = encode_frame(Opcode::Binary, &payload, true);
        match decode_frame(&frame) {
            Some((Message::Binary(p), used)) => {
                assert_eq!(p, payload);
                assert_eq!(used, frame.len());
            }
            other => panic!("length {len}: unexpected {other:?}"),
        }
        let header = parse_frame_header(&frame).unwrap();
        assert_eq!(header.opcode, Opcode::Binary);
        assert_eq!(header.payload_len, len);
    }
}

#[test]
fn text_frame_round_trip() {
    let frame = encode_text_frame("Hello from ktls-uring-demo!");
    match decode_frame(&frame) {
        Some((Message::Text(t), used)) => {
            assert_eq!(t, "Hello from ktls-uring-demo!");
            assert_eq!(used, frame.len());
        }
        other => panic!("unexpected {other:?}"),
    }
}

#[test]
fn truncated_frames_are_incomplete() {
    for len in [0usize, 5, 126, 70000] {
        let frame = encode_frame(Opcode::Text, &payload_of(len), true);
        for cut in [0usize, 1, 2, 3, 5, 9, 13, frame.len() - 1] {
            if cut < frame.len() {
                assert!(decode_frame(&frame[..cut]).is_none(), "len {len} cut {cut}");
            }
        }
        assert!(decode_frame(&frame).is_some());
    }
}

#[test]
fn incomplete_buffer_keeps_input_untouched() {
    let frame = encode_frame(Opcode::Binary, &payload_of(300), true);
    let short = frame[..100].to_vec();
    assert!(decode_frame(&short).is_none());
    assert_eq!(short, frame[..100].to_vec());
}

#[test]
fn close_frame_with_reason_round_trip() {
    let frame = encode_frame(Opcode::Close, &[0x03, 0xE8, b'b', b'y', b'e'], true);
    match decode_frame(&frame) {
        Some((Message::Close(Some((code, reason))), _)) => {
            assert_eq!(code, 1000);
            assert_eq!(reason, "bye");
        }
        other => panic!("unexpected {other:?}"),
    }
}

#[test]
fn close_frame_with_code_only() {
    let frame = encode_close_frame(Some(1000));
    assert_eq!(frame.len(), 8);
    assert_eq!(frame[0], 0x88);
    assert_eq!(frame[1], 0x82);
    match decode_frame(&frame) {
        Some((Message::Close(Some((1000, reason))), 8)) => assert_eq!(reason, ""),
        other => panic!("unexpected {other:?}"),
    }
}

#[test]
fn close_frame_without_code() {
    let frame = encode_close_frame(None);
    assert_eq!(frame.len(), 6);
    assert!(matches!(decode_frame(&frame), Some((Message::Close(None), 6))));
}

#[test]
fn exact_bytes_of_short_masked_frame() {
    let frame = encode_frame_with_key(Opcode::Text, b"Hi", Some([1, 2, 3, 4]));
    assert_eq!(frame, vec![0x81, 0x82, 1, 2, 3, 4, b'H' ^ 1, b'i' ^ 2]);
}

#[test]
fn exact_bytes_of_unmasked_frame() {
    let frame = encode_frame_with_key(Opcode::Ping, &[7, 8], None);
    assert_eq!(frame, vec![0x89, 0x02, 7, 8]);
    let frame = encode_frame(Opcode::Pong, &[9], false);
    assert_eq!(frame, vec![0x8A, 0x01, 9]);
}

#[test]
fn sixteen_bit_length_field() {
    let frame = encode_frame_with_key(Opcode::Binary, &payload_of(126), None);
    assert_eq!(&frame[..4], &[0x82, 126, 0x00, 126]);
    assert_eq!(frame.len(), 4 + 126);
    let frame = encode_frame_with_key(Opcode::Binary, &payload_of(65535), Some([0, 0, 0, 0]));
    assert_eq!(&frame[..4], &[0x82, 0xFE, 0xFF, 0xFF]);
    assert_eq!(frame.len(), 8 + 65535);
}

#[test]
fn sixty_four_bit_length_field() {
    let frame = encode_frame_with_key(Opcode::Binary, &payload_of(65536), None);
    assert_eq!(&frame[..10], &[0x82, 127, 0, 0, 0, 0, 0, 1, 0, 0]);
    assert_eq!(frame.len(), 10 + 65536);
}

#[test]
fn masked_server_frame_is_unmasked() {
    let frame = vec![0x82, 0x83, 0x10, 0x20, 0x30, 0x40, 1 ^ 0x10, 2 ^ 0x20, 3 ^ 0x30];
    match decode_frame(&frame) {
        Some((Message::Binary(p), 9)) => assert_eq!(p, vec![1, 2, 3]),
        other => panic!("unexpected {other:?}"),
    }
}

#[test]
fn ping_pong_and_continuation_decode() {
    assert!(matches!(decode_frame(&[0x89, 0x01, 5]), Some((Message::Ping(ref p), 3)) if p == &vec![5]));
    assert!(matches!(decode_frame(&[0x8A, 0x00]), Some((Message::Pong(ref p), 2)) if p.is_empty()));
    assert!(matches!(decode_frame(&[0x00, 0x01, 6]), Some((Message::Binary(ref p), 3)) if p == &vec![6]));
}

#[test]
fn decode_ignores_bytes_after_the_frame() {
    let mut data = vec![0x81, 0x02, b'o', b'k'];
    data.extend_from_slice(&[0x81, 0x05, b'x']);
    match decode_frame(&data) {
        Some((Message::Text(t), 4)) => assert_eq!(t, "ok"),
        other => panic!("unexpected {other:?}"),
    }
}

#[test]
fn invalid_text_is_decoded_lossily() {
    match decode_frame(&[0x81, 0x03, b'a', 0xFF, b'b']) {
        Some((Message::Text(t), 5)) => assert_eq!(t, "a\u{FFFD}b"),
        other => panic!("unexpected {other:?}"),
    }
}

#[test]
fn header_parsing() {
    assert_eq!(parse_frame_header(&[0x81]), None);
    assert_eq!(parse_frame_header(&[0x83, 0x00]), None);
    assert_eq!(parse_frame_header(&[0x82, 0xFE, 0x01]), None);
    assert_eq!(
        parse_frame_header(&[0x82, 0xFE, 0x01, 0x00]),
        Some(FrameHeader { opcode: Opcode::Binary, payload_len: 256, header_len: 8 })
    );
    assert_eq!(
        parse_frame_header(&[0x81, 0x05]),
        Some(FrameHeader { opcode: Opcode::Text, payload_len: 5, header_len: 2 })
    );
    assert_eq!(parse_frame_header(&[0x82, 0x7F, 0, 0, 0, 0, 0, 1]), None);
}

#[test]
fn opcode_values() {
    assert_eq!(Opcode::from_u8(0x8), Some(Opcode::Close));
    assert_eq!(Opcode::from_u8(0x3), None);
    assert_eq!(Opcode::Pong.as_u8(), 0xA);
}

#[test]
fn mask_key_from_clock_takes_low_bytes() {
    assert_eq!(mask_key_from_clock(0x0908_0706_0504_0302_01), [0x01, 0x02, 0x03, 0x04]);
}
