use pty_host::frame::{encode_frame, split_message, FrameDecoder};

#[test]
fn frame_encode_length_prefix() {
    let payload = b"hello";
    let frame = encode_frame(payload);
    assert_eq!(frame.len(), 4 + 5);
    assert_eq!(&frame[0..4], &[0, 0, 0, 5]);
    assert_eq!(&frame[4..], b"hello");
}

#[test]
fn frame_encode_empty_payload() {
    let frame = encode_frame(b"");
    assert_eq!(frame.len(), 4);
    assert_eq!(&frame[0..4], &[0, 0, 0, 0]);
}

#[test]
fn frame_round_trip() {
    let original = b"test payload with various \x00\x01\x02 bytes";
    let frame = encode_frame(original);

    let len = u32::from_be_bytes([frame[0], frame[1], frame[2], frame[3]]) as usize;
    let decoded = &frame[4..4 + len];
    assert_eq!(decoded, original);
}

#[test]
fn frame_multiple_in_buffer() {
    let frame1 = encode_frame(b"first");
    let frame2 = encode_frame(b"second");
    let mut combined = Vec::new();
    combined.extend_from_slice(&frame1);
    combined.extend_from_slice(&frame2);

    let len1 = u32::from_be_bytes([combined[0], combined[1], combined[2], combined[3]]) as usize;
    let payload1 = &combined[4..4 + len1];
    assert_eq!(payload1, b"first");

    let offset = 4 + len1;
    let len2 = u32::from_be_bytes([
        combined[offset],
        combined[offset + 1],
        combined[offset + 2],
        combined[offset + 3],
    ]) as usize;
    let payload2 = &combined[offset + 4..offset + 4 + len2];
    assert_eq!(payload2, b"second");
}

#[test]
fn frame_large_payload() {
    let payload = vec![0xAA; 100_000];
    let frame = encode_frame(&payload);
    let len = u32::from_be_bytes([frame[0], frame[1], frame[2], frame[3]]) as usize;
    assert_eq!(len, 100_000);
    assert_eq!(&frame[4..], &payload[..]);
}

#[test]
fn decoder_gives_back_what_was_encoded() {
    let payloads: [&[u8]; 4] = [b"", b"x", b"\x00\x01\x02", b"a longer payload \xff\xfe"];
    for payload in payloads.iter() {
        let mut decoder = FrameDecoder::new();
        decoder.feed(&encode_frame(payload));
        assert_eq!(decoder.next_frame().unwrap(), payload.to_vec());
        assert_eq!(decoder.pending_len(), 0);
        assert!(decoder.next_frame().is_none());
    }
    let big = vec![7u8; 70_000];
    let mut decoder = FrameDecoder::new();
    decoder.feed(&encode_frame(&big));
    assert_eq!(decoder.next_frame().unwrap(), big);
}

#[test]
fn decoder_waits_for_the_whole_frame() {
    let frame = encode_frame(b"hello");
    let mut decoder = FrameDecoder::new();
    for (i, byte) in frame.iter().enumerate() {
        assert!(decoder.next_frame().is_none());
        assert_eq!(decoder.pending_len(), i);
        decoder.feed(&[*byte]);
    }
    assert_eq!(decoder.next_frame().unwrap(), b"hello");
    assert_eq!(decoder.pending_len(), 0);
}

#[test]
fn decoder_keeps_what_follows_a_frame() {
    let mut bytes = encode_frame(b"first");
    bytes.extend_from_slice(&encode_frame(b"second"));
    bytes.extend_from_slice(&[0, 0, 0, 9, 1]);
    let mut decoder = FrameDecoder::new();
    decoder.feed(&bytes);
    assert_eq!(decoder.next_frame().unwrap(), b"first");
    assert_eq!(decoder.next_frame().unwrap(), b"second");
    assert!(decoder.next_frame().is_none());
    assert_eq!(decoder.pending_len(), 5);
}

#[test]
fn decoder_reads_the_length_big_endian() {
    let mut decoder = FrameDecoder::new();
    let mut bytes = vec![0, 0, 1, 2];
    bytes.extend_from_slice(&vec![9u8; 258]);
    decoder.feed(&bytes[..261]);
    assert!(decoder.next_frame().is_none());
    decoder.feed(&bytes[261..]);
    assert_eq!(decoder.next_frame().unwrap().len(), 258);
    let mut decoder = FrameDecoder::new();
    decoder.feed(&[0xff, 0xff, 0xff, 0xff, 1, 2, 3]);
    assert!(decoder.next_frame().is_none());
    assert_eq!(decoder.pending_len(), 7);
}

#[test]
fn next_message_passes_over_empty_frames() {
    let mut bytes = encode_frame(b"");
    bytes.extend_from_slice(&encode_frame(b""));
    bytes.extend_from_slice(&encode_frame(b"\x00abc"));
    bytes.extend_from_slice(&encode_frame(b"\x01"));
    let mut decoder = FrameDecoder::new();
    decoder.feed(&bytes);
    assert_eq!(decoder.next_message().unwrap(), (0u8, b"abc".to_vec()));
    assert_eq!(decoder.next_message().unwrap(), (1u8, Vec::new()));
    assert!(decoder.next_message().is_none());
    decoder.feed(&encode_frame(b""));
    assert!(decoder.next_message().is_none());
    assert_eq!(decoder.pending_len(), 0);
}

#[test]
fn split_message_takes_the_type_byte() {
    assert!(split_message(b"").is_none());
    assert_eq!(split_message(b"\x10").unwrap(), (0x10u8, Vec::new()));
    assert_eq!(split_message(b"\x00hi").unwrap(), (0u8, b"hi".to_vec()));
}
