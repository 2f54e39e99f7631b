use nwd1_quic::{
    encode_frame, recv_frame, send_frame, Frame, MemoryStream, RecvError, StreamReset,
};

fn wire_with_header(magic: &[u8; 4], len: u32, body: &[u8]) -> Vec<u8> {
    let mut wire = magic.to_vec();
    wire.extend_from_slice(&len.to_be_bytes());
    wire.extend_from_slice(body);
    wire
}

fn numbered_frame(n: u64) -> Frame {
    Frame { id: n, kind: (n % 251) as u8, ver: n * 3, payload: vec![n as u8; (n % 40) as usize] }
}

#[test]
fn ping_payload_is_received_and_its_frame_consumed_whole() {
    let frame = Frame { id: 5, kind: 1, ver: 1, payload: b"ping".to_vec() };
    let mut wire = encode_frame(&frame);
    let frame_len = wire.len();
    assert_eq!(frame_len, 8 + 17 + 4);
    wire.extend_from_slice(b"what follows");
    let mut stream = MemoryStream::from_bytes(wire);
    let received = recv_frame(&mut stream).unwrap().unwrap();
    assert_eq!(received.payload, b"ping".to_vec());
    assert_eq!(received, frame);
    assert_eq!(stream.unread_len(), b"what follows".len());
}

#[test]
fn four_byte_body_is_consumed_whole_and_is_no_frame() {
    let mut wire = wire_with_header(b"NWD1", 0x0000_0004, b"ping");
    wire.extend_from_slice(b"next");
    let mut stream = MemoryStream::from_bytes(wire);
    assert_eq!(recv_frame(&mut stream), Err(RecvError::DecodeFailed));
    // exactly 12 bytes consumed: the cursor stands at the next frame
    assert_eq!(stream.unread_len(), 4);
}

#[test]
fn bad_magic_is_refused_before_the_body() {
    let wire = wire_with_header(b"XXXX", 0x0000_0004, b"ping");
    let mut stream = MemoryStream::from_bytes(wire);
    assert_eq!(recv_frame(&mut stream), Err(RecvError::BadMagic));
    // 0 body bytes consumed
    assert_eq!(stream.unread_len(), 4);
}

#[test]
fn bad_magic_wins_over_an_oversized_length() {
    let wire = wire_with_header(b"NWD2", 0xFFFF_FFFF, b"");
    let mut stream = MemoryStream::from_bytes(wire);
    assert_eq!(recv_frame(&mut stream), Err(RecvError::BadMagic));
}

#[test]
fn bad_magic_in_each_position() {
    for i in 0..4 {
        let mut magic = *b"NWD1";
        magic[i] ^= 0x20;
        let wire = wire_with_header(&magic, 17, &[0u8; 17]);
        let mut stream = MemoryStream::from_bytes(wire);
        assert_eq!(recv_frame(&mut stream), Err(RecvError::BadMagic));
        assert_eq!(stream.unread_len(), 17);
    }
}

#[test]
fn declared_length_of_nine_million_is_too_large() {
    let mut wire = wire_with_header(b"NWD1", 9_000_000, b"");
    wire.extend_from_slice(&[7u8; 100]);
    let mut stream = MemoryStream::from_bytes(wire);
    assert_eq!(recv_frame(&mut stream), Err(RecvError::FrameTooLarge));
    // no body read attempted
    assert_eq!(stream.unread_len(), 100);
}

#[test]
fn length_limit_is_inclusive() {
    let at_limit = wire_with_header(b"NWD1", 8_388_608, b"");
    let mut stream = MemoryStream::from_bytes(at_limit);
    // accepted header, missing body
    assert_eq!(recv_frame(&mut stream), Err(RecvError::TruncatedFrame));

    let over = wire_with_header(b"NWD1", 8_388_609, b"");
    let mut stream = MemoryStream::from_bytes(over);
    assert_eq!(recv_frame(&mut stream), Err(RecvError::FrameTooLarge));

    let largest = wire_with_header(b"NWD1", u32::MAX, b"");
    let mut stream = MemoryStream::from_bytes(largest);
    assert_eq!(recv_frame(&mut stream), Err(RecvError::FrameTooLarge));
}

#[test]
fn frames_sent_back_to_back_are_received_in_order_then_the_clean_end() {
    for n in [0u64, 1, 2, 3, 50] {
        let mut stream = MemoryStream::new();
        for i in 0..n {
            assert_eq!(send_frame(&mut stream, &numbered_frame(i)), Ok(()));
        }
        for i in 0..n {
            assert_eq!(recv_frame(&mut stream), Ok(Some(numbered_frame(i))));
        }
        assert_eq!(recv_frame(&mut stream), Ok(None));
        assert_eq!(stream.unread_len(), 0);
    }
}

#[test]
fn empty_stream_is_the_clean_end() {
    let mut stream = MemoryStream::new();
    assert_eq!(recv_frame(&mut stream), Ok(None));
    assert_eq!(recv_frame(&mut stream), Ok(None));
    let mut stream = MemoryStream::from_bytes(Vec::new());
    assert_eq!(recv_frame(&mut stream), Ok(None));
}

#[test]
fn one_to_seven_header_bytes_are_a_truncated_frame() {
    let whole = encode_frame(&numbered_frame(9));
    for k in 1..8 {
        let mut stream = MemoryStream::from_bytes(whole[..k].to_vec());
        assert_eq!(recv_frame(&mut stream), Err(RecvError::TruncatedFrame));
        assert_eq!(stream.unread_len(), 0);
    }
}

#[test]
fn incomplete_body_is_a_truncated_frame() {
    let whole = encode_frame(&numbered_frame(30));
    let body_len = whole.len() - 8;
    assert_eq!(body_len, 17 + 30);
    for delivered in 0..body_len {
        let mut stream = MemoryStream::from_bytes(whole[..8 + delivered].to_vec());
        assert_eq!(recv_frame(&mut stream), Err(RecvError::TruncatedFrame));
    }
    let mut stream = MemoryStream::from_bytes(whole);
    assert_eq!(recv_frame(&mut stream), Ok(Some(numbered_frame(30))));
}

#[test]
fn truncation_after_whole_frames_is_reported_after_them() {
    let mut wire = encode_frame(&numbered_frame(1));
    wire.extend_from_slice(&encode_frame(&numbered_frame(2)));
    wire.extend_from_slice(&encode_frame(&numbered_frame(3))[..20]);
    let mut stream = MemoryStream::from_bytes(wire);
    assert_eq!(recv_frame(&mut stream), Ok(Some(numbered_frame(1))));
    assert_eq!(recv_frame(&mut stream), Ok(Some(numbered_frame(2))));
    assert_eq!(recv_frame(&mut stream), Err(RecvError::TruncatedFrame));
}

#[test]
fn body_shorter_than_the_fixed_fields_fails_to_decode() {
    for len in [0u32, 1, 8, 9, 16] {
        let mut wire = wire_with_header(b"NWD1", len, &vec![0u8; len as usize]);
        wire.extend_from_slice(&encode_frame(&numbered_frame(4)));
        let mut stream = MemoryStream::from_bytes(wire);
        assert_eq!(recv_frame(&mut stream), Err(RecvError::DecodeFailed));
        // the cursor stands at the next frame, which can still be read
        assert_eq!(recv_frame(&mut stream), Ok(Some(numbered_frame(4))));
        assert_eq!(recv_frame(&mut stream), Ok(None));
    }
}

#[test]
fn body_of_exactly_the_fixed_fields_is_a_frame_without_payload() {
    let mut body = vec![0u8; 17];
    body[7] = 9; // identifier, low byte
    body[8] = 4; // kind
    body[16] = 2; // version, low byte
    let mut stream = MemoryStream::from_bytes(wire_with_header(b"NWD1", 17, &body));
    let expected = Frame { id: 9, kind: 4, ver: 2, payload: Vec::new() };
    assert_eq!(recv_frame(&mut stream), Ok(Some(expected)));
}

#[test]
fn reset_stream_fails_where_a_closed_one_ends() {
    let whole = encode_frame(&numbered_frame(12));
    for cut in [0usize, 3, 8, 20] {
        let mut stream = MemoryStream::from_bytes(whole[..cut].to_vec());
        stream.reset(77);
        assert_eq!(
            recv_frame(&mut stream),
            Err(RecvError::Transport(StreamReset { code: 77 }))
        );
    }
    let mut stream = MemoryStream::from_bytes(whole);
    stream.reset(77);
    assert_eq!(recv_frame(&mut stream), Ok(Some(numbered_frame(12))));
    assert_eq!(recv_frame(&mut stream), Err(RecvError::Transport(StreamReset { code: 77 })));
}

#[test]
fn send_on_a_reset_stream_hands_the_failure_on() {
    let mut stream = MemoryStream::new();
    assert_eq!(send_frame(&mut stream, &numbered_frame(1)), Ok(()));
    let written = stream.unread_len();
    stream.reset(5);
    assert_eq!(send_frame(&mut stream, &numbered_frame(2)), Err(StreamReset { code: 5 }));
    assert_eq!(stream.unread_len(), written);
}

#[test]
fn send_appends_one_whole_frame_and_leaves_the_stream_open() {
    let mut stream = MemoryStream::new();
    let first = numbered_frame(3);
    let second = numbered_frame(4);
    assert_eq!(send_frame(&mut stream, &first), Ok(()));
    assert_eq!(stream.unread_len(), 8 + 17 + first.payload.len());
    assert_eq!(send_frame(&mut stream, &second), Ok(()));
    assert_eq!(stream.unread_len(), 2 * (8 + 17) + first.payload.len() + second.payload.len());
}
