use movebeam::msg::ProtocolError;
use movebeam::socket::{
    can_encode, checked_encode_frame, decode_frame, decode_reply, encode_frame, expect_reply, reply_frame, seal,
    strip_delimiter, FrameBuffer, EOT,
};

#[test]
fn frame_is_the_encoding_and_the_delimiter() {
    assert_eq!(encode_frame(b"hello"), b"aGVsbG8\x04".to_vec());
    assert_eq!(encode_frame(b"hello!"), b"aGVsbG8h\x04".to_vec());
    assert_eq!(encode_frame(b"h"), b"aA\x04".to_vec());
    assert_eq!(encode_frame(b""), vec![EOT]);
}

#[test]
fn frame_uses_the_url_safe_alphabet_without_padding() {
    assert_eq!(encode_frame(&[0xfb, 0xff]), b"-_8\x04".to_vec());
    assert_eq!(encode_frame(&[0xff, 0xef, 0xbe]), b"_---\x04".to_vec());
}

#[test]
fn frame_holds_the_delimiter_at_its_end_only() {
    let payload: Vec<u8> = (0..=255u8).collect();
    let frame = encode_frame(&payload);
    assert_eq!(frame.len(), 342 + 1);
    assert_eq!(frame.iter().position(|b| *b == EOT), Some(frame.len() - 1));
    assert_eq!(checked_encode_frame(&payload), Some(frame));
}

#[test]
fn payload_that_holds_the_delimiter_is_carried() {
    let payload = vec![EOT, EOT, 0, EOT];
    let frame = encode_frame(&payload);
    assert_eq!(frame.iter().filter(|b| **b == EOT).count(), 1);
    assert_eq!(decode_frame(&frame[..frame.len() - 1]), Ok(payload));
}

#[test]
fn encoding_fits_but_for_the_longest_payloads() {
    assert!(can_encode(0));
    assert!(can_encode(1 << 20));
    assert!(can_encode(usize::MAX / 4 * 3));
    assert!(can_encode(usize::MAX / 4 * 3 + 1));
    assert!(!can_encode(usize::MAX / 4 * 3 + 3));
    assert!(!can_encode(usize::MAX));
}

#[test]
fn seal_adds_the_delimiter() {
    assert_eq!(seal(vec![]), vec![4]);
    assert_eq!(seal(vec![b'a', b'b']), vec![b'a', b'b', 4]);
}

#[test]
fn decode_frame_gives_the_payload() {
    assert_eq!(decode_frame(b"aGVsbG8"), Ok(b"hello".to_vec()));
    assert_eq!(decode_frame(b"-_8"), Ok(vec![0xfb, 0xff]));
    assert_eq!(decode_frame(b""), Ok(vec![]));
}

#[test]
fn decode_frame_refuses_what_is_no_encoding() {
    assert_eq!(decode_frame(b"aGVsbG8="), Err(ProtocolError::BadEncoding));
    assert_eq!(decode_frame(b"+/8"), Err(ProtocolError::BadEncoding));
    assert_eq!(decode_frame(b"aGVsb G8"), Err(ProtocolError::BadEncoding));
    assert_eq!(decode_frame(b"a"), Err(ProtocolError::BadEncoding));
    assert_eq!(decode_frame(b"aGVsbG9"), Err(ProtocolError::BadEncoding));
    assert_eq!(decode_frame(b"aGVsbG8\x04"), Err(ProtocolError::BadEncoding));
}

#[test]
fn reply_is_the_frame_or_the_bare_delimiter() {
    assert_eq!(reply_frame(Some(b"hello")), b"aGVsbG8\x04".to_vec());
    assert_eq!(reply_frame(None), vec![EOT]);
}

#[test]
fn strip_delimiter_wants_it_at_the_end() {
    assert_eq!(strip_delimiter(b"abc\x04"), Some(&b"abc"[..]));
    assert_eq!(strip_delimiter(b"\x04"), Some(&b""[..]));
    assert_eq!(strip_delimiter(b"\x04\x04"), Some(&b"\x04"[..]));
    assert_eq!(strip_delimiter(b"abc"), None);
    assert_eq!(strip_delimiter(b"\x04abc"), None);
    assert_eq!(strip_delimiter(b""), None);
}

#[test]
fn client_reads_a_response_or_none() {
    assert_eq!(decode_reply(b"aGVsbG8\x04"), Ok(Some(b"hello".to_vec())));
    assert_eq!(decode_reply(b"\x04"), Ok(None));
    assert_eq!(expect_reply(b"aGVsbG8\x04"), Ok(b"hello".to_vec()));
    assert_eq!(expect_reply(b"\x04"), Err(ProtocolError::NoResponse));
}

#[test]
fn client_refuses_a_frame_cut_short() {
    assert_eq!(decode_reply(b"aGVsbG8"), Err(ProtocolError::Truncated));
    assert_eq!(decode_reply(b"aGVs"), Err(ProtocolError::Truncated));
    assert_eq!(decode_reply(b""), Err(ProtocolError::Truncated));
    assert_eq!(expect_reply(b"aGVsbG8"), Err(ProtocolError::Truncated));
    assert_eq!(expect_reply(b""), Err(ProtocolError::Truncated));
}

#[test]
fn client_refuses_a_response_that_is_no_encoding() {
    assert_eq!(decode_reply(b"aGVsbG8=\x04"), Err(ProtocolError::BadEncoding));
    assert_eq!(decode_reply(b"\x04\x04"), Err(ProtocolError::BadEncoding));
    assert_eq!(expect_reply(b"a\x04"), Err(ProtocolError::BadEncoding));
}

#[test]
fn buffer_hands_out_frames_in_their_order() {
    let mut buffer = FrameBuffer::new();
    buffer.extend(b"one\x04two\x04\x04thr");
    assert_eq!(buffer.next_frame(), Some(b"one".to_vec()));
    assert_eq!(buffer.next_frame(), Some(b"two".to_vec()));
    assert_eq!(buffer.next_frame(), Some(vec![]));
    assert_eq!(buffer.next_frame(), None);
    assert_eq!(buffer.pending, b"thr".to_vec());
    buffer.extend(b"ee\x04");
    assert_eq!(buffer.next_frame(), Some(b"three".to_vec()));
    assert_eq!(buffer.next_frame(), None);
    assert_eq!(buffer.pending, Vec::<u8>::new());
}

#[test]
fn buffer_keeps_back_a_frame_without_its_delimiter() {
    let mut buffer = FrameBuffer::new();
    assert_eq!(buffer.next_frame(), None);
    let frame = encode_frame(b"a request that is cut short");
    buffer.extend(&frame[..frame.len() - 1]);
    for _ in 0..3 {
        assert_eq!(buffer.next_frame(), None);
    }
    assert_eq!(buffer.pending, frame[..frame.len() - 1].to_vec());
    buffer.extend(&[EOT]);
    assert_eq!(buffer.next_frame(), Some(frame[..frame.len() - 1].to_vec()));
}

#[test]
fn buffer_takes_bytes_one_by_one() {
    let mut whole = FrameBuffer::new();
    let mut pieces = FrameBuffer::new();
    let bytes = b"ab\x04\x04cde\x04f";
    whole.extend(bytes);
    let mut from_whole = vec![];
    while let Some(frame) = whole.next_frame() {
        from_whole.push(frame);
    }
    let mut from_pieces = vec![];
    for byte in bytes {
        pieces.extend(&[*byte]);
        while let Some(frame) = pieces.next_frame() {
            from_pieces.push(frame);
        }
    }
    assert_eq!(from_whole, vec![b"ab".to_vec(), vec![], b"cde".to_vec()]);
    assert_eq!(from_pieces, from_whole);
    assert_eq!(pieces.pending, whole.pending);
    assert_eq!(whole.pending, b"f".to_vec());
}
