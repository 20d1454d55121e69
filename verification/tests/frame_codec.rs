use multiplexing_stream::frame::{decode_frame, encode_frame, Decoded, Frame, StreamId};

fn header(len: u8, code: u8, number: u64, source: u8) -> Vec<u8> {
    let mut v = vec![0x90 + len, 0xd2, 0, 0, 0, code, 0xcf];
    v.extend_from_slice(&number.to_be_bytes());
    v.push(0xd0);
    v.push(source);
    v
}

fn complete(buf: &[u8]) -> (Frame, usize) {
    match decode_frame(buf) {
        Decoded::Complete(f, n) => (f, n),
        other => panic!("expected a frame, got {:?}", other),
    }
}

#[test]
fn flip_swaps_sides() {
    assert_eq!(StreamId::Local(3).flip(), StreamId::Remote(3));
    assert_eq!(StreamId::Remote(9).flip(), StreamId::Local(9));
    assert_eq!(StreamId::Local(4).flip().flip(), StreamId::Local(4));
}

#[test]
fn encodes_writing_completed() {
    let bytes = encode_frame(&Frame::ContentWritingCompleted { id: StreamId::Local(7) });
    assert_eq!(bytes, header(3, 3, 7, 0x01));
}

#[test]
fn encodes_terminated_for_remote_channel() {
    let bytes = encode_frame(&Frame::ChannelTerminated { id: StreamId::Remote(258) });
    assert_eq!(bytes, header(3, 4, 258, 0xff));
}

#[test]
fn encodes_content() {
    let bytes = encode_frame(&Frame::Content { id: StreamId::Remote(1), payload: vec![1, 2, 3] });
    let mut expected = header(4, 2, 1, 0xff);
    expected.extend_from_slice(&[0xc4, 3, 1, 2, 3]);
    assert_eq!(bytes, expected);
}

#[test]
fn encodes_offer_with_window() {
    let bytes = encode_frame(&Frame::Offer {
        id: StreamId::Local(0),
        name: "ab".to_string(),
        window_size: Some(5),
    });
    let mut expected = header(4, 0, 0, 0x01);
    let payload = [0x92, 0xa2, b'a', b'b', 0xcf, 0, 0, 0, 0, 0, 0, 0, 5];
    expected.extend_from_slice(&[0xc4, payload.len() as u8]);
    expected.extend_from_slice(&payload);
    assert_eq!(bytes, expected);
}

#[test]
fn encodes_offer_accepted_without_window() {
    let bytes = encode_frame(&Frame::OfferAccepted { id: StreamId::Remote(2), rem_window_size: None });
    let mut expected = header(4, 1, 2, 0xff);
    expected.extend_from_slice(&[0xc4, 1, 0x90]);
    assert_eq!(bytes, expected);
}

#[test]
fn encodes_content_processed() {
    let bytes = encode_frame(&Frame::ContentProcessed { id: StreamId::Local(1), processed: 300 });
    let mut expected = header(4, 5, 1, 0x01);
    expected.extend_from_slice(&[0xc4, 10, 0x91, 0xd3, 0, 0, 0, 0, 0, 0, 1, 44]);
    assert_eq!(bytes, expected);
}

#[test]
fn roundtrip_offer_names_channel_from_reader_side() {
    let sent = Frame::Offer { id: StreamId::Local(42), name: "ig-common".to_string(), window_size: Some(102400) };
    let bytes = encode_frame(&sent);
    let (frame, used) = complete(&bytes);
    assert_eq!(used, bytes.len());
    match frame {
        Frame::Offer { id, name, window_size } => {
            assert_eq!(id, StreamId::Remote(42));
            assert_eq!(name, "ig-common");
            assert_eq!(window_size, Some(102400));
        }
        other => panic!("unexpected {:?}", other),
    }
}

#[test]
fn roundtrip_offer_without_window() {
    let bytes = encode_frame(&Frame::Offer { id: StreamId::Remote(1), name: "é!".to_string(), window_size: None });
    match complete(&bytes).0 {
        Frame::Offer { id, name, window_size } => {
            assert_eq!(id, StreamId::Local(1));
            assert_eq!(name, "é!");
            assert_eq!(window_size, None);
        }
        other => panic!("unexpected {:?}", other),
    }
}

#[test]
fn roundtrip_accepted_content_processed_and_closing() {
    let frames = vec![
        Frame::OfferAccepted { id: StreamId::Local(5), rem_window_size: Some(7) },
        Frame::Content { id: StreamId::Remote(6), payload: vec![9; 300] },
        Frame::ContentProcessed { id: StreamId::Local(7), processed: 2048 },
        Frame::ContentWritingCompleted { id: StreamId::Remote(8) },
        Frame::ChannelTerminated { id: StreamId::Local(9) },
    ];
    let mut stream = Vec::new();
    for f in &frames {
        stream.extend_from_slice(&encode_frame(f));
    }
    let mut at = 0;
    let mut got = Vec::new();
    while at < stream.len() {
        let (f, used) = complete(&stream[at..]);
        at += used;
        got.push(f);
    }
    assert_eq!(got.len(), 5);
    assert!(matches!(got[0], Frame::OfferAccepted { id: StreamId::Remote(5), rem_window_size: Some(7) }));
    match &got[1] {
        Frame::Content { id, payload } => {
            assert_eq!(*id, StreamId::Local(6));
            assert_eq!(payload, &vec![9; 300]);
        }
        other => panic!("unexpected {:?}", other),
    }
    assert!(matches!(got[2], Frame::ContentProcessed { id: StreamId::Remote(7), processed: 2048 }));
    assert!(matches!(got[3], Frame::ContentWritingCompleted { id: StreamId::Local(8) }));
    assert!(matches!(got[4], Frame::ChannelTerminated { id: StreamId::Remote(9) }));
}

#[test]
fn decodes_compact_integers_from_peer() {
    // Code, channel number and source as positive and negative fixints.
    let (frame, used) = complete(&[0x93, 0x03, 0x05, 0xff, 0xaa]);
    assert_eq!(used, 4);
    assert!(matches!(frame, Frame::ContentWritingCompleted { id: StreamId::Local(5) }));
    let (frame, _) = complete(&[0x94, 0x02, 0xcc, 0xc8, 0x01, 0xc4, 0x01, 0x07]);
    match frame {
        Frame::Content { id, payload } => {
            assert_eq!(id, StreamId::Remote(200));
            assert_eq!(payload, vec![7]);
        }
        other => panic!("unexpected {:?}", other),
    }
}

#[test]
fn every_proper_prefix_is_incomplete() {
    let bytes = encode_frame(&Frame::Offer { id: StreamId::Local(3), name: "x".to_string(), window_size: Some(1) });
    for k in 0..bytes.len() {
        assert!(matches!(decode_frame(&bytes[..k]), Decoded::Incomplete), "prefix {}", k);
    }
}

#[test]
fn trailing_bytes_change_nothing() {
    let bytes = encode_frame(&Frame::Content { id: StreamId::Local(3), payload: vec![1, 2] });
    let mut longer = bytes.clone();
    longer.extend_from_slice(&[0xc1, 0xc1, 0xc1]);
    let (frame, used) = complete(&longer);
    assert_eq!(used, bytes.len());
    assert!(matches!(frame, Frame::Content { id: StreamId::Remote(3), .. }));
}

#[test]
fn malformed_inputs() {
    // Not an array.
    assert!(matches!(decode_frame(&[0xc0]), Decoded::Malformed));
    // Unknown frame code.
    assert!(matches!(decode_frame(&[0x93, 0x06, 0x01, 0x01]), Decoded::Malformed));
    // Negative frame code.
    assert!(matches!(decode_frame(&[0x93, 0xff, 0x01, 0x01]), Decoded::Malformed));
    // Array too short for the channel number.
    assert!(matches!(decode_frame(&[0x91, 0x03]), Decoded::Malformed));
    // Source neither 1 nor -1.
    assert!(matches!(decode_frame(&[0x93, 0x04, 0x01, 0x02]), Decoded::Malformed));
    // A payload-carrying frame in a three-element array.
    assert!(matches!(decode_frame(&[0x93, 0x02, 0x01, 0x01]), Decoded::Malformed));
    // A string where the payload should be.
    assert!(matches!(decode_frame(&[0x94, 0x02, 0x01, 0x01, 0xa1, b'x']), Decoded::Malformed));
    // Offer payload whose name is not UTF-8.
    assert!(matches!(decode_frame(&[0x94, 0x00, 0x01, 0x01, 0xc4, 0x03, 0x91, 0xa1, 0xff]), Decoded::Malformed));
    // ContentProcessed payload with a negative count.
    assert!(matches!(decode_frame(&[0x94, 0x05, 0x01, 0x01, 0xc4, 0x02, 0x91, 0xff]), Decoded::Malformed));
}

#[test]
fn bad_source_waits_for_the_payload_first() {
    // The source is checked after the payload is read.
    assert!(matches!(decode_frame(&[0x94, 0x02, 0x01, 0x02, 0xc4, 0x02, 0x00]), Decoded::Incomplete));
    assert!(matches!(decode_frame(&[0x94, 0x02, 0x01, 0x02, 0xc4, 0x01, 0x00]), Decoded::Malformed));
}

#[test]
fn processed_count_above_i64_wraps() {
    let mut bytes = vec![0x94, 0x05, 0x01, 0x01, 0xc4, 0x0a, 0x91, 0xcf];
    bytes.extend_from_slice(&u64::MAX.to_be_bytes());
    match complete(&bytes).0 {
        Frame::ContentProcessed { id, processed } => {
            assert_eq!(id, StreamId::Remote(1));
            assert_eq!(processed, -1);
        }
        other => panic!("unexpected {:?}", other),
    }
}
