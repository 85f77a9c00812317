use simulboot::wire::{alpn, message_step, MessageStep, datagram_fits, frame_body, frame_extent, surface_id_from_seed, WireError, MAX_FRAME_LEN};

#[test]
fn frame_roundtrip() {
    let body = b"announce-body".to_vec();
    let bytes = frame_body(&body);
    let consumed = frame_extent(&bytes).unwrap();
    assert_eq!(&bytes[4..consumed], &body[..]);
    assert_eq!(consumed, bytes.len());
}

#[test]
fn decode_reports_incomplete_prefix() {
    let err = frame_extent(&[0, 0]).unwrap_err();
    assert!(matches!(err, WireError::Incomplete { needed: 4, .. }));
}

#[test]
fn decode_reports_incomplete_body() {
    let bytes = frame_body(&[1, 2, 3]);
    let err = frame_extent(&bytes[..bytes.len() - 1]).unwrap_err();
    assert!(matches!(err, WireError::Incomplete { .. }));
}

#[test]
fn two_frames_back_to_back() {
    let a = frame_body(&[9]);
    let b = frame_body(&[7, 7]);
    let mut stream = a.clone();
    stream.extend_from_slice(&b);
    let c1 = frame_extent(&stream).unwrap();
    assert_eq!(&stream[4..c1], &[9]);
    let c2 = frame_extent(&stream[c1..]).unwrap();
    assert_eq!(&stream[c1 + 4..c1 + c2], &[7, 7]);
    assert_eq!(c1 + c2, stream.len());
}

#[test]
fn frame_prefix_is_big_endian_length() {
    assert_eq!(frame_body(&[0u8; 300])[..4], [0, 0, 1, 44]);
    assert_eq!(frame_extent(&[0, 0, 0, 0]), Ok(4));
}

#[test]
fn oversized_frames_are_refused() {
    assert_eq!(
        frame_extent(&[1, 0, 0, 1]),
        Err(WireError::TooLarge { len: 16_777_217, limit: MAX_FRAME_LEN })
    );
    assert_eq!(
        frame_extent(&[1, 0, 0, 0]),
        Err(WireError::Incomplete { needed: 16_777_220, have: 4 })
    );
}

#[test]
fn alpn_and_seeded_ids() {
    assert_eq!(alpn(), b"simulboot/0".to_vec());
    let a = surface_id_from_seed("m|display:0|s");
    assert_eq!(a, surface_id_from_seed("m|display:0|s"));
    assert_ne!(a, surface_id_from_seed("m|display:1|s"));
    // SHA-256 of the empty string.
    assert_eq!(surface_id_from_seed("")[..4], [0xe3, 0xb0, 0xc4, 0x42]);
}

#[test]
fn datagram_size_limit() {
    assert!(datagram_fits(1200, Some(1200)));
    assert!(!datagram_fits(1201, Some(1200)));
    assert!(datagram_fits(1_000_000, None));
}

#[test]
fn message_step_decides_what_to_do() {
    let mut frame = vec![0u8, 0, 0, 2, 7, 8];
    assert_eq!(message_step(&frame, false), MessageStep::Frame(6));
    assert_eq!(message_step(&frame[..3], false), MessageStep::ReadMore);
    assert_eq!(message_step(&frame[..5], true), MessageStep::EndedMidFrame);
    assert_eq!(message_step(&[], true), MessageStep::Ended);
    assert_eq!(message_step(&[], false), MessageStep::ReadMore);
    frame[0] = 0xff;
    assert!(matches!(message_step(&frame, false), MessageStep::Refused(_)));
}
