use idiomatic::framecodec::{
    DecodeError, Delta, Frame, Header, PayloadLen, PayloadMismatch, PayloadTooLong, Priority,
    PriorityTooHigh, RawFrame, RawHeader, ZeroDelta, VERSION,
};
use serde_json::Value;

/// Why a capture did not load in these tests: the JSON shape, a header check, or a payload
/// that does not match its header.
#[derive(Debug)]
enum CaptureProblem {
    Shape,
    Header,
    Mismatch(PayloadMismatch),
}

fn number<T: TryFrom<u64>>(value: &Value) -> Result<T, CaptureProblem> {
    let n = value.as_u64().ok_or(CaptureProblem::Shape)?;
    T::try_from(n).map_err(|_| CaptureProblem::Shape)
}

/// Reads a capture, a JSON array of frames, through the library's checks on each field.
fn capture(json: &str) -> Result<Vec<Frame>, CaptureProblem> {
    let value: Value = serde_json::from_str(json).map_err(|_| CaptureProblem::Shape)?;
    let items = value.as_array().ok_or(CaptureProblem::Shape)?;
    let mut frames = Vec::new();
    for item in items {
        let header = item.get("header").ok_or(CaptureProblem::Shape)?;
        let version: u8 = number(header.get("version").ok_or(CaptureProblem::Shape)?)?;
        let priority: u8 = number(header.get("priority").ok_or(CaptureProblem::Shape)?)?;
        let payload_len: u16 = number(header.get("payload_len").ok_or(CaptureProblem::Shape)?)?;
        let priority = Priority::try_from(priority).map_err(|_| CaptureProblem::Header)?;
        let payload_len = PayloadLen::try_from(payload_len).map_err(|_| CaptureProblem::Header)?;
        let header = Header::try_from(RawHeader { version, priority, payload_len })
            .map_err(|_| CaptureProblem::Header)?;
        let bytes = item.get("payload").and_then(Value::as_array).ok_or(CaptureProblem::Shape)?;
        let mut payload = Vec::new();
        for byte in bytes {
            payload.push(number::<u8>(byte)?);
        }
        let frame = Frame::try_from(RawFrame { header, payload }).map_err(CaptureProblem::Mismatch)?;
        frames.push(frame);
    }
    Ok(frames)
}

fn frame_json(priority: u8, payload_len: u16, payload: &[u8]) -> String {
    let payload = payload.iter().map(u8::to_string).collect::<Vec<_>>().join(",");
    format!(
        r#"[{{"header":{{"version":{VERSION},"priority":{priority},"payload_len":{payload_len}}},"payload":[{payload}]}}]"#
    )
}

#[test]
fn test_decode_reads_the_fields_in_order() {
    // version 1, priority 2, length 0x0100 = 256
    let header = Header::decode(&[1, 2, 0x01, 0x00]).unwrap();
    assert_eq!(header.version, VERSION);
    assert_eq!(header.priority.get(), 2);
    assert_eq!(header.payload_len.get(), 256);
}

#[test]
fn test_decode_rejects_a_short_input() {
    assert_eq!(
        Header::decode(&[1, 2, 0]),
        Err(DecodeError::Truncated { expected: Header::SIZE, actual: 3 })
    );
}

#[test]
fn test_decode_rejects_the_wrong_version() {
    assert_eq!(Header::decode(&[2, 0, 0, 0]), Err(DecodeError::UnsupportedVersion(2)));
}

#[test]
fn lib_test_decode_rejects_a_priority_above_max() {
    assert_eq!(
        Header::decode(&[1, 4, 0, 0]),
        Err(DecodeError::PriorityTooHigh(PriorityTooHigh(4)))
    );
}

#[test]
fn test_decode_rejects_a_payload_above_the_limit() {
    // 0x1001 = 4097, one above PayloadLen::MAX
    assert_eq!(
        Header::decode(&[1, 0, 0x10, 0x01]),
        Err(DecodeError::PayloadTooLong(PayloadTooLong(4097)))
    );
}

#[test]
fn test_encode_is_the_inverse_of_decode() {
    let bytes = [1, 3, 0x0F, 0xFF];
    assert_eq!(Header::decode(&bytes).unwrap().encode(), bytes);
}

#[test]
fn test_json_routes_take_the_constructor_check() {
    let priority: u8 = serde_json::from_str("4").unwrap();
    assert!(Priority::try_from(priority).is_err());
    let len: u16 = serde_json::from_str("4097").unwrap();
    assert!(PayloadLen::try_from(len).is_err());
    let delta: i32 = serde_json::from_str("0").unwrap();
    assert!(Delta::try_from(delta).is_err());
}

#[test]
fn lib_test_capture_rejects_a_payload_that_does_not_match_its_header() {
    let json = r#"[{"header":{"version":1,"priority":0,"payload_len":2},"payload":[1,2,3]}]"#;
    assert!(capture(json).is_err());
}

#[test]
fn test_capture_loads_a_valid_frame() {
    let json = r#"[{"header":{"version":1,"priority":2,"payload_len":3},"payload":[1,2,3]}]"#;
    let frames = capture(json).unwrap();
    assert_eq!(frames.len(), 1);
    assert_eq!(frames.first().map(|frame| frame.payload.as_slice()), Some(&[1, 2, 3][..]));
}

#[test]
fn test_checked_invert_reports_the_one_overflow() {
    let min = Delta::new(i32::MIN).expect("i32::MIN is nonzero");
    assert_eq!(min.checked_invert(), None);
    // |i32::MIN| = 2^31
    assert_eq!(min.magnitude(), 2_147_483_648);
    let five = Delta::new(5).expect("5 is nonzero");
    assert_eq!(five.checked_invert().map(Delta::get), Some(-5));
}

#[test]
fn test_capture_reads_a_valid_frame() {
    let frames = capture(&frame_json(2, 3, &[1, 2, 3])).expect("a valid capture loads");
    assert_eq!(frames.len(), 1, "one frame in, one frame out");
    let Some(frame) = frames.first() else {
        panic!("the capture holds one frame");
    };
    assert_eq!(frame.header.priority.get(), 2);
    assert_eq!(frame.header.payload_len.get(), 3);
    assert_eq!(frame.payload, vec![1, 2, 3]);
}

#[test]
fn semantic_test_decode_rejects_a_priority_above_max() {
    // version 1, priority 4 (one above Priority::MAX), length 0
    assert!(Header::decode(&[VERSION, Priority::MAX + 1, 0, 0]).is_err());
}

#[test]
fn test_capture_rejects_a_priority_above_max() {
    assert!(capture(&frame_json(Priority::MAX + 1, 0, &[])).is_err());
}

#[test]
fn test_capture_rejects_a_payload_len_above_max() {
    assert!(capture(&frame_json(0, PayloadLen::MAX + 1, &[])).is_err());
}

#[test]
fn semantic_test_capture_rejects_a_payload_that_does_not_match_its_header() {
    // the header announces 2 bytes and the payload holds 3
    assert!(capture(&frame_json(0, 2, &[1, 2, 3])).is_err());
}

#[test]
fn test_json_rejects_a_zero_delta() {
    let zero: i32 = serde_json::from_str("0").unwrap();
    assert!(Delta::try_from(zero).is_err());
    let minus_three: i32 = serde_json::from_str("-3").unwrap();
    assert_eq!(Delta::try_from(minus_three).ok().map(Delta::get), Some(-3));
}

#[test]
fn test_encode_then_decode_round_trips() {
    let header = Header::decode(&[VERSION, 3, 0x0F, 0xFF]).expect("a valid header decodes");
    assert_eq!(Header::decode(&header.encode()), Ok(header));
}

#[test]
fn test_checked_invert_of_min_is_none() {
    let min = Delta::new(i32::MIN).expect("i32::MIN is nonzero");
    assert_eq!(min.checked_invert(), None);
    let minus_one = Delta::new(-1).expect("-1 is nonzero");
    assert_eq!(minus_one.checked_invert().map(Delta::get), Some(1));
}

#[test]
fn test_magnitude_of_min_is_two_to_the_31() {
    let min = Delta::new(i32::MIN).expect("i32::MIN is nonzero");
    // |-2^31| = 2 147 483 648
    assert_eq!(min.magnitude(), 2_147_483_648);
}

#[test]
fn test_a_frame_from_bytes_and_from_json_agree() {
    let header = Header::decode(&[VERSION, 1, 0, 2]).expect("a valid header decodes");
    let from_json = capture(&frame_json(1, 2, &[9, 9])).expect("a valid capture loads");
    assert_eq!(
        from_json,
        vec![Frame { header, payload: vec![9, 9] }],
        "the two routes build the same frame"
    );
}

#[test]
fn decode_checks_the_priority_before_the_length_and_the_version() {
    // every field is wrong; the priority is reported
    assert_eq!(
        Header::decode(&[9, 7, 0xFF, 0xFF]),
        Err(DecodeError::PriorityTooHigh(PriorityTooHigh(7)))
    );
    // the length is wrong and so is the version; the length is reported
    assert_eq!(
        Header::decode(&[9, 0, 0xFF, 0xFF]),
        Err(DecodeError::PayloadTooLong(PayloadTooLong(0xFFFF)))
    );
}

#[test]
fn decode_reads_only_the_first_four_bytes() {
    let header = Header::decode(&[1, 0, 0x10, 0x00, 0xAA, 0xBB]).unwrap();
    assert_eq!(header.payload_len.get(), 4096);
    assert_eq!(header.encode(), [1, 0, 0x10, 0x00]);
}

#[test]
fn decode_of_nothing_is_truncated() {
    assert_eq!(
        Header::decode(&[]),
        Err(DecodeError::Truncated { expected: 4, actual: 0 })
    );
}

#[test]
fn encode_writes_the_length_big_endian() {
    let header = Header {
        version: VERSION,
        priority: Priority::new(1).unwrap(),
        payload_len: PayloadLen::new(0x0A0B).unwrap(),
    };
    assert_eq!(header.encode(), [1, 1, 0x0A, 0x0B]);
}

#[test]
fn the_ranges_end_at_their_maxima() {
    assert_eq!(Priority::new(3).map(Priority::get), Some(3));
    assert_eq!(Priority::new(4), None);
    assert_eq!(Priority::try_from(4), Err(PriorityTooHigh(4)));
    assert_eq!(u8::from(Priority::new(2).unwrap()), 2);
    assert_eq!(PayloadLen::new(4096).map(PayloadLen::get), Some(4096));
    assert_eq!(PayloadLen::new(4097), None);
    assert_eq!(PayloadLen::try_from(4097), Err(PayloadTooLong(4097)));
    assert_eq!(u16::from(PayloadLen::new(7).unwrap()), 7);
    assert_eq!(Delta::new(0), None);
    assert_eq!(Delta::try_from(0), Err(ZeroDelta));
    assert_eq!(i32::from(Delta::new(-8).unwrap()), -8);
    assert_eq!(Delta::new(-8).unwrap().magnitude(), 8);
    assert_eq!(Delta::new(i32::MAX).unwrap().checked_invert().map(Delta::get), Some(-i32::MAX));
}

#[test]
fn a_header_of_another_version_is_refused() {
    let raw = RawHeader {
        version: 3,
        priority: Priority::new(0).unwrap(),
        payload_len: PayloadLen::new(0).unwrap(),
    };
    assert_eq!(Header::try_from(raw), Err(DecodeError::UnsupportedVersion(3)));
}

#[test]
fn a_frame_whose_payload_is_short_is_refused() {
    let header = Header::decode(&[1, 0, 0, 5]).unwrap();
    assert_eq!(
        Frame::try_from(RawFrame { header, payload: vec![1, 2] }),
        Err(PayloadMismatch { announced: 5, actual: 2 })
    );
}
