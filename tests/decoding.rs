use elpis::bits::BitReadError;
use elpis::decode::{decode_frames, decode_signal, decode_signals, FrameError, FrameRecord, SignalOutcome, SignalRecord};
use elpis::schema::{default_as_true, ElpisMessages, MessageDefinition, SignalDefinition};

fn signal(name: &str, start: Option<i32>, length: i32, is_big_endian: bool) -> SignalDefinition {
    SignalDefinition {
        name: name.to_string(),
        start,
        length,
        is_big_endian,
        default: None,
        multiplexer_signal: None,
        spn: None,
        choices: None,
        unit: None,
        comment: None,
        is_signed: None,
        is_multiplexer: None,
        is_float: None,
    }
}

fn message(name: &str, id: i32, signals: Vec<SignalDefinition>) -> MessageDefinition {
    MessageDefinition { name: name.to_string(), length: 8, id, comment: None, signals }
}

fn header(id: i32, len: i32) -> Vec<u8> {
    let mut h = id.to_be_bytes().to_vec();
    h.extend_from_slice(&len.to_be_bytes());
    h
}

fn registry() -> ElpisMessages {
    ElpisMessages::from_definitions(vec![message(
        "Speed",
        1,
        vec![
            signal("high", Some(7), 8, true),
            signal("unused", Some(3), 0, true),
            signal("word", None, 16, false),
            signal("far", Some(40), 8, false),
        ],
    )])
}

#[test]
fn absent_byte_order_means_motorola() {
    assert!(default_as_true());
}

#[test]
fn zero_width_signal_is_skipped() {
    let payload = vec![0xAB, 0xCD];
    assert_eq!(decode_signal(&signal("s", Some(3), 0, true), &payload), None);
    assert_eq!(decode_signal(&signal("s", Some(-9), 0, false), &payload), None);
    assert_eq!(decode_signal(&signal("s", None, 0, false), &[]), None);
}

#[test]
fn over_wide_signal_warns() {
    let payload = vec![0u8; 32];
    assert_eq!(decode_signal(&signal("s", Some(7), 128, true), &payload), Some(SignalOutcome::TooWide));
    assert_eq!(decode_signal(&signal("s", None, 500, false), &payload), Some(SignalOutcome::TooWide));
}

#[test]
fn default_start_follows_bit_order() {
    assert_eq!(
        decode_signal(&signal("s", None, 16, true), &[0x12, 0x34]),
        Some(SignalOutcome::ReadFailed(BitReadError::OutOfRange))
    );
    let payload = vec![0x12, 0x34, 0x56];
    assert_eq!(
        decode_signal(&signal("s", None, 16, true), &payload),
        Some(SignalOutcome::Decoded { raw: 0x1234, byte_offset: 0, byte_length: 2 })
    );
    assert_eq!(
        decode_signal(&signal("s", None, 16, false), &payload),
        Some(SignalOutcome::Decoded { raw: 0x3412, byte_offset: 0, byte_length: 2 })
    );
}

#[test]
fn reporting_span_contains_the_field() {
    let payload = vec![0x00, 0x00, 0xF0, 0x0F];
    assert_eq!(
        decode_signal(&signal("s", Some(20), 9, false), &payload),
        Some(SignalOutcome::Decoded { raw: 0xFF, byte_offset: 2, byte_length: 2 })
    );
}

#[test]
fn signal_failure_keeps_siblings() {
    let def = message("m", 3, vec![signal("bad", Some(60), 8, false), signal("good", Some(7), 8, true)]);
    let records = decode_signals(&def, &[0x5A, 0x00]);
    assert_eq!(
        records,
        vec![
            SignalRecord { index: 0, outcome: SignalOutcome::ReadFailed(BitReadError::OutOfRange) },
            SignalRecord { index: 1, outcome: SignalOutcome::Decoded { raw: 0x5A, byte_offset: 0, byte_length: 1 } },
        ]
    );
}

#[test]
fn later_duplicate_definition_wins() {
    let reg = ElpisMessages::from_definitions(vec![message("first", 5, vec![]), message("other", 6, vec![]), message("second", 5, vec![])]);
    assert_eq!(reg.get_messagedef_count(), 2);
    assert_eq!(reg.get_def_by_id(5).unwrap().name, "second");
    assert_eq!(reg.get_def_by_id(6).unwrap().name, "other");
    assert!(reg.get_def_by_id(7).is_none());
}

#[test]
fn empty_schema_has_no_definitions() {
    let reg = ElpisMessages::from_definitions(vec![]);
    assert_eq!(reg.get_messagedef_count(), 0);
    assert!(reg.get_def_by_id(0).is_none());
}

#[test]
fn two_frames_decode_in_order() {
    let reg = registry();
    let mut data = header(1, 6);
    data.extend_from_slice(&[0xAB, 0x12, 0x34, 0, 0, 0x77]);
    data.extend(header(2, 1));
    data.push(0xFF);
    let r = decode_frames(&reg, &data);
    assert_eq!(r.error, None);
    assert_eq!(r.frames.len(), 2);
    assert_eq!(
        r.frames[0],
        FrameRecord {
            id: 1,
            offset: 0,
            payload_length: 6,
            known: true,
            signals: vec![
                SignalRecord { index: 0, outcome: SignalOutcome::Decoded { raw: 0xAB, byte_offset: 0, byte_length: 1 } },
                SignalRecord { index: 2, outcome: SignalOutcome::Decoded { raw: 0x12AB, byte_offset: 0, byte_length: 2 } },
                SignalRecord { index: 3, outcome: SignalOutcome::Decoded { raw: 0x77, byte_offset: 5, byte_length: 1 } },
            ],
        }
    );
    assert_eq!(r.frames[1], FrameRecord { id: 2, offset: 14, payload_length: 1, known: false, signals: vec![] });
}

#[test]
fn unknown_id_is_consumed() {
    let reg = registry();
    let mut data = header(42, 3);
    data.extend_from_slice(&[1, 2, 3]);
    data.extend(header(1, 2));
    data.extend_from_slice(&[0x80, 0x00]);
    let r = decode_frames(&reg, &data);
    assert_eq!(r.error, None);
    assert_eq!(r.frames.len(), 2);
    assert!(!r.frames[0].known);
    assert!(r.frames[0].signals.is_empty());
    assert_eq!(r.frames[1].offset, 11);
    assert!(r.frames[1].known);
    assert_eq!(
        r.frames[1].signals[0],
        SignalRecord { index: 0, outcome: SignalOutcome::Decoded { raw: 0x80, byte_offset: 0, byte_length: 1 } }
    );
}

#[test]
fn single_empty_frame_yields_no_values() {
    let reg = registry();
    let r = decode_frames(&reg, &header(1, 0));
    assert_eq!(r.error, None);
    assert_eq!(r.frames.len(), 1);
    assert_eq!(r.frames[0].payload_length, 0);
    assert!(r.frames[0].known);
    assert!(r.frames[0].signals.iter().all(|s| !matches!(s.outcome, SignalOutcome::Decoded { .. })));
    assert_eq!(r.frames[0].signals.len(), 3);
}

#[test]
fn overlong_payload_stops_the_buffer() {
    let reg = registry();
    let mut data = header(2, 1);
    data.push(9);
    data.extend(header(1, 100));
    data.extend_from_slice(&[0u8; 10]);
    let r = decode_frames(&reg, &data);
    assert_eq!(r.error, Some(FrameError::InvalidLength));
    assert_eq!(r.frames.len(), 1);
    assert_eq!(r.frames[0].id, 2);
}

#[test]
fn negative_length_is_rejected() {
    let r = decode_frames(&registry(), &header(1, -1));
    assert_eq!(r.error, Some(FrameError::InvalidLength));
    assert!(r.frames.is_empty());
}

#[test]
fn negative_id_is_rejected() {
    let mut data = header(-5, 0);
    data.extend(header(1, 0));
    let r = decode_frames(&registry(), &data);
    assert_eq!(r.error, Some(FrameError::InvalidId));
    assert!(r.frames.is_empty());
}

#[test]
fn truncated_header_is_rejected() {
    let reg = registry();
    assert_eq!(decode_frames(&reg, &[0, 0, 1]).error, Some(FrameError::TruncatedHeader));
    assert_eq!(decode_frames(&reg, &[0, 0, 0, 1, 0, 0]).error, Some(FrameError::TruncatedHeader));
}

#[test]
fn empty_buffer_is_done() {
    let r = decode_frames(&registry(), &[]);
    assert_eq!(r.error, None);
    assert!(r.frames.is_empty());
}

#[test]
fn decoding_twice_is_identical() {
    let reg = registry();
    let mut data = header(1, 2);
    data.extend_from_slice(&[0xAB, 0xCD]);
    data.extend(header(9, 0));
    assert_eq!(decode_frames(&reg, &data), decode_frames(&reg, &data));
}

#[test]
fn frame_label_names_or_unknown() {
    let reg = registry();
    assert_eq!(reg.frame_label(1), "Speed");
    assert_eq!(reg.frame_label(42), "unknown");
}

#[test]
fn negative_length_after_a_good_frame_keeps_it() {
    let reg = registry();
    let mut data = header(42, 2);
    data.extend_from_slice(&[7, 7]);
    data.extend(header(1, -3));
    data.extend_from_slice(&[0u8; 4]);
    let r = decode_frames(&reg, &data);
    assert_eq!(r.error, Some(FrameError::InvalidLength));
    assert_eq!(r.frames, vec![FrameRecord { id: 42, offset: 0, payload_length: 2, known: false, signals: vec![] }]);
}
