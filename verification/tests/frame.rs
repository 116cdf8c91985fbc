use wiremux::crc32::crc32;
use wiremux::frame::{
    build_frame_payload, build_frame_payload_with_max, merge_terminal_events, BuildFrameError,
    FrameError, FrameScanner, MuxFrame, StreamEvent, HEADER_LEN, MAGIC,
};

fn collect_events_in_chunks(input: &[u8], chunk_size: usize) -> Vec<StreamEvent> {
    let mut scanner = FrameScanner::default();
    let mut events = Vec::new();

    for chunk in input.chunks(chunk_size) {
        events.extend(scanner.push(chunk));
    }

    events.extend(scanner.finish());
    merge_terminal_events(events)
}

#[test]
fn parses_valid_frame() {
    let frame = build_frame_payload(7, b"hello").expect("valid frame");
    let mut scanner = FrameScanner::default();

    assert_eq!(
        scanner.push(&frame),
        vec![StreamEvent::Frame(MuxFrame {
            version: 1,
            flags: 7,
            payload: b"hello".to_vec()
        })]
    );
    assert!(scanner.finish().is_empty());
}

#[test]
fn waits_for_partial_frame() {
    let frame = build_frame_payload(0, b"payload").expect("valid frame");
    let mut scanner = FrameScanner::default();

    assert!(scanner.push(&frame[..HEADER_LEN - 1]).is_empty());
    assert_eq!(
        scanner.push(&frame[HEADER_LEN - 1..]),
        vec![StreamEvent::Frame(MuxFrame {
            version: 1,
            flags: 0,
            payload: b"payload".to_vec()
        })]
    );
}

#[test]
fn extracts_frame_from_mixed_terminal_stream() {
    let mut stream = b"boot log\n".to_vec();
    stream.extend(build_frame_payload(1, b"mux").expect("valid frame"));
    stream.extend_from_slice(b"\nplain log");

    assert_eq!(
        collect_events_in_chunks(&stream, stream.len()),
        vec![
            StreamEvent::Terminal(b"boot log\n".to_vec()),
            StreamEvent::Frame(MuxFrame {
                version: 1,
                flags: 1,
                payload: b"mux".to_vec()
            }),
            StreamEvent::Terminal(b"\nplain log".to_vec())
        ]
    );
}

#[test]
fn preserves_terminal_suffix_that_may_be_magic_prefix() {
    let frame = build_frame_payload(0, b"ok").expect("valid frame");
    let mut stream = b"hello E".to_vec();
    stream.extend_from_slice(&frame[1..]);

    assert_eq!(
        collect_events_in_chunks(&stream, 2),
        vec![
            StreamEvent::Terminal(b"hello ".to_vec()),
            StreamEvent::Frame(MuxFrame {
                version: 1,
                flags: 0,
                payload: b"ok".to_vec()
            })
        ]
    );
}

#[test]
fn false_magic_with_bad_crc_reports_error() {
    let mut frame = build_frame_payload(0, b"bad").expect("valid frame");
    frame[HEADER_LEN] ^= 0xff;
    let mut stream = b"prefix ".to_vec();
    stream.extend_from_slice(&frame);
    stream.extend_from_slice(b" suffix");

    let actual_crc = crc32(&frame[HEADER_LEN..]);
    let expected_crc = u32::from_le_bytes(frame[10..14].try_into().expect("crc bytes"));

    assert_eq!(
        collect_events_in_chunks(&stream, 3),
        vec![
            StreamEvent::Terminal(b"prefix ".to_vec()),
            StreamEvent::FrameError(FrameError::CrcMismatch {
                version: 1,
                flags: 0,
                payload_len: 3,
                expected_crc,
                actual_crc
            }),
            StreamEvent::Terminal(b" suffix".to_vec())
        ]
    );
}

#[test]
fn unsupported_version_resynchronizes_to_next_frame() {
    let mut bad = build_frame_payload(0, b"bad").expect("valid frame");
    bad[4] = 99;
    let good = build_frame_payload(2, b"good").expect("valid frame");
    let mut stream = bad.clone();
    stream.extend_from_slice(&good);

    assert_eq!(
        collect_events_in_chunks(&stream, 4),
        vec![
            StreamEvent::Terminal(bad),
            StreamEvent::Frame(MuxFrame {
                version: 1,
                flags: 2,
                payload: b"good".to_vec()
            })
        ]
    );
}

#[test]
fn oversized_payload_header_resynchronizes() {
    let mut bad = Vec::new();
    bad.extend_from_slice(&MAGIC);
    bad.push(1);
    bad.push(0);
    bad.extend_from_slice(&999u32.to_le_bytes());
    bad.extend_from_slice(&0u32.to_le_bytes());

    let good = build_frame_payload_with_max(0, b"ok", 8).expect("valid frame");
    let mut stream = bad.clone();
    stream.extend_from_slice(&good);

    let mut scanner = FrameScanner::new(8);
    let mut events = Vec::new();
    events.extend(scanner.push(&stream));
    events.extend(scanner.finish());

    assert_eq!(
        events,
        vec![
            StreamEvent::Terminal(bad),
            StreamEvent::Frame(MuxFrame {
                version: 1,
                flags: 0,
                payload: b"ok".to_vec()
            })
        ]
    );
}

#[test]
fn one_byte_replay_matches_whole_stream() {
    let mut stream = b"one\n".to_vec();
    stream.extend(build_frame_payload(3, b"first").expect("valid frame"));
    stream.extend_from_slice(b"two");
    stream.extend(build_frame_payload(4, b"second").expect("valid frame"));

    assert_eq!(
        collect_events_in_chunks(&stream, 1),
        collect_events_in_chunks(&stream, stream.len())
    );
}

#[test]
fn rejects_payload_larger_than_limit() {
    assert_eq!(
        build_frame_payload_with_max(0, b"toolong", 3),
        Err(BuildFrameError::PayloadTooLarge { len: 7, max: 3 })
    );
}

#[test]
fn crc32_matches_standard_check_value() {
    assert_eq!(crc32(b"123456789"), 0xCBF4_3926);
    assert_eq!(crc32(b""), 0);
}

#[test]
fn frame_layout_is_magic_version_flags_length_crc_payload() {
    let frame = build_frame_payload(9, b"ab").expect("valid frame");
    assert_eq!(&frame[..4], b"ESMX");
    assert_eq!(frame[4], 1);
    assert_eq!(frame[5], 9);
    assert_eq!(&frame[6..10], &2u32.to_le_bytes());
    assert_eq!(&frame[10..14], &crc32(b"ab").to_le_bytes());
    assert_eq!(&frame[14..], b"ab");
}

#[test]
fn finish_flushes_held_back_magic_prefix() {
    let mut scanner = FrameScanner::default();
    assert_eq!(scanner.push(b"abcESM"), vec![StreamEvent::Terminal(b"abc".to_vec())]);
    assert_eq!(scanner.finish(), vec![StreamEvent::Terminal(b"ESM".to_vec())]);
    assert!(scanner.finish().is_empty());
}

#[test]
fn plain_terminal_bytes_pass_through_whole() {
    let mut scanner = FrameScanner::new(1024);
    let text = b"I (42) boot: plain log line\r\n";
    assert_eq!(scanner.push(text), vec![StreamEvent::Terminal(text.to_vec())]);
    assert!(scanner.finish().is_empty());
}
