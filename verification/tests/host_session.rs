use wiremux::batch::{encode_batch, encode_batch_records, MuxBatch, BATCH_PAYLOAD_TYPE, COMPRESSION_NONE};
use wiremux::envelope::{
    decode_envelope, encode_envelope, MuxEnvelope, DIRECTION_INPUT, DIRECTION_OUTPUT, PAYLOAD_KIND_CONTROL,
    PAYLOAD_KIND_TEXT,
};
use wiremux::frame::{build_frame_payload, BuildFrameError, FrameScanner, StreamEvent, DEFAULT_MAX_PAYLOAD_LEN};
use wiremux::host_session::{
    build_input_frame, build_manifest_request_frame, channel_supports_passthrough, decode_error_marker, decode_stage, decode_stage_name,
    display_channel_name, passthrough_policy_for_channel, printable_payload,
    printable_payload_type, utf8_prefix_len, BatchSummary, HostDecodeStage, HostEvent, HostSession,
    DECODE_STATUS_FAILED,
};
use wiremux::wire::{write_bytes_field, write_varint_field};
use wiremux::manifest::{
    ChannelDescriptor, DeviceManifest, PassthroughPolicy, CHANNEL_INTERACTION_PASSTHROUGH, MANIFEST_REQUEST_PAYLOAD_TYPE,
    NEWLINE_POLICY_CRLF,
};

fn manifest_with(channel: ChannelDescriptor) -> DeviceManifest {
    DeviceManifest {
        device_name: String::new(),
        firmware_version: String::new(),
        protocol_version: 1,
        max_channels: 8,
        channels: vec![channel],
        native_endianness: 0,
        max_payload_len: 512,
        transport: String::new(),
        feature_flags: 0,
        sdk_name: String::new(),
        sdk_version: String::new(),
    }
}

fn channel(channel_id: u32, modes: Vec<u32>, policy: u32) -> ChannelDescriptor {
    ChannelDescriptor {
        channel_id,
        name: "console".to_string(),
        description: String::new(),
        directions: Vec::new(),
        payload_kinds: Vec::new(),
        payload_types: Vec::new(),
        flags: 0,
        default_payload_kind: 0,
        interaction_modes: modes,
        default_interaction_mode: 0,
        passthrough_policy: PassthroughPolicy { input_newline_policy: policy },
    }
}

#[test]
fn channel_names_are_cut_to_whole_characters() {
    assert_eq!(utf8_prefix_len("abc", 2), 2);
    assert_eq!(utf8_prefix_len("é", 1), 0);
    assert_eq!(utf8_prefix_len("😄😄", 7), 4);
    assert_eq!(display_channel_name("🚗🎒😄🔥"), Some("🚗🎒😄".to_string()));
    assert_eq!(display_channel_name("\n\r"), None);
    assert_eq!(display_channel_name("a\tb"), Some("ab".to_string()));
}

#[test]
fn printable_payload_escapes_text_and_hexes_binary() {
    assert_eq!(printable_payload(b"tab\there \"q\""), "tab\\there \\\"q\\\"");
    assert_eq!(printable_payload(&[0xff]), "ff");
    assert_eq!(printable_payload(b""), "");
    assert_eq!(printable_payload_type(""), "-");
    assert_eq!(printable_payload_type("x.y"), "x.y");
}

#[test]
fn decode_stages_name_themselves() {
    assert_eq!(decode_stage(3), HostDecodeStage::Batch);
    assert_eq!(decode_stage(42), HostDecodeStage::Unknown(42));
    assert_eq!(decode_stage_name(HostDecodeStage::Unknown(42)), "Unknown(42)");
    assert_eq!(decode_error_marker(HostDecodeStage::Manifest), "manifest decode error; details in diagnostics");
}

#[test]
fn passthrough_support_follows_manifest() {
    let m = manifest_with(channel(2, vec![CHANNEL_INTERACTION_PASSTHROUGH], NEWLINE_POLICY_CRLF));
    assert!(channel_supports_passthrough(&m, 2));
    assert!(!channel_supports_passthrough(&m, 3));
    assert_eq!(
        passthrough_policy_for_channel(&m, 2),
        Some(PassthroughPolicy { input_newline_policy: NEWLINE_POLICY_CRLF })
    );
    assert_eq!(passthrough_policy_for_channel(&m, 3), None);
    let line = manifest_with(channel(2, Vec::new(), NEWLINE_POLICY_CRLF));
    assert!(!channel_supports_passthrough(&line, 2));
}

fn decode_single_frame(frame: &[u8]) -> MuxEnvelope {
    let mut scanner = FrameScanner::new(DEFAULT_MAX_PAYLOAD_LEN);
    let events = scanner.push(frame);
    assert_eq!(events.len(), 1);
    let StreamEvent::Frame(mux_frame) = &events[0] else {
        panic!("expected record event");
    };
    decode_envelope(&mux_frame.payload).expect("envelope")
}

#[test]
fn main_builds_input_frame_that_round_trips_through_scanner() {
    let frame = build_input_frame(1, b"help", DEFAULT_MAX_PAYLOAD_LEN).expect("valid input frame");
    let mut session = HostSession::new(DEFAULT_MAX_PAYLOAD_LEN).expect("session");
    let events = session.feed(&frame).expect("feed");
    assert_eq!(events.len(), 1);

    let HostEvent::Record(envelope) = &events[0] else {
        panic!("expected record event");
    };
    assert_eq!(envelope.channel_id, 1);
    assert_eq!(envelope.direction, DIRECTION_INPUT);
    assert_eq!(envelope.kind, PAYLOAD_KIND_TEXT);
    assert_eq!(envelope.payload, b"help");
}

#[test]
fn main_builds_manifest_request_frame() {
    let frame = build_manifest_request_frame(DEFAULT_MAX_PAYLOAD_LEN).expect("valid request frame");
    let mut session = HostSession::new(DEFAULT_MAX_PAYLOAD_LEN).expect("session");
    let events = session.feed(&frame).expect("feed");
    assert_eq!(events.len(), 1);

    let HostEvent::Record(envelope) = &events[0] else {
        panic!("expected record event");
    };
    assert_eq!(envelope.channel_id, 0);
    assert_eq!(envelope.direction, DIRECTION_INPUT);
    assert_eq!(envelope.kind, PAYLOAD_KIND_CONTROL);
    assert_eq!(envelope.payload_type, MANIFEST_REQUEST_PAYLOAD_TYPE);
    assert!(envelope.payload.is_empty());
}

#[test]
fn input_frame_refuses_payload_over_limit() {
    assert_eq!(
        build_input_frame(2, b"hello", 4),
        Err(BuildFrameError::PayloadTooLarge { len: 5, max: 4 })
    );
    let frame = build_input_frame(2, b"hell", 4).expect("payload at the limit");
    assert_eq!(decode_single_frame(&frame).payload, b"hell");
}

fn output_record(channel_id: u32, sequence: u32, payload_type: &str, payload: &[u8]) -> MuxEnvelope {
    MuxEnvelope {
        channel_id,
        direction: DIRECTION_OUTPUT,
        sequence,
        timestamp_us: 0,
        kind: PAYLOAD_KIND_TEXT,
        payload_type: payload_type.to_string(),
        payload: payload.to_vec(),
        flags: 0,
    }
}

fn frame_of(envelope: &MuxEnvelope) -> Vec<u8> {
    build_frame_payload(0, &encode_envelope(envelope)).expect("frame")
}

#[test]
fn session_passes_terminal_bytes_and_decodes_records_between_them() {
    let record = output_record(2, 7, "", b"log line");
    let mut stream = b"boot ".to_vec();
    stream.extend_from_slice(&frame_of(&record));
    stream.extend_from_slice(b"tail");
    let mut session = HostSession::new(DEFAULT_MAX_PAYLOAD_LEN).expect("session");

    let events = session.feed(&stream).expect("feed");

    assert_eq!(events, vec![HostEvent::Terminal(b"boot ".to_vec()), HostEvent::Record(record), HostEvent::Terminal(b"tail".to_vec())]);
    assert!(session.finish().expect("finish").is_empty());
}

#[test]
fn session_holds_back_a_possible_magic_until_finish() {
    let mut session = HostSession::new(DEFAULT_MAX_PAYLOAD_LEN).expect("session");

    assert_eq!(session.feed(b"ok E").expect("feed"), vec![HostEvent::Terminal(b"ok ".to_vec())]);
    assert_eq!(session.finish().expect("finish"), vec![HostEvent::Terminal(b"E".to_vec())]);
}

#[test]
fn session_decodes_manifest_frames() {
    let mut manifest = Vec::new();
    write_bytes_field(&mut manifest, 1, b"esp-wiremux");
    write_varint_field(&mut manifest, 7, 512);
    let envelope = output_record(0, 1, "wiremux.v1.DeviceManifest", &manifest);
    let mut session = HostSession::new(DEFAULT_MAX_PAYLOAD_LEN).expect("session");

    let events = session.feed(&frame_of(&envelope)).expect("feed");

    assert_eq!(events.len(), 1);
    let HostEvent::Manifest(decoded) = &events[0] else {
        panic!("expected manifest event");
    };
    assert_eq!(decoded.device_name, "esp-wiremux");
    assert_eq!(decoded.max_payload_len, 512);
}

#[test]
fn session_reports_undecodable_manifest_with_its_stage() {
    let bad = vec![0x0a, 0x05, b'x'];
    let envelope = output_record(0, 1, "wiremux.v1.DeviceManifest", &bad);
    let mut session = HostSession::new(DEFAULT_MAX_PAYLOAD_LEN).expect("session");

    let events = session.feed(&frame_of(&envelope)).expect("feed");

    assert_eq!(events.len(), 1);
    let HostEvent::DecodeError(err) = &events[0] else {
        panic!("expected decode error");
    };
    assert_eq!(err.stage, HostDecodeStage::Manifest);
    assert_eq!(err.status, DECODE_STATUS_FAILED);
    assert_eq!(err.payload, bad);
}

#[test]
fn session_reports_undecodable_envelope() {
    let payload = vec![0x0a, 0x05];
    let frame = build_frame_payload(0, &payload).expect("frame");
    let mut session = HostSession::new(DEFAULT_MAX_PAYLOAD_LEN).expect("session");

    let events = session.feed(&frame).expect("feed");

    assert_eq!(events.len(), 1);
    let HostEvent::DecodeError(err) = &events[0] else {
        panic!("expected decode error");
    };
    assert_eq!(err.stage, HostDecodeStage::Envelope);
    assert_eq!(err.payload, payload);
}

#[test]
fn session_unpacks_batches_into_records_and_a_summary() {
    let first = output_record(2, 1, "", b"one");
    let second = output_record(3, 2, "", b"two");
    let raw = encode_batch_records(&[first.clone(), second.clone()]);
    let batch = encode_batch(&MuxBatch { compression: COMPRESSION_NONE, records: raw.clone(), uncompressed_len: raw.len() as u32 });
    let envelope = output_record(0, 9, BATCH_PAYLOAD_TYPE, &batch);
    let mut session = HostSession::new(DEFAULT_MAX_PAYLOAD_LEN).expect("session");

    let events = session.feed(&frame_of(&envelope)).expect("feed");

    assert_eq!(
        events,
        vec![
            HostEvent::Record(first),
            HostEvent::Record(second),
            HostEvent::BatchSummary(BatchSummary {
                compression: COMPRESSION_NONE,
                encoded_bytes: raw.len(),
                raw_bytes: raw.len(),
                record_count: 2,
            }),
        ]
    );
}

#[test]
fn session_reports_batch_that_does_not_unpack() {
    let batch = encode_batch(&MuxBatch { compression: COMPRESSION_NONE, records: b"abc".to_vec(), uncompressed_len: 5 });
    let envelope = output_record(0, 9, BATCH_PAYLOAD_TYPE, &batch);
    let mut session = HostSession::new(DEFAULT_MAX_PAYLOAD_LEN).expect("session");

    let events = session.feed(&frame_of(&envelope)).expect("feed");

    assert_eq!(events.len(), 1);
    let HostEvent::DecodeError(err) = &events[0] else {
        panic!("expected decode error");
    };
    assert_eq!(err.stage, HostDecodeStage::Compression);
    assert_eq!(err.payload, batch);
}

#[test]
fn session_reports_crc_mismatch() {
    let mut frame = frame_of(&output_record(1, 1, "", b"x"));
    let last = frame.len() - 1;
    frame[last] ^= 0xff;
    let mut session = HostSession::new(DEFAULT_MAX_PAYLOAD_LEN).expect("session");

    let events = session.feed(&frame).expect("feed");

    assert_eq!(events.len(), 1);
    assert!(matches!(events[0], HostEvent::CrcError(_)));
}
