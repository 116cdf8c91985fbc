use wiremux::envelope::{
    decode_envelope, encode_envelope, MuxEnvelope, DIRECTION_INPUT, PAYLOAD_KIND_TEXT,
};
use wiremux::wire::DecodeError;

#[test]
fn decodes_mux_envelope() {
    let bytes = [
        0x08, 0x03, 0x10, 0x02, 0x18, 0x04, 0x20, 0x96, 0x01, 0x28, 0x01, 0x3a, 0x05, b'h', b'e',
        b'l', b'l', b'o', 0x40, 0x00,
    ];

    assert_eq!(
        decode_envelope(&bytes),
        Ok(MuxEnvelope {
            channel_id: 3,
            direction: 2,
            sequence: 4,
            timestamp_us: 150,
            kind: 1,
            payload_type: String::new(),
            payload: b"hello".to_vec(),
            flags: 0
        })
    );
}

#[test]
fn rejects_truncated_payload() {
    assert_eq!(
        decode_envelope(&[0x3a, 0x05, b'h']),
        Err(DecodeError::Truncated)
    );
}

#[test]
fn encodes_input_mux_envelope() {
    let envelope = MuxEnvelope {
        channel_id: 1,
        direction: DIRECTION_INPUT,
        sequence: 7,
        timestamp_us: 0,
        kind: PAYLOAD_KIND_TEXT,
        payload_type: String::new(),
        payload: b"help".to_vec(),
        flags: 0,
    };

    assert_eq!(decode_envelope(&encode_envelope(&envelope)), Ok(envelope));
}

#[test]
fn envelope_round_trip_keeps_payload_type_and_large_values() {
    let envelope = MuxEnvelope {
        channel_id: u32::MAX,
        direction: 2,
        sequence: 300,
        timestamp_us: u64::MAX,
        kind: 5,
        payload_type: "wiremux.v1.Ünïcode".to_string(),
        payload: vec![0, 255, 128],
        flags: 0x8000_0001,
    };
    assert_eq!(decode_envelope(&encode_envelope(&envelope)), Ok(envelope));
}

#[test]
fn encode_envelope_writes_fields_in_order() {
    let envelope = MuxEnvelope {
        channel_id: 3,
        direction: 2,
        sequence: 4,
        timestamp_us: 150,
        kind: 1,
        payload_type: String::new(),
        payload: b"hello".to_vec(),
        flags: 0,
    };
    assert_eq!(
        encode_envelope(&envelope),
        vec![
            0x08, 0x03, 0x10, 0x02, 0x18, 0x04, 0x20, 0x96, 0x01, 0x28, 0x01, 0x3a, 0x05, b'h',
            b'e', b'l', b'l', b'o', 0x40, 0x00
        ]
    );
}

#[test]
fn rejects_invalid_utf8_payload_type() {
    assert_eq!(decode_envelope(&[0x32, 0x01, 0xff]), Err(DecodeError::InvalidUtf8));
}

#[test]
fn rejects_unsupported_wire_type() {
    assert_eq!(decode_envelope(&[0x0d]), Err(DecodeError::UnsupportedWireType(5)));
}

#[test]
fn skips_unknown_fields() {
    let decoded = decode_envelope(&[0x48, 0x07, 0x52, 0x01, 0x00, 0x08, 0x09]).expect("decodes");
    assert_eq!(decoded.channel_id, 9);
}
