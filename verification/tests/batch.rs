use wiremux::batch::{
    decode_batch, decode_batch_records, encode_batch, encode_batch_records, MuxBatch,
    BATCH_PAYLOAD_TYPE, COMPRESSION_HEATSHRINK,
};
use wiremux::envelope::{MuxEnvelope, DIRECTION_OUTPUT, PAYLOAD_KIND_TEXT};

#[test]
fn encodes_and_decodes_batch_records() {
    let records = vec![
        MuxEnvelope {
            channel_id: 2,
            direction: DIRECTION_OUTPUT,
            sequence: 1,
            timestamp_us: 10,
            kind: PAYLOAD_KIND_TEXT,
            payload_type: String::new(),
            payload: b"hello".to_vec(),
            flags: 0,
        },
        MuxEnvelope {
            channel_id: 3,
            direction: DIRECTION_OUTPUT,
            sequence: 2,
            timestamp_us: 20,
            kind: PAYLOAD_KIND_TEXT,
            payload_type: BATCH_PAYLOAD_TYPE.to_string(),
            payload: b"world".to_vec(),
            flags: 1,
        },
    ];

    assert_eq!(
        decode_batch_records(&encode_batch_records(&records)),
        Ok(records)
    );
}

#[test]
fn encodes_and_decodes_batch_metadata() {
    let batch = MuxBatch {
        compression: COMPRESSION_HEATSHRINK,
        records: vec![1, 2, 3],
        uncompressed_len: 9,
    };

    assert_eq!(decode_batch(&encode_batch(&batch)), Ok(batch));
}

#[test]
fn empty_record_list_encodes_to_nothing() {
    assert!(encode_batch_records(&[]).is_empty());
    assert_eq!(decode_batch_records(&[]), Ok(Vec::new()));
}

#[test]
fn encode_batch_layout() {
    let batch = MuxBatch { compression: 2, records: vec![7], uncompressed_len: 1 };
    assert_eq!(encode_batch(&batch), vec![0x08, 0x02, 0x12, 0x01, 0x07, 0x18, 0x01]);
}
