use wiremux::manifest::{
    decode_manifest, encode_manifest_request, INTERACTION_MODE_LINE, INTERACTION_MODE_PASSTHROUGH,
};
use wiremux::wire::{write_bytes_field, write_varint_field, DecodeError};

#[test]
fn manifest_request_is_empty_message() {
    assert!(encode_manifest_request().is_empty());
}

#[test]
fn decodes_manifest_with_channel_interaction_modes() {
    let mut channel = Vec::new();
    write_varint_field(&mut channel, 1, 1);
    write_bytes_field(&mut channel, 2, b"console");
    write_varint_field(&mut channel, 4, 1);
    write_varint_field(&mut channel, 4, 2);
    write_varint_field(&mut channel, 5, 1);
    write_varint_field(&mut channel, 8, 1);
    write_varint_field(&mut channel, 9, INTERACTION_MODE_LINE.into());
    write_varint_field(&mut channel, 9, INTERACTION_MODE_PASSTHROUGH.into());
    write_varint_field(&mut channel, 10, INTERACTION_MODE_LINE.into());

    let mut manifest = Vec::new();
    write_bytes_field(&mut manifest, 1, b"esp-wiremux");
    write_varint_field(&mut manifest, 3, 1);
    write_varint_field(&mut manifest, 4, 8);
    write_bytes_field(&mut manifest, 5, &channel);
    write_varint_field(&mut manifest, 7, 512);
    write_bytes_field(&mut manifest, 8, b"usb_serial_jtag");
    write_varint_field(&mut manifest, 9, 0x11);

    let decoded = decode_manifest(&manifest).expect("manifest decodes");
    assert_eq!(decoded.device_name, "esp-wiremux");
    assert_eq!(decoded.max_payload_len, 512);
    assert_eq!(decoded.channels.len(), 1);
    assert_eq!(decoded.channels[0].name, "console");
    assert_eq!(
        decoded.channels[0].interaction_modes,
        vec![INTERACTION_MODE_LINE, INTERACTION_MODE_PASSTHROUGH]
    );
    assert_eq!(
        decoded.channels[0].default_interaction_mode,
        INTERACTION_MODE_LINE
    );
}

#[test]
fn manifest_rejects_truncated_and_invalid_text() {
    let mut manifest = Vec::new();
    write_bytes_field(&mut manifest, 1, b"esp-wiremux");
    assert_eq!(decode_manifest(&manifest[..manifest.len() - 1]), Err(DecodeError::Truncated));

    let mut bad = Vec::new();
    write_bytes_field(&mut bad, 1, &[0xff, 0xfe]);
    assert_eq!(decode_manifest(&bad), Err(DecodeError::InvalidUtf8));

    let wire_type_5 = vec![(1 << 3) | 5, 0, 0, 0, 0];
    assert_eq!(decode_manifest(&wire_type_5), Err(DecodeError::UnsupportedWireType(5)));
}
