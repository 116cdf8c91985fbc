use wiremux::wire::{bytes_field_len, varint_field_len, write_bytes_field, write_varint_field};

#[test]
fn field_keys_take_any_field_number() {
    let mut out = Vec::new();
    write_varint_field(&mut out, 0x2000_0000, 1);
    assert_eq!(out, vec![0x80, 0x80, 0x80, 0x80, 0x10, 0x01]);
    assert_eq!(varint_field_len(0x2000_0000, 1), 6);

    let mut out = Vec::new();
    write_bytes_field(&mut out, u32::MAX, b"x");
    assert_eq!(out, vec![0xfa, 0xff, 0xff, 0xff, 0x7f, 0x01, b'x']);
    assert_eq!(bytes_field_len(u32::MAX, 1), Some(7));
}
