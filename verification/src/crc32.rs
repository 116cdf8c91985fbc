use vstd::prelude::*;

verus! {

/// The reflected CRC-32 polynomial (IEEE 802.3).
pub const CRC32_POLY: u32 = 0xEDB8_8320;

/// One bit step of the reflected CRC-32 register.
pub open spec fn crc_bit_step(crc: u32) -> u32 {
    if crc & 1 == 1 {
        (crc >> 1u32) ^ CRC32_POLY
    } else {
        crc >> 1u32
    }
}

/// `n` bit steps of the register.
pub open spec fn crc_bit_steps(crc: u32, n: nat) -> u32
    decreases n,
{
    if n == 0 {
        crc
    } else {
        crc_bit_steps(crc_bit_step(crc), (n - 1) as nat)
    }
}

/// Feeding one byte into the register.
pub open spec fn crc_update_byte(crc: u32, byte: u8) -> u32 {
    crc_bit_steps(crc ^ (byte as u32), 8)
}

/// The register after feeding every byte of `bytes`, starting from `init`.
pub open spec fn crc_register(init: u32, bytes: Seq<u8>) -> u32
    decreases bytes.len(),
{
    if bytes.len() == 0 {
        init
    } else {
        crc_update_byte(crc_register(init, bytes.drop_last()), bytes.last())
    }
}

/// CRC-32 (ISO-HDLC) of a byte sequence: initial register all ones,
/// final value complemented.
pub open spec fn spec_crc32(bytes: Seq<u8>) -> u32 {
    !crc_register(0xFFFF_FFFFu32, bytes)
}

fn update_byte(crc: u32, byte: u8) -> (r: u32)
    ensures
        r == crc_update_byte(crc, byte),
{
    let mut c: u32 = crc ^ (byte as u32);
    let mut bit: usize = 0;
    while bit < 8
        invariant
            bit <= 8,
            crc_bit_steps(c, (8 - bit) as nat) == crc_update_byte(crc, byte),
        decreases 8 - bit,
    {
        let next = if c & 1 == 1 {
            (c >> 1u32) ^ CRC32_POLY
        } else {
            c >> 1u32
        };
        assert(next == crc_bit_step(c));
        c = next;
        bit = bit + 1;
    }
    c
}

/// Computes the CRC-32 checksum that protects a frame payload.
pub fn crc32(bytes: &[u8]) -> (r: u32)
    ensures
        r == spec_crc32(bytes@),
{
    let mut crc: u32 = 0xFFFF_FFFF;
    let mut i: usize = 0;
    while i < bytes.len()
        invariant
            i <= bytes@.len(),
            crc == crc_register(0xFFFF_FFFFu32, bytes@.subrange(0, i as int)),
        decreases bytes@.len() - i,
    {
        proof {
            let s = bytes@.subrange(0, i as int + 1);
            assert(s.drop_last() =~= bytes@.subrange(0, i as int));
            assert(s.last() == bytes@[i as int]);
        }
        crc = update_byte(crc, bytes[i]);
        i = i + 1;
    }
    assert(bytes@.subrange(0, i as int) =~= bytes@);
    !crc
}

} // verus!
