//! The record envelope: one channel message with its metadata.
use vstd::prelude::*;
use vstd::utf8::*;
use crate::wire;
use crate::wire::{
    bytes_field_len, read_field, varint_field_len, write_bytes_field, write_varint_field, DecodeError,
    Field, FieldValue,
};
use crate::text::{str_bytes, string_from_utf8};

verus! {

/// A record carried on a channel.
#[derive(Debug, Clone, PartialEq, Eq)]
pub struct MuxEnvelope {
    pub channel_id: u32,
    pub direction: u32,
    pub sequence: u32,
    pub timestamp_us: u64,
    pub kind: u32,
    pub payload_type: String,
    pub payload: Vec<u8>,
    pub flags: u32,
}

pub const DIRECTION_INPUT: u32 = 1;
pub const DIRECTION_OUTPUT: u32 = 2;
pub const PAYLOAD_KIND_TEXT: u32 = 1;
pub const PAYLOAD_KIND_BINARY: u32 = 2;
pub const PAYLOAD_KIND_PROTOBUF: u32 = 3;
pub const PAYLOAD_KIND_CONTROL: u32 = 4;
pub const PAYLOAD_KIND_EVENT: u32 = 5;

/// The mathematical content of an envelope.
#[verifier::ext_equal]
pub struct EnvelopeView {
    pub channel_id: u32,
    pub direction: u32,
    pub sequence: u32,
    pub timestamp_us: u64,
    pub kind: u32,
    pub payload_type: Seq<char>,
    pub payload: Seq<u8>,
    pub flags: u32,
}

impl View for MuxEnvelope {
    type V = EnvelopeView;

    open spec fn view(&self) -> EnvelopeView {
        EnvelopeView {
            channel_id: self.channel_id,
            direction: self.direction,
            sequence: self.sequence,
            timestamp_us: self.timestamp_us,
            kind: self.kind,
            payload_type: self.payload_type@,
            payload: self.payload@,
            flags: self.flags,
        }
    }
}

/// The envelope every decode starts from: all fields zero or empty.
pub open spec fn empty_envelope() -> EnvelopeView {
    EnvelopeView {
        channel_id: 0,
        direction: 0,
        sequence: 0,
        timestamp_us: 0,
        kind: 0,
        payload_type: Seq::empty(),
        payload: Seq::empty(),
        flags: 0,
    }
}

/// The wire bytes of an envelope: fields 1 to 8 in order; the payload type
/// only when it is not empty.
pub open spec fn spec_encode_envelope(e: EnvelopeView) -> Seq<u8> {
    wire::varint_field_bytes(1, e.channel_id as u64)
        + wire::varint_field_bytes(2, e.direction as u64)
        + wire::varint_field_bytes(3, e.sequence as u64)
        + wire::varint_field_bytes(4, e.timestamp_us)
        + wire::varint_field_bytes(5, e.kind as u64)
        + (if e.payload_type.len() == 0 {
            Seq::<u8>::empty()
        } else {
            wire::bytes_field_bytes(6, encode_utf8(e.payload_type))
        })
        + wire::bytes_field_bytes(7, e.payload)
        + wire::varint_field_bytes(8, e.flags as u64)
}

/// Applying one decoded field to an envelope. Varint fields 1 to 5 and 8
/// set the numeric fields (truncated to their width), field 6 sets the
/// payload type when it is valid UTF-8, field 7 the payload; anything else
/// is skipped.
pub open spec fn apply_envelope_field(e: EnvelopeView, key: u64, value: FieldValue) -> Result<EnvelopeView, DecodeError> {
    let n = key >> 3;
    match value {
        FieldValue::Varint(v) => Ok(
            if n == 1 {
                EnvelopeView { channel_id: v as u32, ..e }
            } else if n == 2 {
                EnvelopeView { direction: v as u32, ..e }
            } else if n == 3 {
                EnvelopeView { sequence: v as u32, ..e }
            } else if n == 4 {
                EnvelopeView { timestamp_us: v, ..e }
            } else if n == 5 {
                EnvelopeView { kind: v as u32, ..e }
            } else if n == 8 {
                EnvelopeView { flags: v as u32, ..e }
            } else {
                e
            },
        ),
        FieldValue::Bytes(b) => if n == 6 {
            if valid_utf8(b) {
                Ok(EnvelopeView { payload_type: decode_utf8(b), ..e })
            } else {
                Err(DecodeError::InvalidUtf8)
            }
        } else if n == 7 {
            Ok(EnvelopeView { payload: b, ..e })
        } else {
            Ok(e)
        },
    }
}

/// [`apply_envelope_field`] as a function value.
pub open spec fn envelope_fields() -> spec_fn(EnvelopeView, u64, FieldValue) -> Result<EnvelopeView, DecodeError> {
    |e: EnvelopeView, k: u64, v: FieldValue| apply_envelope_field(e, k, v)
}

/// The envelope decoded from `bytes`.
pub open spec fn spec_decode_envelope(bytes: Seq<u8>) -> Result<EnvelopeView, DecodeError> {
    wire::decode_fields(bytes, 0, empty_envelope(), envelope_fields())
}

/// Saturating sum used for buffer capacities.
pub open spec fn saturate(n: int) -> usize {
    if n <= usize::MAX {
        n as usize
    } else {
        usize::MAX
    }
}

/// Capacity hint for an envelope: its encoded size, saturated at `usize::MAX`.
pub fn encoded_len(envelope: &MuxEnvelope) -> (r: usize)
    ensures
        r == saturate(spec_encode_envelope(envelope@).len() as int),
{
    let pt = str_bytes(envelope.payload_type.as_str());
    proof {
        vstd::utf8::encode_utf8_valid_utf8(envelope.payload_type@);
        lemma_encode_empty_iff(envelope.payload_type@);
    }
    let head = varint_field_len(1, envelope.channel_id as u64)
        + varint_field_len(2, envelope.direction as u64)
        + varint_field_len(3, envelope.sequence as u64)
        + varint_field_len(4, envelope.timestamp_us)
        + varint_field_len(5, envelope.kind as u64)
        + varint_field_len(8, envelope.flags as u64);
    let type_len = if pt.len() == 0 {
        Some(0usize)
    } else {
        bytes_field_len(6, pt.len())
    };
    let payload_len = bytes_field_len(7, envelope.payload.len());
    match (type_len, payload_len) {
        (Some(a), Some(b)) => match a.checked_add(b) {
            Some(ab) => ab.saturating_add(head),
            None => usize::MAX,
        },
        _ => usize::MAX,
    }
}

/// An empty character sequence, and only that, encodes to no bytes.
pub proof fn lemma_encode_empty_iff(s: Seq<char>)
    ensures
        encode_utf8(s).len() == 0 <==> s.len() == 0,
{
    if s.len() > 0 {
        vstd::utf8::char_is_scalar(s[0]);
        assert(encode_scalar(s[0] as u32).len() >= 1);
    }
}

/// Encodes an envelope in the protobuf wire format.
pub fn encode_envelope(envelope: &MuxEnvelope) -> (r: Vec<u8>)
    ensures
        r@ == spec_encode_envelope(envelope@),
{
    let mut out = Vec::with_capacity(encoded_len(envelope));
    write_varint_field(&mut out, 1, envelope.channel_id as u64);
    write_varint_field(&mut out, 2, envelope.direction as u64);
    write_varint_field(&mut out, 3, envelope.sequence as u64);
    write_varint_field(&mut out, 4, envelope.timestamp_us);
    write_varint_field(&mut out, 5, envelope.kind as u64);
    if !envelope.payload_type.as_str().is_empty() {
        let pt = str_bytes(envelope.payload_type.as_str());
        write_bytes_field(&mut out, 6, pt.as_slice());
    }
    write_bytes_field(&mut out, 7, envelope.payload.as_slice());
    write_varint_field(&mut out, 8, envelope.flags as u64);
    assert(out@ =~= spec_encode_envelope(envelope@));
    out
}

/// A fresh envelope with every field zero or empty.
pub fn new_empty_envelope() -> (r: MuxEnvelope)
    ensures
        r@ == empty_envelope(),
{
    MuxEnvelope {
        channel_id: 0,
        direction: 0,
        sequence: 0,
        timestamp_us: 0,
        kind: 0,
        payload_type: String::new(),
        payload: Vec::new(),
        flags: 0,
    }
}

/// Decodes an envelope from protobuf wire bytes.
pub fn decode_envelope(bytes: &[u8]) -> (r: Result<MuxEnvelope, DecodeError>)
    ensures
        match spec_decode_envelope(bytes@) {
            Ok(e) => r is Ok && r->Ok_0@ == e,
            Err(err) => r == Err::<MuxEnvelope, DecodeError>(err),
        },
{
    let ghost apply = envelope_fields();
    let mut cursor: usize = 0;
    let mut envelope = new_empty_envelope();
    while cursor < bytes.len()
        invariant
            cursor <= bytes@.len(),
            apply == envelope_fields(),
            wire::decode_fields(bytes@, cursor as int, envelope@, apply) == spec_decode_envelope(bytes@),
        decreases bytes@.len() - cursor,
    {
        let ghost before = envelope@;
        proof {
            wire::lemma_read_field_advances(bytes@, cursor as int);
        }
        let (key, field) = read_field(bytes, &mut cursor)?;
        let ghost fv = field.view();
        let field_number = key >> 3u64;
        match field {
            Field::Varint(v) => {
                if field_number == 1 {
                    envelope.channel_id = v as u32;
                } else if field_number == 2 {
                    envelope.direction = v as u32;
                } else if field_number == 3 {
                    envelope.sequence = v as u32;
                } else if field_number == 4 {
                    envelope.timestamp_us = v;
                } else if field_number == 5 {
                    envelope.kind = v as u32;
                } else if field_number == 8 {
                    envelope.flags = v as u32;
                }
            },
            Field::Bytes(b) => {
                if field_number == 6 {
                    match string_from_utf8(b) {
                        Some(s) => {
                            envelope.payload_type = s;
                        },
                        None => {
                            assert(apply(before, key, fv) == Err::<EnvelopeView, DecodeError>(DecodeError::InvalidUtf8));
                            return Err(DecodeError::InvalidUtf8);
                        },
                    }
                } else if field_number == 7 {
                    envelope.payload = b;
                }
            },
        }
        assert(apply(before, key, fv) == Ok::<EnvelopeView, DecodeError>(envelope@));
    }
    Ok(envelope)
}

} // verus!

verus! {

/// Decoding what `encode_envelope` wrote gives back the same envelope:
/// every field, the payload type and the payload survive the round trip.
#[verifier::rlimit(50)]
pub proof fn lemma_envelope_round_trip(e: EnvelopeView)
    requires
        spec_encode_envelope(e).len() <= usize::MAX,
    ensures
        spec_decode_envelope(spec_encode_envelope(e)) == Ok::<EnvelopeView, DecodeError>(e),
{
    let apply = envelope_fields();
    let f1 = wire::varint_field_bytes(1, e.channel_id as u64);
    let f2 = wire::varint_field_bytes(2, e.direction as u64);
    let f3 = wire::varint_field_bytes(3, e.sequence as u64);
    let f4 = wire::varint_field_bytes(4, e.timestamp_us);
    let f5 = wire::varint_field_bytes(5, e.kind as u64);
    let pt = encode_utf8(e.payload_type);
    let f6 = if e.payload_type.len() == 0 {
        Seq::<u8>::empty()
    } else {
        wire::bytes_field_bytes(6, pt)
    };
    let f7 = wire::bytes_field_bytes(7, e.payload);
    let f8 = wire::varint_field_bytes(8, e.flags as u64);
    let bytes = spec_encode_envelope(e);
    let p1 = f1.len() as int;
    let p2 = p1 + f2.len();
    let p3 = p2 + f3.len();
    let p4 = p3 + f4.len();
    let p5 = p4 + f5.len();
    let p6 = p5 + f6.len();
    let p7 = p6 + f7.len();
    let p8 = p7 + f8.len();
    assert(bytes.len() == p8);
    assert(bytes.subrange(0, p1) == f1 && bytes.subrange(p1, p2) == f2 && bytes.subrange(p2, p3) == f3
        && bytes.subrange(p3, p4) == f4 && bytes.subrange(p4, p5) == f5 && bytes.subrange(p5, p6) == f6
        && bytes.subrange(p6, p7) == f7 && bytes.subrange(p7, p8) == f8) by {
        assert(bytes == f1 + f2 + f3 + f4 + f5 + f6 + f7 + f8);
        assert(bytes.subrange(0, p1) =~= f1);
        assert(bytes.subrange(p1, p2) =~= f2);
        assert(bytes.subrange(p2, p3) =~= f3);
        assert(bytes.subrange(p3, p4) =~= f4);
        assert(bytes.subrange(p4, p5) =~= f5);
        assert(bytes.subrange(p5, p6) =~= f6);
        assert(bytes.subrange(p6, p7) =~= f7);
        assert(bytes.subrange(p7, p8) =~= f8);
    }

    let m0 = empty_envelope();
    let m1 = EnvelopeView { channel_id: e.channel_id, ..m0 };
    let m2 = EnvelopeView { direction: e.direction, ..m1 };
    let m3 = EnvelopeView { sequence: e.sequence, ..m2 };
    let m4 = EnvelopeView { timestamp_us: e.timestamp_us, ..m3 };
    let m5 = EnvelopeView { kind: e.kind, ..m4 };
    let m6 = EnvelopeView { payload_type: e.payload_type, ..m5 };
    let m7 = EnvelopeView { payload: e.payload, ..m6 };
    let m8 = EnvelopeView { flags: e.flags, ..m7 };
    assert(wire::decode_fields(bytes, 0, m0, apply) == wire::decode_fields(bytes, p1, m1, apply)) by {
        wire::lemma_decode_varint_field(bytes, 0, m0, apply, 1, e.channel_id as u64);
    }
    assert(wire::decode_fields(bytes, p1, m1, apply) == wire::decode_fields(bytes, p2, m2, apply)) by {
        wire::lemma_decode_varint_field(bytes, p1, m1, apply, 2, e.direction as u64);
    }
    assert(wire::decode_fields(bytes, p2, m2, apply) == wire::decode_fields(bytes, p3, m3, apply)) by {
        wire::lemma_decode_varint_field(bytes, p2, m2, apply, 3, e.sequence as u64);
    }
    assert(wire::decode_fields(bytes, p3, m3, apply) == wire::decode_fields(bytes, p4, m4, apply)) by {
        wire::lemma_decode_varint_field(bytes, p3, m3, apply, 4, e.timestamp_us);
    }
    assert(wire::decode_fields(bytes, p4, m4, apply) == wire::decode_fields(bytes, p5, m5, apply)) by {
        wire::lemma_decode_varint_field(bytes, p4, m4, apply, 5, e.kind as u64);
    }
    assert(wire::decode_fields(bytes, p5, m5, apply) == wire::decode_fields(bytes, p6, m6, apply)) by {
        if e.payload_type.len() == 0 {
            assert(m5 =~= m6);
        } else {
            wire::lemma_decode_bytes_field(bytes, p5, m5, apply, 6, pt);
            vstd::utf8::encode_utf8_valid_utf8(e.payload_type);
            vstd::utf8::encode_utf8_decode_utf8(e.payload_type);
        }
    }
    assert(wire::decode_fields(bytes, p6, m6, apply) == wire::decode_fields(bytes, p7, m7, apply)) by {
        wire::lemma_decode_bytes_field(bytes, p6, m6, apply, 7, e.payload);
    }
    assert(wire::decode_fields(bytes, p7, m7, apply) == wire::decode_fields(bytes, p8, m8, apply)) by {
        wire::lemma_decode_varint_field(bytes, p7, m7, apply, 8, e.flags as u64);
    }
    assert(wire::decode_fields(bytes, p8, m8, apply) == Ok::<EnvelopeView, DecodeError>(m8));
    assert(m8 =~= e);
}

} // verus!
