//! Batches: several records packed into one payload, possibly compressed.
use vstd::prelude::*;
use crate::wire;
use crate::wire::{
    bytes_field_len, read_field, varint_field_len, write_bytes_field, write_varint, write_varint_field,
    extend_bytes, DecodeError, Field, FieldValue,
};
use crate::envelope;
use crate::envelope::{decode_envelope, encode_envelope, EnvelopeView, MuxEnvelope};

verus! {

pub const BATCH_PAYLOAD_TYPE: &'static str = "wiremux.v1.MuxBatch";
pub const COMPRESSION_NONE: u32 = 0;
pub const COMPRESSION_HEATSHRINK: u32 = 1;
pub const COMPRESSION_LZ4: u32 = 2;

/// Batch metadata and its (possibly compressed) record bytes.
#[derive(Debug, Clone, PartialEq, Eq)]
pub struct MuxBatch {
    pub compression: u32,
    pub records: Vec<u8>,
    pub uncompressed_len: u32,
}

/// The mathematical content of a batch.
#[verifier::ext_equal]
pub struct BatchView {
    pub compression: u32,
    pub records: Seq<u8>,
    pub uncompressed_len: u32,
}

impl View for MuxBatch {
    type V = BatchView;

    open spec fn view(&self) -> BatchView {
        BatchView { compression: self.compression, records: self.records@, uncompressed_len: self.uncompressed_len }
    }
}

/// The views of a list of envelopes.
pub open spec fn envelopes_view(records: Seq<MuxEnvelope>) -> Seq<EnvelopeView> {
    records.map_values(|r: MuxEnvelope| r@)
}

/// One record inside the batch record list: field 1, length-delimited.
pub open spec fn record_field_bytes(r: EnvelopeView) -> Seq<u8> {
    wire::bytes_field_bytes(1, envelope::spec_encode_envelope(r))
}

/// The record list: every record as field 1, in order.
pub open spec fn spec_encode_batch_records(records: Seq<EnvelopeView>) -> Seq<u8>
    decreases records.len(),
{
    if records.len() == 0 {
        Seq::empty()
    } else {
        spec_encode_batch_records(records.drop_last()) + record_field_bytes(records.last())
    }
}

/// Applying one field of a record list: field 1 holds a record, other
/// fields are skipped.
pub open spec fn apply_records_field(records: Seq<EnvelopeView>, key: u64, value: FieldValue) -> Result<Seq<EnvelopeView>, DecodeError> {
    match value {
        FieldValue::Bytes(b) => if key >> 3 == 1 {
            match envelope::spec_decode_envelope(b) {
                Ok(r) => Ok(records.push(r)),
                Err(e) => Err(e),
            }
        } else {
            Ok(records)
        },
        FieldValue::Varint(_) => Ok(records),
    }
}

/// [`apply_records_field`] as a function value.
pub open spec fn records_fields() -> spec_fn(Seq<EnvelopeView>, u64, FieldValue) -> Result<Seq<EnvelopeView>, DecodeError> {
    |rs: Seq<EnvelopeView>, k: u64, v: FieldValue| apply_records_field(rs, k, v)
}

/// The records decoded from a record list.
pub open spec fn spec_decode_batch_records(bytes: Seq<u8>) -> Result<Seq<EnvelopeView>, DecodeError> {
    wire::decode_fields(bytes, 0, Seq::empty(), records_fields())
}

/// The bytes of a batch: compression, records, uncompressed length.
pub open spec fn spec_encode_batch(b: BatchView) -> Seq<u8> {
    wire::varint_field_bytes(1, b.compression as u64) + wire::bytes_field_bytes(2, b.records)
        + wire::varint_field_bytes(3, b.uncompressed_len as u64)
}

/// Applying one field of a batch.
pub open spec fn apply_batch_field(b: BatchView, key: u64, value: FieldValue) -> Result<BatchView, DecodeError> {
    let n = key >> 3;
    match value {
        FieldValue::Varint(v) => Ok(
            if n == 1 {
                BatchView { compression: v as u32, ..b }
            } else if n == 3 {
                BatchView { uncompressed_len: v as u32, ..b }
            } else {
                b
            },
        ),
        FieldValue::Bytes(bs) => Ok(if n == 2 { BatchView { records: bs, ..b } } else { b }),
    }
}

/// [`apply_batch_field`] as a function value.
pub open spec fn batch_fields() -> spec_fn(BatchView, u64, FieldValue) -> Result<BatchView, DecodeError> {
    |b: BatchView, k: u64, v: FieldValue| apply_batch_field(b, k, v)
}

/// The batch every decode starts from.
pub open spec fn empty_batch() -> BatchView {
    BatchView { compression: COMPRESSION_NONE, records: Seq::empty(), uncompressed_len: 0 }
}

/// The batch decoded from `bytes`.
pub open spec fn spec_decode_batch(bytes: Seq<u8>) -> Result<BatchView, DecodeError> {
    wire::decode_fields(bytes, 0, empty_batch(), batch_fields())
}

/// Encoded size of one record, saturated at `usize::MAX`.
pub fn record_encoded_len(record: &MuxEnvelope) -> (r: usize)
    ensures
        r == envelope::saturate(envelope::spec_encode_envelope(record@).len() as int),
{
    envelope::encoded_len(record)
}

/// Capacity hint for a record list: its encoded size, saturated.
pub fn records_encoded_len(records: &[MuxEnvelope]) -> (r: usize)
    ensures
        r == envelope::saturate(spec_encode_batch_records(envelopes_view(records@)).len() as int),
{
    let mut total: usize = 0;
    let mut i: usize = 0;
    while i < records.len()
        invariant
            i <= records@.len(),
            total == envelope::saturate(spec_encode_batch_records(envelopes_view(records@.subrange(0, i as int))).len() as int),
        decreases records@.len() - i,
    {
        let ghost prefix = envelopes_view(records@.subrange(0, i as int));
        let ghost next = envelopes_view(records@.subrange(0, i as int + 1));
        proof {
            assert(next.drop_last() =~= prefix);
            assert(next.last() == records@[i as int]@);
        }
        let n = record_encoded_len(&records[i]);
        let field = if n == usize::MAX { None } else { bytes_field_len(1, n) };
        total = match field {
            Some(f) => total.saturating_add(f),
            None => usize::MAX,
        };
        i = i + 1;
    }
    assert(records@.subrange(0, i as int) =~= records@);
    total
}

/// Encodes one record on its own.
pub fn encode_record(record: &MuxEnvelope) -> (r: Vec<u8>)
    ensures
        r@ == envelope::spec_encode_envelope(record@),
{
    encode_envelope(record)
}

/// Decodes one record on its own.
pub fn decode_record(bytes: &[u8]) -> (r: Result<MuxEnvelope, DecodeError>)
    ensures
        match envelope::spec_decode_envelope(bytes@) {
            Ok(e) => r is Ok && r->Ok_0@ == e,
            Err(err) => r == Err::<MuxEnvelope, DecodeError>(err),
        },
{
    decode_envelope(bytes)
}

/// Encodes a list of records as a batch record list.
pub fn encode_batch_records(records: &[MuxEnvelope]) -> (r: Vec<u8>)
    ensures
        r@ == spec_encode_batch_records(envelopes_view(records@)),
{
    let mut out = Vec::with_capacity(records_encoded_len(records));
    let mut i: usize = 0;
    while i < records.len()
        invariant
            i <= records@.len(),
            out@ == spec_encode_batch_records(envelopes_view(records@.subrange(0, i as int))),
        decreases records@.len() - i,
    {
        let ghost prefix = envelopes_view(records@.subrange(0, i as int));
        let ghost next = envelopes_view(records@.subrange(0, i as int + 1));
        proof {
            assert(next.drop_last() =~= prefix);
            assert(next.last() == records@[i as int]@);
        }
        let record_bytes = encode_record(&records[i]);
        write_varint(&mut out, (1u64 << 3u64) | 2);
        write_varint(&mut out, record_bytes.len() as u64);
        extend_bytes(&mut out, record_bytes.as_slice());
        proof {
            assert((1u64 << 3u64) | 2 == wire::field_key(1, 2)) by (bit_vector);
            assert(out@ =~= spec_encode_batch_records(next));
        }
        i = i + 1;
    }
    assert(records@.subrange(0, i as int) =~= records@);
    out
}

/// Decodes a batch record list into its records.
pub fn decode_batch_records(bytes: &[u8]) -> (r: Result<Vec<MuxEnvelope>, DecodeError>)
    ensures
        match spec_decode_batch_records(bytes@) {
            Ok(rs) => r is Ok && envelopes_view(r->Ok_0@) == rs,
            Err(err) => r == Err::<Vec<MuxEnvelope>, DecodeError>(err),
        },
{
    let ghost apply = records_fields();
    let mut cursor: usize = 0;
    let mut records: Vec<MuxEnvelope> = Vec::new();
    assert(envelopes_view(records@) =~= Seq::<EnvelopeView>::empty());
    while cursor < bytes.len()
        invariant
            cursor <= bytes@.len(),
            apply == records_fields(),
            wire::decode_fields(bytes@, cursor as int, envelopes_view(records@), apply) == spec_decode_batch_records(bytes@),
        decreases bytes@.len() - cursor,
    {
        let ghost before = envelopes_view(records@);
        proof {
            wire::lemma_read_field_advances(bytes@, cursor as int);
        }
        let (key, field) = read_field(bytes, &mut cursor)?;
        let ghost fv = field.view();
        if let Field::Bytes(b) = field {
            if key >> 3u64 == 1 {
                let record = decode_record(b.as_slice())?;
                records.push(record);
                proof {
                    assert(envelopes_view(records@) =~= before.push(record@));
                }
            }
        }
        assert(apply(before, key, fv) == Ok::<Seq<EnvelopeView>, DecodeError>(envelopes_view(records@)));
    }
    Ok(records)
}

/// Encodes batch metadata and record bytes.
pub fn encode_batch(batch: &MuxBatch) -> (r: Vec<u8>)
    ensures
        r@ == spec_encode_batch(batch@),
{
    let head = varint_field_len(1, batch.compression as u64) + varint_field_len(3, batch.uncompressed_len as u64);
    let capacity = match bytes_field_len(2, batch.records.len()) {
        Some(n) => n.saturating_add(head),
        None => usize::MAX,
    };
    let mut out = Vec::with_capacity(capacity);
    write_varint_field(&mut out, 1, batch.compression as u64);
    write_bytes_field(&mut out, 2, batch.records.as_slice());
    write_varint_field(&mut out, 3, batch.uncompressed_len as u64);
    assert(out@ =~= spec_encode_batch(batch@));
    out
}

/// Decodes batch metadata and record bytes.
pub fn decode_batch(bytes: &[u8]) -> (r: Result<MuxBatch, DecodeError>)
    ensures
        match spec_decode_batch(bytes@) {
            Ok(b) => r is Ok && r->Ok_0@ == b,
            Err(err) => r == Err::<MuxBatch, DecodeError>(err),
        },
{
    let ghost apply = batch_fields();
    let mut cursor: usize = 0;
    let mut batch = MuxBatch { compression: COMPRESSION_NONE, records: Vec::new(), uncompressed_len: 0 };
    while cursor < bytes.len()
        invariant
            cursor <= bytes@.len(),
            apply == batch_fields(),
            wire::decode_fields(bytes@, cursor as int, batch@, apply) == spec_decode_batch(bytes@),
        decreases bytes@.len() - cursor,
    {
        let ghost before = batch@;
        proof {
            wire::lemma_read_field_advances(bytes@, cursor as int);
        }
        let (key, field) = read_field(bytes, &mut cursor)?;
        let ghost fv = field.view();
        let field_number = key >> 3u64;
        match field {
            Field::Varint(v) => {
                if field_number == 1 {
                    batch.compression = v as u32;
                } else if field_number == 3 {
                    batch.uncompressed_len = v as u32;
                }
            },
            Field::Bytes(b) => {
                if field_number == 2 {
                    batch.records = b;
                }
            },
        }
        assert(apply(before, key, fv) == Ok::<BatchView, DecodeError>(batch@));
    }
    Ok(batch)
}

} // verus!

verus! {

/// Decoding encoded batch metadata gives back the same batch.
pub proof fn lemma_batch_round_trip(b: BatchView)
    requires
        spec_encode_batch(b).len() <= usize::MAX,
    ensures
        spec_decode_batch(spec_encode_batch(b)) == Ok::<BatchView, DecodeError>(b),
{
    let apply = batch_fields();
    let f1 = wire::varint_field_bytes(1, b.compression as u64);
    let f2 = wire::bytes_field_bytes(2, b.records);
    let f3 = wire::varint_field_bytes(3, b.uncompressed_len as u64);
    let bytes = spec_encode_batch(b);
    let p1 = f1.len() as int;
    let p2 = p1 + f2.len();
    let p3 = p2 + f3.len();
    assert(bytes.subrange(0, p1) =~= f1);
    assert(bytes.subrange(p1, p2) =~= f2);
    assert(bytes.subrange(p2, p3) =~= f3);
    let m0 = empty_batch();
    let m1 = BatchView { compression: b.compression, ..m0 };
    let m2 = BatchView { records: b.records, ..m1 };
    let m3 = BatchView { uncompressed_len: b.uncompressed_len, ..m2 };
    assert(wire::decode_fields(bytes, 0, m0, apply) == wire::decode_fields(bytes, p1, m1, apply)) by {
        wire::lemma_decode_varint_field(bytes, 0, m0, apply, 1, b.compression as u64);
    }
    assert(wire::decode_fields(bytes, p1, m1, apply) == wire::decode_fields(bytes, p2, m2, apply)) by {
        wire::lemma_decode_bytes_field(bytes, p1, m1, apply, 2, b.records);
    }
    assert(wire::decode_fields(bytes, p2, m2, apply) == wire::decode_fields(bytes, p3, m3, apply)) by {
        wire::lemma_decode_varint_field(bytes, p2, m2, apply, 3, b.uncompressed_len as u64);
    }
    assert(m3 =~= b);
}

proof fn lemma_records_prefix(rs: Seq<EnvelopeView>, j: int)
    requires
        0 <= j <= rs.len(),
    ensures
        spec_encode_batch_records(rs.take(j)).len() <= spec_encode_batch_records(rs).len(),
        spec_encode_batch_records(rs).subrange(0, spec_encode_batch_records(rs.take(j)).len() as int)
            == spec_encode_batch_records(rs.take(j)),
    decreases rs.len(),
{
    let whole = spec_encode_batch_records(rs);
    if j == rs.len() {
        assert(rs.take(j) =~= rs);
        assert(whole.subrange(0, whole.len() as int) =~= whole);
    } else {
        let dl = rs.drop_last();
        assert(rs.take(j) =~= dl.take(j));
        lemma_records_prefix(dl, j);
        let part = spec_encode_batch_records(dl);
        assert(whole == part + record_field_bytes(rs.last()));
        let n = spec_encode_batch_records(rs.take(j)).len() as int;
        assert(whole.subrange(0, n) =~= part.subrange(0, n));
    }
}

proof fn lemma_decode_records_from(rs: Seq<EnvelopeView>, i: int)
    requires
        0 <= i <= rs.len(),
        spec_encode_batch_records(rs).len() <= usize::MAX,
    ensures
        wire::decode_fields(
            spec_encode_batch_records(rs),
            spec_encode_batch_records(rs.take(i)).len() as int,
            rs.take(i),
            records_fields(),
        ) == Ok::<Seq<EnvelopeView>, DecodeError>(rs),
    decreases rs.len() - i,
{
    let bytes = spec_encode_batch_records(rs);
    let li = spec_encode_batch_records(rs.take(i)).len() as int;
    lemma_records_prefix(rs, i);
    if i == rs.len() {
        assert(rs.take(i) =~= rs);
    } else {
        let next = rs.take(i + 1);
        assert(next.drop_last() =~= rs.take(i));
        assert(next.last() == rs[i]);
        lemma_records_prefix(rs, i + 1);
        let f = record_field_bytes(rs[i]);
        let lj = spec_encode_batch_records(next).len() as int;
        assert(spec_encode_batch_records(next) == spec_encode_batch_records(rs.take(i)) + f);
        assert(bytes.subrange(li, lj) =~= f) by {
            assert(bytes.subrange(0, lj) == spec_encode_batch_records(next));
            assert forall|k: int| 0 <= k < f.len() implies bytes.subrange(li, lj)[k] == f[k] by {
                assert(bytes.subrange(0, lj)[li + k] == spec_encode_batch_records(next)[li + k]);
            }
        }
        let enc = envelope::spec_encode_envelope(rs[i]);
        wire::lemma_decode_bytes_field(bytes, li, rs.take(i), records_fields(), 1, enc);
        envelope::lemma_envelope_round_trip(rs[i]);
        assert(rs.take(i).push(rs[i]) =~= next);
        lemma_decode_records_from(rs, i + 1);
    }
}

/// Decoding an encoded record list gives back the same records, in order.
pub proof fn lemma_batch_records_round_trip(records: Seq<EnvelopeView>)
    requires
        spec_encode_batch_records(records).len() <= usize::MAX,
    ensures
        spec_decode_batch_records(spec_encode_batch_records(records)) == Ok::<Seq<EnvelopeView>, DecodeError>(records),
{
    assert(records.take(0) =~= Seq::<EnvelopeView>::empty());
    assert(spec_encode_batch_records(records.take(0)).len() == 0);
    lemma_decode_records_from(records, 0);
}

} // verus!
