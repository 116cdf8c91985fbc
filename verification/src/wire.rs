//! Protocol-buffer wire primitives: base-128 varints and length-delimited
//! fields, shared by the envelope, batch and manifest codecs.
use vstd::prelude::*;

verus! {

/// Why a protobuf message could not be decoded.
#[derive(Debug, Clone, PartialEq, Eq)]
pub enum DecodeError {
    Truncated,
    UnsupportedWireType(u64),
    InvalidUtf8,
}

/// Wire type of a varint field.
pub const WIRE_VARINT: u64 = 0;
/// Wire type of a length-delimited field.
pub const WIRE_LEN: u64 = 2;

/// The base-128 encoding of `v`: seven bits per byte, least significant
/// group first, high bit set on every byte but the last.
pub open spec fn varint_bytes(v: u64) -> Seq<u8>
    decreases v,
{
    if v < 0x80 {
        seq![v as u8]
    } else {
        proof {
            assert(v >= 0x80 ==> v >> 7u64 < v) by (bit_vector);
        }
        seq![((v & 0x7f) | 0x80) as u8] + varint_bytes(v >> 7u64)
    }
}

/// Key of a field: field number shifted past the three wire-type bits.
pub open spec fn field_key(field_number: u64, wire_type: u64) -> u64 {
    ((field_number << 3u64) | wire_type) as u64
}

/// Bytes of a varint field.
pub open spec fn varint_field_bytes(field_number: u64, value: u64) -> Seq<u8> {
    varint_bytes(field_key(field_number, WIRE_VARINT)) + varint_bytes(value)
}

/// Bytes of a length-delimited field.
pub open spec fn bytes_field_bytes(field_number: u64, value: Seq<u8>) -> Seq<u8> {
    varint_bytes(field_key(field_number, WIRE_LEN)) + varint_bytes(value.len() as u64) + value
}

/// Reading a varint at `pos`, `k` groups already accumulated into `acc`.
/// At most ten bytes are read; the tenth contributes its low bit only.
pub open spec fn varint_parse(bytes: Seq<u8>, pos: int, k: nat, acc: u64) -> Result<(u64, int), DecodeError>
    decreases 10 - k,
{
    if k >= 10 || pos < 0 || pos >= bytes.len() {
        Err(DecodeError::Truncated)
    } else {
        let byte = bytes[pos];
        let next = acc | (((byte & 0x7f) as u64) << ((7 * k) as u64));
        if byte & 0x80 == 0 {
            Ok((next, pos + 1))
        } else {
            varint_parse(bytes, pos + 1, k + 1, next)
        }
    }
}

/// The varint at `pos` and the position just past it.
pub open spec fn spec_read_varint(bytes: Seq<u8>, pos: int) -> Result<(u64, int), DecodeError> {
    varint_parse(bytes, pos, 0, 0)
}

/// The length-delimited value at `pos` and the position just past it.
pub open spec fn spec_read_len_delimited(bytes: Seq<u8>, pos: int) -> Result<(Seq<u8>, int), DecodeError> {
    match spec_read_varint(bytes, pos) {
        Err(e) => Err(e),
        Ok((len, start)) => {
            let end = start + (len as usize);
            if end > usize::MAX || end > bytes.len() {
                Err(DecodeError::Truncated)
            } else {
                Ok((bytes.subrange(start, end), end))
            }
        },
    }
}

/// What a field carries.
pub enum FieldValue {
    Varint(u64),
    Bytes(Seq<u8>),
}

/// The next field at `pos`: its key, its value, and the position after it.
/// Only varint and length-delimited wire types are understood.
pub open spec fn spec_read_field(bytes: Seq<u8>, pos: int) -> Result<(u64, FieldValue, int), DecodeError> {
    match spec_read_varint(bytes, pos) {
        Err(e) => Err(e),
        Ok((key, p)) => {
            let wire_type = key & 7;
            if wire_type == WIRE_VARINT {
                match spec_read_varint(bytes, p) {
                    Err(e) => Err(e),
                    Ok((v, q)) => Ok((key, FieldValue::Varint(v), q)),
                }
            } else if wire_type == WIRE_LEN {
                match spec_read_len_delimited(bytes, p) {
                    Err(e) => Err(e),
                    Ok((v, q)) => Ok((key, FieldValue::Bytes(v), q)),
                }
            } else {
                Err(DecodeError::UnsupportedWireType(wire_type))
            }
        },
    }
}

/// Number of bytes of the varint encoding of `value`.
pub fn varint_len(value: u64) -> (r: usize)
    ensures
        r == varint_bytes(value).len(),
        1 <= r <= 10,
{
    proof {
        lemma_varint_bytes_len(value);
    }
    let mut v = value;
    let mut len: usize = 1;
    while v >= 0x80
        invariant
            1 <= len <= 10,
            varint_bytes(v).len() + len - 1 == varint_bytes(value).len(),
            varint_bytes(value).len() <= 10,
        decreases v,
    {
        assert(v >= 0x80 ==> v >> 7u64 < v) by (bit_vector);
        proof {
            lemma_varint_bytes_len(v >> 7u64);
        }
        v = v >> 7u64;
        len = len + 1;
    }
    len
}

/// The varint encoding of a `u64` has between one and ten bytes.
pub proof fn lemma_varint_bytes_len(v: u64)
    ensures
        1 <= varint_bytes(v).len() <= 10,
        v < 0x80 <==> varint_bytes(v).len() == 1,
{
    assert((v << 0u64) >> 0u64 == v) by (bit_vector);
    lemma_varint_bytes_len_bound(v, 0);
}

proof fn lemma_varint_bytes_len_bound(v: u64, s: u64)
    requires
        s <= 63,
        s % 7 == 0,
        (v << s) >> s == v,
    ensures
        1 <= varint_bytes(v).len() <= 10 - s / 7,
        v < 0x80 <==> varint_bytes(v).len() == 1,
    decreases v,
{
    if v >= 0x80 {
        assert(v >= 0x80 ==> v >> 7u64 < v) by (bit_vector);
        assert(s <= 63 && (v << s) >> s == v && v >= 0x80 ==> s <= 56 && ((v >> 7u64) << ((s + 7) as u64)) >> ((s + 7) as u64) == v >> 7u64) by (bit_vector);
        lemma_varint_bytes_len_bound(v >> 7u64, (s + 7) as u64);
        lemma_varint_bytes_len_bound(v >> 7u64, (s + 7) as u64);
    }
}

/// Appends the varint encoding of `value`.
pub fn write_varint(out: &mut Vec<u8>, value: u64)
    ensures
        final(out)@ == old(out)@ + varint_bytes(value),
{
    let mut v = value;
    while v >= 0x80
        invariant
            out@ + varint_bytes(v) == old(out)@ + varint_bytes(value),
        decreases v,
    {
        let byte = (v as u8) | 0x80;
        assert((v as u8) | 0x80 == ((v & 0x7f) | 0x80) as u8) by (bit_vector);
        assert(v >= 0x80 ==> v >> 7u64 < v) by (bit_vector);
        proof {
            assert(varint_bytes(v) == seq![byte] + varint_bytes(v >> 7u64));
            assert(out@.push(byte) + varint_bytes(v >> 7u64) =~= out@ + varint_bytes(v));
        }
        out.push(byte);
        v = v >> 7u64;
    }
    proof {
        assert(out@.push(v as u8) =~= out@ + varint_bytes(v));
    }
    out.push(v as u8);
}

/// Appends a varint field.
pub fn write_varint_field(out: &mut Vec<u8>, field_number: u32, value: u64)
    ensures
        final(out)@ == old(out)@ + varint_field_bytes(field_number as u64, value),
{
    let key = ((field_number as u64) << 3u64) | 0;
    write_varint(out, key);
    write_varint(out, value);
    assert(final(out)@ =~= old(out)@ + varint_field_bytes(field_number as u64, value));
}

/// Appends the bytes of `value` one by one.
pub fn extend_bytes(out: &mut Vec<u8>, value: &[u8])
    ensures
        final(out)@ == old(out)@ + value@,
{
    let mut i: usize = 0;
    while i < value.len()
        invariant
            i <= value@.len(),
            out@ == old(out)@ + value@.subrange(0, i as int),
        decreases value@.len() - i,
    {
        proof {
            assert(out@.push(value@[i as int]) =~= old(out)@ + value@.subrange(0, i as int + 1));
        }
        out.push(value[i]);
        i = i + 1;
    }
    assert(value@.subrange(0, i as int) =~= value@);
}

/// Appends a length-delimited field.
pub fn write_bytes_field(out: &mut Vec<u8>, field_number: u32, value: &[u8])
    ensures
        final(out)@ == old(out)@ + bytes_field_bytes(field_number as u64, value@),
{
    let key = ((field_number as u64) << 3u64) | 2;
    write_varint(out, key);
    write_varint(out, value.len() as u64);
    extend_bytes(out, value);
    assert(final(out)@ =~= old(out)@ + bytes_field_bytes(field_number as u64, value@));
}

/// Encoded size of a varint field.
pub fn varint_field_len(field_number: u32, value: u64) -> (r: usize)
    ensures
        r == varint_field_bytes(field_number as u64, value).len(),
        r <= 20,
{
    let key = ((field_number as u64) << 3u64) | 0;
    varint_len(key) + varint_len(value)
}

/// Encoded size of a length-delimited field holding `len` bytes, or `None`
/// when that size does not fit in `usize`.
pub fn bytes_field_len(field_number: u32, len: usize) -> (r: Option<usize>)
    ensures
        match r {
            Some(n) => n == varint_bytes(field_key(field_number as u64, WIRE_LEN)).len()
                + varint_bytes(len as u64).len() + len,
            None => varint_bytes(field_key(field_number as u64, WIRE_LEN)).len()
                + varint_bytes(len as u64).len() + len > usize::MAX,
        },
{
    let key = ((field_number as u64) << 3u64) | 2;
    let head = varint_len(key) + varint_len(len as u64);
    len.checked_add(head)
}

/// Reads a varint at `*cursor` and advances the cursor past it.
pub fn read_varint(bytes: &[u8], cursor: &mut usize) -> (r: Result<u64, DecodeError>)
    ensures
        match spec_read_varint(bytes@, *old(cursor) as int) {
            Ok((v, p)) => r == Ok::<u64, DecodeError>(v) && *final(cursor) == p,
            Err(e) => r == Err::<u64, DecodeError>(e),
        },
{
    let ghost start = *cursor as int;
    let mut result: u64 = 0;
    let mut k: usize = 0;
    while k < 10
        invariant
            k <= 10,
            *cursor == start + k,
            start == *old(cursor),
            varint_parse(bytes@, start, 0, 0) == varint_parse(bytes@, *cursor as int, k as nat, result),
        decreases 10 - k,
    {
        if *cursor >= bytes.len() {
            return Err(DecodeError::Truncated);
        }
        let byte = bytes[*cursor];
        *cursor = *cursor + 1;
        let shift = (7 * k) as u64;
        result = result | (((byte & 0x7f) as u64) << shift);
        if byte & 0x80 == 0 {
            return Ok(result);
        }
        k = k + 1;
    }
    Err(DecodeError::Truncated)
}

/// Reads a length-delimited value at `*cursor` and advances past it.
pub fn read_len_delimited(bytes: &[u8], cursor: &mut usize) -> (r: Result<Vec<u8>, DecodeError>)
    ensures
        match spec_read_len_delimited(bytes@, *old(cursor) as int) {
            Ok((v, p)) => r is Ok && r->Ok_0@ == v && *final(cursor) == p,
            Err(e) => r == Err::<Vec<u8>, DecodeError>(e),
        },
{
    let len = read_varint(bytes, cursor)?;
    let len = len as usize;
    let end = match cursor.checked_add(len) {
        Some(end) => end,
        None => return Err(DecodeError::Truncated),
    };
    if end > bytes.len() {
        return Err(DecodeError::Truncated);
    }
    let value = copy_range(bytes, *cursor, end);
    *cursor = end;
    Ok(value)
}

/// Copies `bytes[start..end]` into a new vector.
pub fn copy_range(bytes: &[u8], start: usize, end: usize) -> (r: Vec<u8>)
    requires
        start <= end <= bytes@.len(),
    ensures
        r@ == bytes@.subrange(start as int, end as int),
{
    let mut out: Vec<u8> = Vec::with_capacity(end - start);
    let mut i = start;
    while i < end
        invariant
            start <= i <= end,
            end <= bytes@.len(),
            out@ == bytes@.subrange(start as int, i as int),
        decreases end - i,
    {
        proof {
            assert(out@.push(bytes@[i as int]) =~= bytes@.subrange(start as int, i as int + 1));
        }
        out.push(bytes[i]);
        i = i + 1;
    }
    out
}

} // verus!

verus! {

proof fn lemma_varint_parse_from(bytes: Seq<u8>, pos: int, k: nat, acc: u64, v: u64)
    requires
        k <= 9,
        0 <= pos,
        pos + varint_bytes(v).len() <= bytes.len(),
        bytes.subrange(pos, pos + varint_bytes(v).len()) == varint_bytes(v),
        (v << ((7 * k) as u64)) >> ((7 * k) as u64) == v,
        acc >> ((7 * k) as u64) == 0,
    ensures
        varint_parse(bytes, pos, k, acc) == Ok::<(u64, int), DecodeError>(
            ((acc | (v << ((7 * k) as u64))) as u64, pos + varint_bytes(v).len()),
        ),
    decreases v,
{
    let s: u64 = (7 * k) as u64;
    let enc = varint_bytes(v);
    lemma_varint_bytes_len(v);
    assert(bytes[pos] == enc[0]);
    if v < 0x80 {
        let b = v as u8;
        assert(enc == seq![b]);
        assert(v < 0x80 ==> (v as u8) & 0x80 == 0 && (((v as u8) & 0x7f) as u64) == v) by (bit_vector);
    } else {
        let b = ((v & 0x7f) | 0x80) as u8;
        assert(enc == seq![b] + varint_bytes(v >> 7u64));
        assert(v >= 0x80 ==> (((v & 0x7f) | 0x80) as u8) & 0x80 != 0
            && (((((v & 0x7f) | 0x80) as u8) & 0x7f) as u64) == v & 0x7f) by (bit_vector);
        assert(v >= 0x80 ==> v >> 7u64 < v) by (bit_vector);
        let acc2 = acc | ((v & 0x7f) << s);
        assert(s <= 63 && (v << s) >> s == v && v >= 0x80 && acc >> s == 0 ==> {
            &&& s <= 56
            &&& ((v >> 7u64) << ((s + 7) as u64)) >> ((s + 7) as u64) == v >> 7u64
            &&& (acc | ((v & 0x7f) << s)) >> ((s + 7) as u64) == 0
            &&& ((acc | ((v & 0x7f) << s)) | ((v >> 7u64) << ((s + 7) as u64))) == acc | (v << s)
        }) by (bit_vector);
        let rest = varint_bytes(v >> 7u64);
        assert(bytes.subrange(pos + 1, pos + 1 + rest.len()) =~= rest) by {
            assert forall|i: int| 0 <= i < rest.len() implies bytes.subrange(pos + 1, pos + 1 + rest.len())[i] == rest[i] by {
                assert(bytes.subrange(pos, pos + enc.len())[i + 1] == enc[i + 1]);
            }
        }
        assert((7 * (k + 1)) as u64 == (s + 7) as u64);
        lemma_varint_parse_from(bytes, pos + 1, k + 1, acc2, v >> 7u64);
    }
}

/// Reading back a written varint gives the value and the position after it.
pub proof fn lemma_read_written_varint(bytes: Seq<u8>, pos: int, v: u64)
    requires
        0 <= pos,
        pos + varint_bytes(v).len() <= bytes.len(),
        bytes.subrange(pos, pos + varint_bytes(v).len()) == varint_bytes(v),
    ensures
        spec_read_varint(bytes, pos) == Ok::<(u64, int), DecodeError>((v, pos + varint_bytes(v).len())),
{
    assert((v << 0u64) >> 0u64 == v && (0u64 >> 0u64) == 0 && (0u64 | (v << 0u64)) == v) by (bit_vector);
    lemma_varint_parse_from(bytes, pos, 0, 0, v);
}

} // verus!

verus! {

/// A decoded field value.
pub enum Field {
    Varint(u64),
    Bytes(Vec<u8>),
}

impl Field {
    pub open spec fn view(&self) -> FieldValue {
        match self {
            Field::Varint(v) => FieldValue::Varint(*v),
            Field::Bytes(b) => FieldValue::Bytes(b@),
        }
    }
}

/// Reading a field always moves past its key.
pub proof fn lemma_read_field_advances(bytes: Seq<u8>, pos: int)
    ensures
        spec_read_field(bytes, pos) matches Ok((_, _, next)) ==> pos < next <= bytes.len(),
{
    lemma_varint_parse_advances(bytes, pos, 0, 0);
    if let Ok((key, p)) = spec_read_varint(bytes, pos) {
        lemma_varint_parse_advances(bytes, p, 0, 0);
    }
}

proof fn lemma_varint_parse_advances(bytes: Seq<u8>, pos: int, k: nat, acc: u64)
    ensures
        varint_parse(bytes, pos, k, acc) matches Ok((_, next)) ==> pos < next <= bytes.len(),
    decreases 10 - k,
{
    if !(k >= 10 || pos < 0 || pos >= bytes.len()) {
        let byte = bytes[pos];
        let next = acc | (((byte & 0x7f) as u64) << ((7 * k) as u64));
        if byte & 0x80 != 0 {
            lemma_varint_parse_advances(bytes, pos + 1, k + 1, next);
        }
    }
}

/// Reads the next field: its key and its value.
pub fn read_field(bytes: &[u8], cursor: &mut usize) -> (r: Result<(u64, Field), DecodeError>)
    ensures
        match spec_read_field(bytes@, *old(cursor) as int) {
            Ok((key, v, p)) => r is Ok && r->Ok_0.0 == key && r->Ok_0.1.view() == v && *final(cursor) == p,
            Err(e) => r == Err::<(u64, Field), DecodeError>(e),
        },
{
    let key = read_varint(bytes, cursor)?;
    let wire_type = key & 7;
    if wire_type == 0 {
        let v = read_varint(bytes, cursor)?;
        Ok((key, Field::Varint(v)))
    } else if wire_type == 2 {
        let v = read_len_delimited(bytes, cursor)?;
        Ok((key, Field::Bytes(v)))
    } else {
        Err(DecodeError::UnsupportedWireType(wire_type))
    }
}

/// A varint field reads back as its key and value.
pub proof fn lemma_read_varint_field(bytes: Seq<u8>, pos: int, n: u64, v: u64)
    requires
        n < 0x2000_0000,
        0 <= pos,
        pos + varint_field_bytes(n, v).len() <= bytes.len(),
        bytes.subrange(pos, pos + varint_field_bytes(n, v).len()) == varint_field_bytes(n, v),
    ensures
        spec_read_field(bytes, pos) == Ok::<(u64, FieldValue, int), DecodeError>(
            (field_key(n, WIRE_VARINT), FieldValue::Varint(v), pos + varint_field_bytes(n, v).len()),
        ),
        field_key(n, WIRE_VARINT) >> 3 == n,
{
    let k = field_key(n, WIRE_VARINT);
    let kb = varint_bytes(k);
    let vb = varint_bytes(v);
    assert(n < 0x2000_0000 ==> ((n << 3u64) | 0u64) & 7 == 0 && ((n << 3u64) | 0u64) >> 3u64 == n) by (bit_vector);
    assert(bytes.subrange(pos, pos + kb.len()) =~= kb) by {
        assert forall|i: int| 0 <= i < kb.len() implies bytes.subrange(pos, pos + kb.len())[i] == kb[i] by {
            assert(bytes.subrange(pos, pos + varint_field_bytes(n, v).len())[i] == varint_field_bytes(n, v)[i]);
        }
    }
    lemma_read_written_varint(bytes, pos, k);
    let p = pos + kb.len();
    assert(bytes.subrange(p, p + vb.len()) =~= vb) by {
        assert forall|i: int| 0 <= i < vb.len() implies bytes.subrange(p, p + vb.len())[i] == vb[i] by {
            assert(bytes.subrange(pos, pos + varint_field_bytes(n, v).len())[kb.len() + i] == varint_field_bytes(n, v)[kb.len() + i]);
        }
    }
    lemma_read_written_varint(bytes, p, v);
}

/// A length-delimited field reads back as its key and value.
pub proof fn lemma_read_bytes_field(bytes: Seq<u8>, pos: int, n: u64, v: Seq<u8>)
    requires
        n < 0x2000_0000,
        0 <= pos,
        pos + bytes_field_bytes(n, v).len() <= bytes.len(),
        bytes.len() <= usize::MAX,
        bytes.subrange(pos, pos + bytes_field_bytes(n, v).len()) == bytes_field_bytes(n, v),
    ensures
        spec_read_field(bytes, pos) == Ok::<(u64, FieldValue, int), DecodeError>(
            (field_key(n, WIRE_LEN), FieldValue::Bytes(v), pos + bytes_field_bytes(n, v).len()),
        ),
        field_key(n, WIRE_LEN) >> 3 == n,
{
    let k = field_key(n, WIRE_LEN);
    let kb = varint_bytes(k);
    let lb = varint_bytes(v.len() as u64);
    let f = bytes_field_bytes(n, v);
    assert(n < 0x2000_0000 ==> ((n << 3u64) | 2u64) & 7 == 2 && ((n << 3u64) | 2u64) >> 3u64 == n) by (bit_vector);
    assert(bytes.subrange(pos, pos + kb.len()) =~= kb) by {
        assert forall|i: int| 0 <= i < kb.len() implies bytes.subrange(pos, pos + kb.len())[i] == kb[i] by {
            assert(bytes.subrange(pos, pos + f.len())[i] == f[i]);
        }
    }
    lemma_read_written_varint(bytes, pos, k);
    let p = pos + kb.len();
    assert(bytes.subrange(p, p + lb.len()) =~= lb) by {
        assert forall|i: int| 0 <= i < lb.len() implies bytes.subrange(p, p + lb.len())[i] == lb[i] by {
            assert(bytes.subrange(pos, pos + f.len())[kb.len() + i] == f[kb.len() + i]);
        }
    }
    lemma_read_written_varint(bytes, p, v.len() as u64);
    let q = p + lb.len();
    assert((v.len() as u64) as usize == v.len());
    assert(bytes.subrange(q, q + v.len()) =~= v) by {
        assert forall|i: int| 0 <= i < v.len() implies bytes.subrange(q, q + v.len())[i] == v[i] by {
            assert(bytes.subrange(pos, pos + f.len())[kb.len() + lb.len() + i] == f[kb.len() + lb.len() + i]);
        }
    }
}

} // verus!

verus! {

/// Decoding a message: fields are read one after another from `pos` to the
/// end of `bytes`, and each is applied to the message built so far.
pub open spec fn decode_fields<M>(
    bytes: Seq<u8>,
    pos: int,
    m: M,
    apply: spec_fn(M, u64, FieldValue) -> Result<M, DecodeError>,
) -> Result<M, DecodeError>
    decreases bytes.len() - pos,
{
    if pos < 0 || pos >= bytes.len() {
        Ok(m)
    } else {
        match spec_read_field(bytes, pos) {
            Err(e) => Err(e),
            Ok((key, value, next)) => {
                proof {
                    lemma_read_field_advances(bytes, pos);
                }
                match apply(m, key, value) {
                    Err(e) => Err(e),
                    Ok(m2) => decode_fields(bytes, next, m2, apply),
                }
            },
        }
    }
}

/// Decoding past a written varint field applies that field first.
pub proof fn lemma_decode_varint_field<M>(
    bytes: Seq<u8>,
    pos: int,
    m: M,
    apply: spec_fn(M, u64, FieldValue) -> Result<M, DecodeError>,
    n: u64,
    v: u64,
)
    requires
        n < 0x2000_0000,
        0 <= pos,
        pos + varint_field_bytes(n, v).len() <= bytes.len(),
        bytes.subrange(pos, pos + varint_field_bytes(n, v).len()) == varint_field_bytes(n, v),
    ensures
        decode_fields(bytes, pos, m, apply) == match apply(m, field_key(n, WIRE_VARINT), FieldValue::Varint(v)) {
            Err(e) => Err(e),
            Ok(m2) => decode_fields(bytes, pos + varint_field_bytes(n, v).len(), m2, apply),
        },
        field_key(n, WIRE_VARINT) >> 3 == n,
{
    lemma_read_varint_field(bytes, pos, n, v);
    lemma_varint_bytes_len(field_key(n, WIRE_VARINT));
}

/// Decoding past a written length-delimited field applies that field first.
pub proof fn lemma_decode_bytes_field<M>(
    bytes: Seq<u8>,
    pos: int,
    m: M,
    apply: spec_fn(M, u64, FieldValue) -> Result<M, DecodeError>,
    n: u64,
    v: Seq<u8>,
)
    requires
        n < 0x2000_0000,
        0 <= pos,
        pos + bytes_field_bytes(n, v).len() <= bytes.len(),
        bytes.len() <= usize::MAX,
        bytes.subrange(pos, pos + bytes_field_bytes(n, v).len()) == bytes_field_bytes(n, v),
    ensures
        decode_fields(bytes, pos, m, apply) == match apply(m, field_key(n, WIRE_LEN), FieldValue::Bytes(v)) {
            Err(e) => Err(e),
            Ok(m2) => decode_fields(bytes, pos + bytes_field_bytes(n, v).len(), m2, apply),
        },
        field_key(n, WIRE_LEN) >> 3 == n,
{
    lemma_read_bytes_field(bytes, pos, n, v);
    lemma_varint_bytes_len(field_key(n, WIRE_LEN));
}

} // verus!
