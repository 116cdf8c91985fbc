//! Compression of batch record bytes: a heatshrink-style profile and LZ4
//! blocks, both built on the same longest-match search.
use vstd::prelude::*;
use crate::batch::{COMPRESSION_HEATSHRINK, COMPRESSION_LZ4, COMPRESSION_NONE};
use crate::wire::{copy_range, extend_bytes};

verus! {

/// Why compression or decompression failed.
#[derive(Debug, Clone, Copy, PartialEq, Eq)]
pub enum CodecError {
    OutputTooSmall,
    InvalidInput,
    UnsupportedAlgorithm(u32),
}

// ---------------------------------------------------------------------
// Back-references

/// Appending `len` bytes, each copied from `offset` bytes back in the
/// output as it grows (so a copy may overlap what it writes).
pub open spec fn copy_match(out: Seq<u8>, offset: int, len: int) -> Seq<u8>
    decreases len,
{
    if len <= 0 {
        out
    } else {
        copy_match(out.push(out[out.len() - offset]), offset, len - 1)
    }
}

proof fn lemma_copy_match_len(out: Seq<u8>, offset: int, len: int)
    ensures
        copy_match(out, offset, len).len() == out.len() + if len < 0 { 0 } else { len },
        copy_match(out, offset, len).subrange(0, out.len() as int) == out,
    decreases len,
{
    if len > 0 {
        let next = out.push(out[out.len() - offset]);
        lemma_copy_match_len(next, offset, len - 1);
        assert(copy_match(out, offset, len).subrange(0, out.len() as int) =~= next.subrange(0, out.len() as int));
        assert(next.subrange(0, out.len() as int) =~= out);
    }
}

/// Appends a back-reference copy.
fn push_match(out: &mut Vec<u8>, offset: usize, len: usize)
    requires
        1 <= offset <= old(out)@.len(),
    ensures
        final(out)@ == copy_match(old(out)@, offset as int, len as int),
{
    let mut i: usize = 0;
    while i < len
        invariant
            i <= len,
            1 <= offset <= out@.len(),
            copy_match(old(out)@, offset as int, len as int) == copy_match(out@, offset as int, (len - i) as int),
        decreases len - i,
    {
        let byte = out[out.len() - offset];
        out.push(byte);
        i = i + 1;
    }
}

// ---------------------------------------------------------------------
// Longest-match search

/// How many bytes from `pos` (at most `max_len`, within the input) equal
/// the bytes from `cand`, counted from `k` on.
pub open spec fn match_len_from(input: Seq<u8>, cand: int, pos: int, max_len: int, k: int) -> int
    decreases max_len - k,
{
    if k < max_len && pos + k < input.len() && 0 <= cand + k && input[cand + k] == input[pos + k] {
        match_len_from(input, cand, pos, max_len, k + 1)
    } else {
        k
    }
}

/// The earliest candidate in `cand..pos` with the longest match, given the
/// best so far.
pub open spec fn best_match_from(input: Seq<u8>, pos: int, cand: int, max_len: int, best: (int, int)) -> (int, int)
    decreases pos - cand,
{
    if cand >= pos {
        best
    } else {
        let len = match_len_from(input, cand, pos, max_len, 0);
        let next = if len > best.1 { (pos - cand, len) } else { best };
        best_match_from(input, pos, cand + 1, max_len, next)
    }
}

/// The (offset, length) of the longest earlier match for the bytes at
/// `pos`, looking back at most `max_distance` bytes; (0, 0) when none.
pub open spec fn spec_find_match(input: Seq<u8>, pos: int, max_distance: int, max_len: int) -> (int, int) {
    let start = if pos < max_distance { 0 } else { pos - max_distance };
    best_match_from(input, pos, start, max_len, (0, 0))
}

proof fn lemma_match_len_from(input: Seq<u8>, cand: int, pos: int, max_len: int, k: int)
    requires
        0 <= cand < pos,
        0 <= k,
        k <= max_len,
        pos + k <= input.len(),
        input.subrange(cand, cand + k) == input.subrange(pos, pos + k),
    ensures
        ({
            let l = match_len_from(input, cand, pos, max_len, k);
            &&& k <= l <= max_len
            &&& pos + l <= input.len()
            &&& input.subrange(cand, cand + l) == input.subrange(pos, pos + l)
        }),
    decreases max_len - k,
{
    if k < max_len && pos + k < input.len() && input[cand + k] == input[pos + k] {
        assert(input.subrange(cand, cand + k + 1) =~= input.subrange(cand, cand + k).push(input[cand + k]));
        assert(input.subrange(pos, pos + k + 1) =~= input.subrange(pos, pos + k).push(input[pos + k]));
        lemma_match_len_from(input, cand, pos, max_len, k + 1);
    }
}

proof fn lemma_best_match_from(input: Seq<u8>, pos: int, cand: int, max_len: int, best: (int, int), lo: int)
    requires
        0 <= lo <= cand,
        pos <= input.len(),
        0 <= max_len,
        best.1 >= 0,
        best.1 > 0 ==> {
            &&& 1 <= best.0 <= pos - lo
            &&& best.1 <= max_len
            &&& pos + best.1 <= input.len()
            &&& input.subrange(pos - best.0, pos - best.0 + best.1) == input.subrange(pos, pos + best.1)
        },
    ensures
        ({
            let r = best_match_from(input, pos, cand, max_len, best);
            &&& r.1 >= best.1
            &&& r.1 > 0 ==> {
                &&& 1 <= r.0 <= pos - lo
                &&& r.1 <= max_len
                &&& pos + r.1 <= input.len()
                &&& input.subrange(pos - r.0, pos - r.0 + r.1) == input.subrange(pos, pos + r.1)
            }
            &&& r.1 == 0 ==> r == best
        }),
    decreases pos - cand,
{
    if cand < pos {
        assert(input.subrange(cand, cand) =~= input.subrange(pos, pos));
        lemma_match_len_from(input, cand, pos, max_len, 0);
        let len = match_len_from(input, cand, pos, max_len, 0);
        let next = if len > best.1 { (pos - cand, len) } else { best };
        lemma_best_match_from(input, pos, cand + 1, max_len, next, lo);
    }
}

/// What a found match guarantees: a nonempty match lies within the window,
/// is no longer than allowed, and really repeats the earlier bytes.
pub proof fn lemma_find_match(input: Seq<u8>, pos: int, max_distance: int, max_len: int)
    requires
        0 <= pos <= input.len(),
        0 <= max_len,
        0 <= max_distance,
    ensures
        ({
            let (offset, len) = spec_find_match(input, pos, max_distance, max_len);
            &&& 0 <= len <= max_len
            &&& pos + len <= input.len()
            &&& len > 0 ==> 1 <= offset <= pos && offset <= max_distance
            &&& len == 0 ==> offset == 0
            &&& input.subrange(pos - offset, pos - offset + len) == input.subrange(pos, pos + len)
        }),
{
    let start = if pos < max_distance { 0 } else { pos - max_distance };
    lemma_best_match_from(input, pos, start, max_len, (0, 0), start);
}

/// Finds the longest earlier match for the bytes at `pos`.
pub fn find_match(input: &[u8], pos: usize, max_distance: usize, max_len: usize) -> (r: (usize, usize))
    requires
        pos <= input@.len(),
    ensures
        (r.0 as int, r.1 as int) == spec_find_match(input@, pos as int, max_distance as int, max_len as int),
{
    let start = pos.saturating_sub(max_distance);
    let mut best_offset: usize = 0;
    let mut best_len: usize = 0;
    let mut candidate = start;
    while candidate < pos
        invariant
            start <= candidate <= pos,
            pos <= input@.len(),
            best_offset <= pos,
            spec_find_match(input@, pos as int, max_distance as int, max_len as int)
                == best_match_from(input@, pos as int, candidate as int, max_len as int, (best_offset as int, best_len as int)),
        decreases pos - candidate,
    {
        let mut len: usize = 0;
        while len < max_len && len < input.len() - pos && input[candidate + len] == input[pos + len]
            invariant
                candidate < pos,
                pos <= input@.len(),
                len <= max_len,
                pos + len <= input@.len(),
                match_len_from(input@, candidate as int, pos as int, max_len as int, 0)
                    == match_len_from(input@, candidate as int, pos as int, max_len as int, len as int),
            decreases max_len - len,
        {
            len = len + 1;
        }
        if len > best_len {
            best_offset = pos - candidate;
            best_len = len;
        }
        candidate = candidate + 1;
    }
    (best_offset, best_len)
}

// ---------------------------------------------------------------------
// Heatshrink profile

/// One group of the heatshrink profile, from `pos` and bit `bit` on: up to
/// eight items, each a literal byte or an (offset, length) pair for a match
/// of three bytes or more; the flag bit of an item is set for a pair.
/// Returns the flags, the item bytes and the position after the group.
pub open spec fn hs_group(input: Seq<u8>, pos: int, bit: int, flags: u8, items: Seq<u8>) -> (u8, Seq<u8>, int)
    decreases 8 - bit,
{
    if bit >= 8 || pos >= input.len() || pos < 0 {
        (flags, items, pos)
    } else {
        let (offset, len) = spec_find_match(input, pos, 255, 18);
        if len >= 3 {
            hs_group(input, pos + len, bit + 1, flags | (1u8 << (bit as u8)), items + seq![offset as u8, len as u8])
        } else {
            hs_group(input, pos + 1, bit + 1, flags, items.push(input[pos]))
        }
    }
}

pub proof fn lemma_hs_group_advances(input: Seq<u8>, pos: int, bit: int, flags: u8, items: Seq<u8>)
    requires
        0 <= pos,
    ensures
        ({
            let (f, it, next) = hs_group(input, pos, bit, flags, items);
            &&& pos <= next
            &&& next <= input.len() || next == pos
            &&& (bit < 8 && pos < input.len()) ==> pos < next
        }),
    decreases 8 - bit,
{
    if !(bit >= 8 || pos >= input.len()) {
        lemma_find_match(input, pos, 255, 18);
        let (offset, len) = spec_find_match(input, pos, 255, 18);
        if len >= 3 {
            lemma_hs_group_advances(input, pos + len, bit + 1, flags | (1u8 << (bit as u8)), items + seq![offset as u8, len as u8]);
        } else {
            lemma_hs_group_advances(input, pos + 1, bit + 1, flags, items.push(input[pos]));
        }
    }
}

/// The heatshrink-profile encoding of `input` from `pos`: groups, each its
/// flag byte followed by its items.
pub open spec fn hs_compress_from(input: Seq<u8>, pos: int) -> Seq<u8>
    decreases input.len() - pos,
{
    if pos < 0 || pos >= input.len() {
        Seq::empty()
    } else {
        let (flags, items, next) = hs_group(input, pos, 0, 0, Seq::empty());
        proof {
            lemma_hs_group_advances(input, pos, 0, 0, Seq::empty());
        }
        seq![flags] + items + hs_compress_from(input, next)
    }
}

/// Decoding the heatshrink profile from `pos`; `bit == 8` means a flag
/// byte is due. `None` when a pair is cut short or points outside the
/// output.
pub open spec fn hs_decode(input: Seq<u8>, pos: int, flags: u8, bit: int, out: Seq<u8>) -> Option<Seq<u8>>
    decreases input.len() - pos, 9 - bit,
{
    if pos < 0 || pos >= input.len() {
        Some(out)
    } else if bit >= 8 {
        hs_decode(input, pos + 1, input[pos], 0, out)
    } else if flags & (1u8 << (bit as u8)) == 0 {
        hs_decode(input, pos + 1, flags, bit + 1, out.push(input[pos]))
    } else if pos + 1 >= input.len() {
        None
    } else {
        let offset = input[pos] as int;
        let len = input[pos + 1] as int;
        if offset == 0 || offset > out.len() || len < 3 {
            None
        } else {
            hs_decode(input, pos + 2, flags, bit + 1, copy_match(out, offset, len))
        }
    }
}

/// Compresses with the heatshrink profile.
pub fn heatshrink_profile_compress(input: &[u8]) -> (r: Result<Vec<u8>, CodecError>)
    ensures
        r is Ok && r->Ok_0@ == hs_compress_from(input@, 0),
{
    let mut out: Vec<u8> = Vec::with_capacity(input.len());
    let mut pos: usize = 0;
    while pos < input.len()
        invariant
            pos <= input@.len(),
            out@ + hs_compress_from(input@, pos as int) == hs_compress_from(input@, 0),
        decreases input@.len() - pos,
    {
        let ghost start = pos as int;
        let mut flags: u8 = 0;
        let mut items: Vec<u8> = Vec::new();
        let mut bit: u8 = 0;
        while bit < 8 && pos < input.len()
            invariant
                bit <= 8,
                start <= pos <= input@.len(),
                hs_group(input@, start, 0, 0, Seq::empty()) == hs_group(input@, pos as int, bit as int, flags, items@),
            decreases 8 - bit,
        {
            let (offset, len) = find_match(input, pos, 255, 18);
            proof {
                lemma_find_match(input@, pos as int, 255, 18);
            }
            if len >= 3 {
                let ghost old_items = items@;
                flags = flags | (1u8 << bit);
                items.push(offset as u8);
                items.push(len as u8);
                assert(items@ =~= old_items + seq![offset as u8, len as u8]);
                pos = pos + len;
            } else {
                items.push(input[pos]);
                pos = pos + 1;
            }
            bit = bit + 1;
        }
        proof {
            lemma_hs_group_advances(input@, start, 0, 0, Seq::empty());
            assert(hs_group(input@, pos as int, bit as int, flags, items@) == (flags, items@, pos as int));
            assert(hs_compress_from(input@, start) == seq![flags] + items@ + hs_compress_from(input@, pos as int));
        }
        let ghost before = out@;
        out.push(flags);
        extend_bytes(&mut out, items.as_slice());
        assert(out@ + hs_compress_from(input@, pos as int) =~= before + hs_compress_from(input@, start));
    }
    assert(out@ + hs_compress_from(input@, pos as int) =~= out@);
    Ok(out)
}

/// Decompresses the heatshrink profile; the output must have exactly
/// `uncompressed_len` bytes.
pub fn heatshrink_profile_decompress(input: &[u8], uncompressed_len: usize) -> (r: Result<Vec<u8>, CodecError>)
    ensures
        match hs_decode(input@, 0, 0, 8, Seq::empty()) {
            Some(o) => if o.len() == uncompressed_len {
                r is Ok && r->Ok_0@ == o
            } else {
                r == Err::<Vec<u8>, CodecError>(CodecError::InvalidInput)
            },
            None => r == Err::<Vec<u8>, CodecError>(CodecError::InvalidInput),
        },
{
    let mut out: Vec<u8> = Vec::with_capacity(uncompressed_len);
    let mut pos: usize = 0;
    while pos < input.len()
        invariant
            pos <= input@.len(),
            hs_decode(input@, 0, 0, 8, Seq::empty()) == hs_decode(input@, pos as int, 0, 8, out@),
        decreases input@.len() - pos,
    {
        let ghost group_start = pos;
        let flags = input[pos];
        pos = pos + 1;
        let mut bit: u8 = 0;
        while bit < 8
            invariant
                bit <= 8,
                group_start < pos <= input@.len(),
                hs_decode(input@, 0, 0, 8, Seq::empty()) == hs_decode(input@, pos as int, flags, bit as int, out@),
            ensures
                group_start < pos <= input@.len(),
                bit >= 8 || pos >= input@.len(),
                hs_decode(input@, 0, 0, 8, Seq::empty()) == hs_decode(input@, pos as int, flags, bit as int, out@),
            decreases 8 - bit,
        {
            if pos >= input.len() {
                break;
            }
            if flags & (1u8 << bit) == 0 {
                out.push(input[pos]);
                pos = pos + 1;
                bit = bit + 1;
                continue;
            }
            if pos + 1 >= input.len() {
                return Err(CodecError::InvalidInput);
            }
            let offset = input[pos] as usize;
            let len = input[pos + 1] as usize;
            pos = pos + 2;
            if offset == 0 || offset > out.len() || len < 3 {
                return Err(CodecError::InvalidInput);
            }
            push_match(&mut out, offset, len);
            bit = bit + 1;
        }
        assert(hs_decode(input@, pos as int, flags, bit as int, out@) == hs_decode(input@, pos as int, 0, 8, out@));
    }
    if out.len() == uncompressed_len {
        Ok(out)
    } else {
        Err(CodecError::InvalidInput)
    }
}


// ---------------------------------------------------------------------
// LZ4 blocks

/// The bytes that extend a length field: as many 255s as fit in `rem`,
/// then what is left.
pub open spec fn ext_bytes(rem: int) -> Seq<u8>
    decreases rem,
{
    if rem >= 255 {
        seq![255u8] + ext_bytes(rem - 255)
    } else {
        seq![rem as u8]
    }
}

/// The extension bytes of a length whose nibble holds up to `base - 1`.
pub open spec fn len_ext(len: int, base: int) -> Seq<u8> {
    if len < base {
        Seq::empty()
    } else {
        ext_bytes(len - base)
    }
}

/// A length as it fits in a token nibble.
pub open spec fn nibble(n: int) -> int {
    if n < 15 {
        n
    } else {
        15
    }
}

/// One LZ4 sequence: token, literal length extension, literals, little
/// endian offset, match length extension.
pub open spec fn lz4_sequence(literals: Seq<u8>, offset: int, match_len: int) -> Seq<u8> {
    seq![(16 * nibble(literals.len() as int) + nibble(match_len - 4)) as u8]
        + len_ext(literals.len() as int, 15)
        + literals
        + seq![(offset % 256) as u8, (offset / 256) as u8]
        + len_ext(match_len - 4, 15)
}

/// The closing LZ4 sequence: literals only.
pub open spec fn lz4_last_literals(literals: Seq<u8>) -> Seq<u8> {
    seq![(16 * nibble(literals.len() as int)) as u8] + len_ext(literals.len() as int, 15) + literals
}

/// The LZ4 block encoding of `input`, with literals pending from `anchor`
/// and the search at `pos`.
pub open spec fn lz4_compress_from(input: Seq<u8>, anchor: int, pos: int) -> Seq<u8>
    decreases input.len() - pos,
{
    if 0 <= pos && pos + 4 <= input.len() {
        let (offset, len) = spec_find_match(input, pos, 65535, 130);
        proof {
            lemma_find_match(input, pos, 65535, 130);
        }
        if len < 4 {
            lz4_compress_from(input, anchor, pos + 1)
        } else {
            lz4_sequence(input.subrange(anchor, pos), offset, len) + lz4_compress_from(input, pos + len, pos + len)
        }
    } else {
        lz4_last_literals(input.subrange(anchor, input.len() as int))
    }
}

/// Reads the extension bytes of a length from `pos`, adding them to
/// `acc`: the total and the position after them, `None` when the input
/// ends first.
pub open spec fn read_ext(input: Seq<u8>, pos: int, acc: int) -> Option<(int, int)>
    decreases input.len() - pos,
{
    if pos < 0 || pos >= input.len() {
        None
    } else if input[pos] != 255 {
        Some((acc + input[pos], pos + 1))
    } else {
        read_ext(input, pos + 1, acc + 255)
    }
}

pub proof fn lemma_read_ext(input: Seq<u8>, pos: int, acc: int)
    ensures
        match read_ext(input, pos, acc) {
            Some((total, next)) => acc <= total && 0 <= pos < next <= input.len(),
            None => true,
        },
    decreases input.len() - pos,
{
    if 0 <= pos < input.len() && input[pos] == 255 {
        lemma_read_ext(input, pos + 1, acc + 255);
    }
}

/// A length from its token nibble: the nibble plus `add`, extended when
/// the nibble is 15.
pub open spec fn read_len(input: Seq<u8>, pos: int, nib: int, add: int) -> Option<(int, int)> {
    if nib == 15 {
        read_ext(input, pos, 15 + add)
    } else {
        Some((nib + add, pos))
    }
}

/// Decoding LZ4 sequences from `pos` onto `out`; `None` when a length, a
/// literal run or an offset is cut short or an offset points outside the
/// output.
pub open spec fn lz4_decode(input: Seq<u8>, pos: int, out: Seq<u8>) -> Option<Seq<u8>>
    decreases input.len() - pos,
{
    if pos < 0 || pos >= input.len() {
        Some(out)
    } else {
        let token = input[pos];
        match read_len(input, pos + 1, (token / 16) as int, 0) {
            None => None,
            Some((lit_len, p1)) => {
                proof {
                    lemma_read_ext(input, pos + 1, 15);
                }
                if p1 + lit_len > input.len() {
                    None
                } else {
                    let out1 = out + input.subrange(p1, p1 + lit_len);
                    let p2 = p1 + lit_len;
                    if p2 == input.len() {
                        Some(out1)
                    } else if p2 + 2 > input.len() {
                        None
                    } else {
                        let offset = input[p2] + 256 * input[p2 + 1];
                        if offset == 0 || offset > out1.len() {
                            None
                        } else {
                            match read_len(input, p2 + 2, (token % 16) as int, 4) {
                                None => None,
                                Some((match_len, p3)) => {
                                    proof {
                                        lemma_read_ext(input, p2 + 2, 19);
                                    }
                                    lz4_decode(input, p3, copy_match(out1, offset, match_len))
                                },
                            }
                        }
                    }
                }
            },
        }
    }
}

/// Decoding only appends to the output.
pub proof fn lemma_lz4_decode_grows(input: Seq<u8>, pos: int, out: Seq<u8>)
    ensures
        match lz4_decode(input, pos, out) {
            Some(o) => o.len() >= out.len(),
            None => true,
        },
    decreases input.len() - pos,
{
    if 0 <= pos < input.len() {
        let token = input[pos];
        lemma_read_ext(input, pos + 1, 15);
        match read_len(input, pos + 1, (token / 16) as int, 0) {
            None => {},
            Some((lit_len, p1)) => {
                if p1 + lit_len <= input.len() {
                    let out1 = out + input.subrange(p1, p1 + lit_len);
                    let p2 = p1 + lit_len;
                    if p2 != input.len() && p2 + 2 <= input.len() {
                        let offset = input[p2] + 256 * input[p2 + 1];
                        if offset != 0 && offset <= out1.len() {
                            lemma_read_ext(input, p2 + 2, 19);
                            match read_len(input, p2 + 2, (token % 16) as int, 4) {
                                None => {},
                                Some((match_len, p3)) => {
                                    lemma_copy_match_len(out1, offset, match_len);
                                    lemma_lz4_decode_grows(input, p3, copy_match(out1, offset, match_len));
                                },
                            }
                        }
                    }
                }
            },
        }
    }
}

/// Appends the extension bytes of `len` over `base`.
fn emit_len(out: &mut Vec<u8>, len: usize, base: usize)
    ensures
        final(out)@ == old(out)@ + len_ext(len as int, base as int),
{
    if len < base {
        assert(old(out)@ + len_ext(len as int, base as int) =~= old(out)@);
        return;
    }
    let mut remaining = len - base;
    while remaining >= 255
        invariant
            old(out)@ + len_ext(len as int, base as int) == out@ + ext_bytes(remaining as int),
        decreases remaining,
    {
        let ghost before = out@;
        out.push(255);
        remaining = remaining - 255;
        assert(before + ext_bytes(remaining + 255) =~= out@ + ext_bytes(remaining as int));
    }
    let ghost before = out@;
    out.push(remaining as u8);
    assert(before + ext_bytes(remaining as int) =~= out@);
}

proof fn lemma_token(lit: u8, mat: u8)
    requires
        lit <= 15,
        mat <= 15,
    ensures
        ((lit << 4u8) | mat) as int == 16 * lit + mat,
{
    assert(((lit << 4u8) | mat) == 16 * lit + mat) by (bit_vector)
        requires
            lit <= 15,
            mat <= 15,
    ;
}

/// Appends one LZ4 sequence; refuses an offset outside 1..=65535 or a
/// match shorter than four bytes.
fn emit_lz4_sequence(out: &mut Vec<u8>, literals: &[u8], offset: usize, match_len: usize) -> (r: Result<(), CodecError>)
    ensures
        if offset == 0 || offset > 65535 || match_len < 4 {
            r == Err::<(), CodecError>(CodecError::InvalidInput) && final(out)@ == old(out)@
        } else {
            r is Ok && final(out)@ == old(out)@ + lz4_sequence(literals@, offset as int, match_len as int)
        },
{
    if offset == 0 || offset > 65535 || match_len < 4 {
        return Err(CodecError::InvalidInput);
    }
    let literal_token: u8 = if literals.len() < 15 { literals.len() as u8 } else { 15 };
    let match_token: u8 = if match_len - 4 < 15 { (match_len - 4) as u8 } else { 15 };
    proof {
        lemma_token(literal_token, match_token);
    }
    let ghost start = out@;
    out.push((literal_token << 4) | match_token);
    emit_len(out, literals.len(), 15);
    extend_bytes(out, literals);
    out.push((offset % 256) as u8);
    out.push((offset / 256) as u8);
    emit_len(out, match_len - 4, 15);
    assert(out@ =~= start + lz4_sequence(literals@, offset as int, match_len as int));
    Ok(())
}

/// Appends the closing literals-only sequence.
fn emit_lz4_last_literals(out: &mut Vec<u8>, literals: &[u8]) -> (r: Result<(), CodecError>)
    ensures
        r is Ok,
        final(out)@ == old(out)@ + lz4_last_literals(literals@),
{
    let literal_token: u8 = if literals.len() < 15 { literals.len() as u8 } else { 15 };
    proof {
        lemma_token(literal_token, 0);
        assert(literal_token << 4u8 == ((literal_token << 4u8) | 0u8)) by (bit_vector);
    }
    let ghost start = out@;
    out.push(literal_token << 4);
    emit_len(out, literals.len(), 15);
    extend_bytes(out, literals);
    assert(out@ =~= start + lz4_last_literals(literals@));
    Ok(())
}

/// Compresses into one LZ4 block.
pub fn lz4_block_compress(input: &[u8]) -> (r: Result<Vec<u8>, CodecError>)
    ensures
        r is Ok && r->Ok_0@ == lz4_compress_from(input@, 0, 0),
{
    let mut out: Vec<u8> = Vec::with_capacity(input.len());
    let mut anchor: usize = 0;
    let mut pos: usize = 0;
    while pos <= input.len() && input.len() - pos >= 4
        invariant
            anchor <= pos <= input@.len(),
            out@ + lz4_compress_from(input@, anchor as int, pos as int) == lz4_compress_from(input@, 0, 0),
        decreases input@.len() - pos,
    {
        let (offset, len) = find_match(input, pos, 65535, 130);
        proof {
            lemma_find_match(input@, pos as int, 65535, 130);
        }
        if len < 4 {
            pos = pos + 1;
        } else {
            let literals = copy_range(input, anchor, pos);
            let ghost before = out@;
            match emit_lz4_sequence(&mut out, literals.as_slice(), offset, len) {
                Ok(()) => {},
                Err(e) => {
                    return Err(e);
                },
            }
            assert(out@ + lz4_compress_from(input@, (pos + len) as int, (pos + len) as int)
                =~= before + lz4_compress_from(input@, anchor as int, pos as int));
            pos = pos + len;
            anchor = pos;
        }
    }
    let literals = copy_range(input, anchor, input.len());
    match emit_lz4_last_literals(&mut out, literals.as_slice()) {
        Ok(()) => {},
        Err(e) => {
            return Err(e);
        },
    }
    Ok(out)
}

/// Reads the extension bytes of a length from `start` onto `base`;
/// `None` when the input ends first or the total would pass `limit`.
fn read_length(input: &[u8], start: usize, base: usize, limit: usize) -> (r: Option<(usize, usize)>)
    requires
        start <= input@.len(),
        base <= limit,
    ensures
        match r {
            Some((len, next)) => read_ext(input@, start as int, base as int) == Some((len as int, next as int)),
            None => match read_ext(input@, start as int, base as int) {
                Some((total, _)) => total > limit,
                None => true,
            },
        },
{
    let mut pos = start;
    let mut acc = base;
    loop
        invariant
            start <= pos <= input@.len(),
            acc <= limit,
            read_ext(input@, start as int, base as int) == read_ext(input@, pos as int, acc as int),
        decreases input@.len() - pos,
    {
        if pos >= input.len() {
            return None;
        }
        let byte = input[pos] as usize;
        if byte > limit - acc {
            proof {
                lemma_read_ext(input@, pos + 1, acc + 255);
            }
            return None;
        }
        acc = acc + byte;
        pos = pos + 1;
        if byte != 255 {
            return Some((acc, pos));
        }
    }
}

/// Decompresses one LZ4 block; the output must have exactly
/// `uncompressed_len` bytes.
pub fn lz4_block_decompress(input: &[u8], uncompressed_len: usize) -> (r: Result<Vec<u8>, CodecError>)
    ensures
        match lz4_decode(input@, 0, Seq::empty()) {
            Some(o) => if o.len() == uncompressed_len {
                r is Ok && r->Ok_0@ == o
            } else {
                r == Err::<Vec<u8>, CodecError>(CodecError::InvalidInput)
            },
            None => r == Err::<Vec<u8>, CodecError>(CodecError::InvalidInput),
        },
{
    let mut out: Vec<u8> = Vec::with_capacity(uncompressed_len);
    let mut pos: usize = 0;
    while pos < input.len()
        invariant
            pos <= input@.len(),
            out@.len() <= uncompressed_len,
            lz4_decode(input@, 0, Seq::empty()) == lz4_decode(input@, pos as int, out@),
        decreases input@.len() - pos,
    {
        let ghost pos0 = pos as int;
        let ghost out0 = out@;
        let token = input[pos];
        pos = pos + 1;
        let lit_nib = (token / 16) as usize;
        let mut literal_len = lit_nib;
        if lit_nib == 15 {
            proof {
                lemma_read_ext(input@, pos as int, 15);
            }
            if 15 > input.len() {
                return Err(CodecError::InvalidInput);
            }
            match read_length(input, pos, 15, input.len()) {
                Some((len, next)) => {
                    literal_len = len;
                    pos = next;
                },
                None => {
                    return Err(CodecError::InvalidInput);
                },
            }
        }
        assert(read_len(input@, pos0 + 1, (token / 16) as int, 0) == Some((literal_len as int, pos as int)));
        if literal_len > input.len() - pos {
            return Err(CodecError::InvalidInput);
        }
        let ghost out1 = out@ + input@.subrange(pos as int, pos + literal_len);
        let ghost p2 = pos + literal_len;
        if literal_len > uncompressed_len - out.len() {
            proof {
                if p2 != input@.len() && p2 + 2 <= input@.len() {
                    let offset = input@[p2] + 256 * input@[p2 + 1];
                    if offset != 0 && offset <= out1.len() {
                        lemma_read_ext(input@, p2 + 2, 19);
                        match read_len(input@, p2 + 2, (token % 16) as int, 4) {
                            None => {},
                            Some((match_len, p3)) => {
                                lemma_copy_match_len(out1, offset, match_len);
                                lemma_lz4_decode_grows(input@, p3, copy_match(out1, offset, match_len));
                            },
                        }
                    }
                }
            }
            return Err(CodecError::InvalidInput);
        }
        let literals = copy_range(input, pos, pos + literal_len);
        extend_bytes(&mut out, literals.as_slice());
        pos = pos + literal_len;
        assert(out@ == out1);
        if pos == input.len() {
            if out.len() == uncompressed_len {
                return Ok(out);
            } else {
                return Err(CodecError::InvalidInput);
            }
        }
        if 2 > input.len() - pos {
            return Err(CodecError::InvalidInput);
        }
        let offset = input[pos] as usize + (input[pos + 1] as usize) * 256;
        pos = pos + 2;
        if offset == 0 || offset > out.len() {
            return Err(CodecError::InvalidInput);
        }
        let m_nib = (token % 16) as usize;
        let mut match_len = m_nib + 4;
        let room = uncompressed_len - out.len();
        proof {
            lemma_read_ext(input@, pos as int, 19);
        }
        if m_nib == 15 {
            if 19 > room {
                proof {
                    match read_len(input@, pos as int, (token % 16) as int, 4) {
                        None => {},
                        Some((ml, p3)) => {
                            lemma_copy_match_len(out1, offset as int, ml);
                            lemma_lz4_decode_grows(input@, p3, copy_match(out1, offset as int, ml));
                        },
                    }
                }
                return Err(CodecError::InvalidInput);
            }
            match read_length(input, pos, 19, room) {
                Some((len, next)) => {
                    match_len = len;
                    pos = next;
                },
                None => {
                    proof {
                        match read_len(input@, (p2 + 2) as int, (token % 16) as int, 4) {
                            None => {},
                            Some((ml, p3)) => {
                                lemma_copy_match_len(out1, offset as int, ml);
                                lemma_lz4_decode_grows(input@, p3, copy_match(out1, offset as int, ml));
                            },
                        }
                    }
                    return Err(CodecError::InvalidInput);
                },
            }
        }
        assert(read_len(input@, p2 + 2, (token % 16) as int, 4) == Some((match_len as int, pos as int)));
        if match_len > room {
            proof {
                lemma_copy_match_len(out1, offset as int, match_len as int);
                lemma_lz4_decode_grows(input@, pos as int, copy_match(out1, offset as int, match_len as int));
            }
            return Err(CodecError::InvalidInput);
        }
        push_match(&mut out, offset, match_len);
        proof {
            lemma_copy_match_len(out1, offset as int, match_len as int);
        }
    }
    if out.len() == uncompressed_len {
        Ok(out)
    } else {
        Err(CodecError::InvalidInput)
    }
}


// ---------------------------------------------------------------------
// Dispatch by algorithm

/// What `compress` yields for each algorithm.
pub open spec fn spec_compress(algorithm: u32, input: Seq<u8>) -> Result<Seq<u8>, CodecError> {
    if algorithm == COMPRESSION_NONE {
        Ok(input)
    } else if algorithm == COMPRESSION_HEATSHRINK {
        Ok(hs_compress_from(input, 0))
    } else if algorithm == COMPRESSION_LZ4 {
        Ok(lz4_compress_from(input, 0, 0))
    } else {
        Err(CodecError::UnsupportedAlgorithm(algorithm))
    }
}

/// Compresses `input` with the batch compression `algorithm`.
pub fn compress(algorithm: u32, input: &[u8]) -> (r: Result<Vec<u8>, CodecError>)
    ensures
        match spec_compress(algorithm, input@) {
            Ok(o) => r is Ok && r->Ok_0@ == o,
            Err(e) => r == Err::<Vec<u8>, CodecError>(e),
        },
{
    if algorithm == COMPRESSION_NONE {
        Ok(copy_range(input, 0, input.len()))
    } else if algorithm == COMPRESSION_HEATSHRINK {
        heatshrink_profile_compress(input)
    } else if algorithm == COMPRESSION_LZ4 {
        lz4_block_compress(input)
    } else {
        Err(CodecError::UnsupportedAlgorithm(algorithm))
    }
}

/// What decoding with an output-length check yields.
pub open spec fn checked_output(decoded: Option<Seq<u8>>, uncompressed_len: usize) -> Result<Seq<u8>, CodecError> {
    match decoded {
        Some(o) => if o.len() == uncompressed_len {
            Ok(o)
        } else {
            Err(CodecError::InvalidInput)
        },
        None => Err(CodecError::InvalidInput),
    }
}

/// What `decompress` yields, in terms of the decoders.
pub open spec fn spec_decompress(algorithm: u32, input: Seq<u8>, uncompressed_len: usize) -> Result<Seq<u8>, CodecError> {
    if algorithm == COMPRESSION_NONE {
        checked_output(Some(input), uncompressed_len)
    } else if algorithm == COMPRESSION_HEATSHRINK {
        checked_output(hs_decode(input, 0, 0, 8, Seq::empty()), uncompressed_len)
    } else if algorithm == COMPRESSION_LZ4 {
        checked_output(lz4_decode(input, 0, Seq::empty()), uncompressed_len)
    } else {
        Err(CodecError::UnsupportedAlgorithm(algorithm))
    }
}

/// Decompresses `input`, which must expand to exactly `uncompressed_len`
/// bytes.
pub fn decompress(algorithm: u32, input: &[u8], uncompressed_len: usize) -> (r: Result<Vec<u8>, CodecError>)
    ensures
        match spec_decompress(algorithm, input@, uncompressed_len) {
            Ok(o) => r is Ok && r->Ok_0@ == o,
            Err(e) => r == Err::<Vec<u8>, CodecError>(e),
        },
{
    if algorithm == COMPRESSION_NONE {
        if input.len() == uncompressed_len {
            Ok(copy_range(input, 0, input.len()))
        } else {
            Err(CodecError::InvalidInput)
        }
    } else if algorithm == COMPRESSION_HEATSHRINK {
        heatshrink_profile_decompress(input, uncompressed_len)
    } else if algorithm == COMPRESSION_LZ4 {
        lz4_block_decompress(input, uncompressed_len)
    } else {
        Err(CodecError::UnsupportedAlgorithm(algorithm))
    }
}


// ---------------------------------------------------------------------
// Round trips

/// A back-reference whose source bytes equal the bytes it stands for
/// rebuilds the input.
proof fn lemma_copy_match_repeats(input: Seq<u8>, pos: int, offset: int, len: int)
    requires
        1 <= offset <= pos,
        0 <= len,
        pos + len <= input.len(),
        input.subrange(pos - offset, pos - offset + len) == input.subrange(pos, pos + len),
    ensures
        copy_match(input.subrange(0, pos), offset, len) == input.subrange(0, pos + len),
    decreases len,
{
    if len > 0 {
        let out = input.subrange(0, pos);
        assert(input.subrange(pos - offset, pos - offset + len)[0] == input.subrange(pos, pos + len)[0]);
        assert(input.subrange(pos - offset, pos - offset + len)[0] == input[pos - offset]);
        assert(input.subrange(pos, pos + len)[0] == input[pos]);
        assert(out[out.len() - offset] == input[pos - offset]);
        assert(out.push(out[out.len() - offset]) =~= input.subrange(0, pos + 1));
        assert(input.subrange(pos + 1 - offset, pos + 1 - offset + (len - 1))
            =~= input.subrange(pos - offset, pos - offset + len).subrange(1, len));
        assert(input.subrange(pos + 1, pos + 1 + (len - 1)) =~= input.subrange(pos, pos + len).subrange(1, len));
        lemma_copy_match_repeats(input, pos + 1, offset, len - 1);
    }
}

proof fn lemma_bit_set(a: u8, b: u8)
    requires
        b < 8,
    ensures
        (a | (1u8 << b)) & (1u8 << b) != 0,
{
    assert((a | (1u8 << b)) & (1u8 << b) != 0) by (bit_vector)
        requires
            b < 8,
    ;
}

proof fn lemma_bit_other(a: u8, b: u8, c: u8)
    requires
        b < 8,
        c < 8,
        b != c,
    ensures
        (a | (1u8 << b)) & (1u8 << c) == a & (1u8 << c),
{
    assert((a | (1u8 << b)) & (1u8 << c) == a & (1u8 << c)) by (bit_vector)
        requires
            b < 8,
            c < 8,
            b != c,
    ;
}

proof fn lemma_zero_bits(c: u8)
    ensures
        0u8 & (1u8 << c) == 0,
{
    assert(0u8 & (1u8 << c) == 0) by (bit_vector);
}

/// The flag bits of a group below `bit` are those already set.
proof fn lemma_hs_group_flags(input: Seq<u8>, pos: int, bit: int, flags: u8, items: Seq<u8>)
    requires
        0 <= bit,
    ensures
        forall|b: int| 0 <= b < bit && b < 8 ==> #[trigger] (hs_group(input, pos, bit, flags, items).0 & (1u8 << (b as u8)))
            == flags & (1u8 << (b as u8)),
    decreases 8 - bit,
{
    if !(bit >= 8 || pos >= input.len() || pos < 0) {
        let (offset, len) = spec_find_match(input, pos, 255, 18);
        if len >= 3 {
            let f2 = flags | (1u8 << (bit as u8));
            lemma_hs_group_flags(input, pos + len, bit + 1, f2, items + seq![offset as u8, len as u8]);
            assert(hs_group(input, pos, bit, flags, items) == hs_group(input, pos + len, bit + 1, f2, items + seq![offset as u8, len as u8]));
            assert forall|b: int| 0 <= b < bit && b < 8 implies #[trigger] (hs_group(input, pos, bit, flags, items).0 & (1u8 << (b as u8)))
                == flags & (1u8 << (b as u8)) by {
                lemma_bit_other(flags, bit as u8, b as u8);
            }
        } else {
            lemma_hs_group_flags(input, pos + 1, bit + 1, flags, items.push(input[pos]));
            assert(hs_group(input, pos, bit, flags, items) == hs_group(input, pos + 1, bit + 1, flags, items.push(input[pos])));
        }
    }
}

/// The items of a group extend those already gathered.
proof fn lemma_hs_group_items(input: Seq<u8>, pos: int, bit: int, flags: u8, items: Seq<u8>)
    ensures
        items.len() <= hs_group(input, pos, bit, flags, items).1.len(),
        hs_group(input, pos, bit, flags, items).1.subrange(0, items.len() as int) == items,
    decreases 8 - bit,
{
    if !(bit >= 8 || pos >= input.len() || pos < 0) {
        let (offset, len) = spec_find_match(input, pos, 255, 18);
        if len >= 3 {
            let items2 = items + seq![offset as u8, len as u8];
            lemma_hs_group_items(input, pos + len, bit + 1, flags | (1u8 << (bit as u8)), items2);
            let it = hs_group(input, pos, bit, flags, items).1;
            assert(it.subrange(0, items.len() as int) =~= it.subrange(0, items2.len() as int).subrange(0, items.len() as int));
            assert(items2.subrange(0, items.len() as int) =~= items);
        } else {
            let items2 = items.push(input[pos]);
            lemma_hs_group_items(input, pos + 1, bit + 1, flags, items2);
            let it = hs_group(input, pos, bit, flags, items).1;
            assert(it.subrange(0, items.len() as int) =~= it.subrange(0, items2.len() as int).subrange(0, items.len() as int));
            assert(items2.subrange(0, items.len() as int) =~= items);
        }
    } else {
        assert(items.subrange(0, items.len() as int) =~= items);
    }
}

/// Decoding the items of one group rebuilds the input it covers.
proof fn lemma_hs_group_decode(input: Seq<u8>, pos: int, bit: int, acc: u8, items: Seq<u8>, comp: Seq<u8>, cpos: int)
    requires
        0 <= pos <= input.len(),
        0 <= bit <= 8,
        0 <= cpos <= comp.len(),
        forall|c: int| bit <= c < 8 ==> #[trigger] (acc & (1u8 << (c as u8))) == 0,
        ({
            let (f, it, next) = hs_group(input, pos, bit, acc, items);
            comp.subrange(cpos, comp.len() as int) == it.subrange(items.len() as int, it.len() as int) + hs_compress_from(input, next)
        }),
    ensures
        ({
            let (f, it, next) = hs_group(input, pos, bit, acc, items);
            hs_decode(comp, cpos, f, bit, input.subrange(0, pos))
                == hs_decode(comp, cpos + it.len() - items.len(), f, 8, input.subrange(0, next))
        }),
    decreases 8 - bit,
{
    lemma_hs_group_items(input, pos, bit, acc, items);
    let (f, it, next) = hs_group(input, pos, bit, acc, items);
    let rest = hs_compress_from(input, next);
    if bit >= 8 || pos >= input.len() {
        assert(it.subrange(items.len() as int, it.len() as int).len() == 0);
        if bit < 8 {
            assert(rest.len() == 0);
            assert(comp.subrange(cpos, comp.len() as int).len() == 0);
        }
    } else {
        lemma_find_match(input, pos, 255, 18);
        let (offset, len) = spec_find_match(input, pos, 255, 18);
        let out = input.subrange(0, pos);
        if len >= 3 {
            let acc2 = acc | (1u8 << (bit as u8));
            let items2 = items + seq![offset as u8, len as u8];
            lemma_hs_group_items(input, pos + len, bit + 1, acc2, items2);
            lemma_hs_group_flags(input, pos + len, bit + 1, acc2, items2);
            lemma_bit_set(acc, bit as u8);
            assert(hs_group(input, pos, bit, acc, items) == hs_group(input, pos + len, bit + 1, acc2, items2));
            assert(it.len() >= items2.len());
            assert(comp.subrange(cpos, comp.len() as int).len() >= 2);
            assert(comp.subrange(cpos, comp.len() as int)[0] == comp[cpos]);
            assert(f & (1u8 << (bit as u8)) == acc2 & (1u8 << (bit as u8)));
            assert(it[items.len() as int] == items2[items.len() as int]);
            assert(it[items.len() + 1int] == items2[items.len() + 1int]);
            assert(comp[cpos] == offset as u8);
            assert(comp.subrange(cpos, comp.len() as int)[1] == comp[cpos + 1]);
            assert(comp[cpos + 1] == len as u8);
            lemma_copy_match_repeats(input, pos, offset, len);
            assert forall|c: int| bit + 1 <= c < 8 implies #[trigger] (acc2 & (1u8 << (c as u8))) == 0 by {
                lemma_bit_other(acc, bit as u8, c as u8);
            }
            assert(comp.subrange(cpos + 2, comp.len() as int)
                =~= comp.subrange(cpos, comp.len() as int).subrange(2, comp.len() - cpos));
            assert(it.subrange(items2.len() as int, it.len() as int)
                =~= it.subrange(items.len() as int, it.len() as int).subrange(2, it.len() - items.len()));
            let a = it.subrange(items.len() as int, it.len() as int);
            assert((a + rest).subrange(2, (a.len() + rest.len()) as int) =~= a.subrange(2, a.len() as int) + rest);
            lemma_hs_group_decode(input, pos + len, bit + 1, acc2, items2, comp, cpos + 2);
        } else {
            let items2 = items.push(input[pos]);
            lemma_hs_group_items(input, pos + 1, bit + 1, acc, items2);
            lemma_hs_group_flags(input, pos + 1, bit + 1, acc, items2);
            assert(hs_group(input, pos, bit, acc, items) == hs_group(input, pos + 1, bit + 1, acc, items2));
            assert(it.len() >= items2.len());
            assert(comp.subrange(cpos, comp.len() as int).len() >= 1);
            assert(comp.subrange(cpos, comp.len() as int)[0] == comp[cpos]);
            assert(f & (1u8 << (bit as u8)) == acc & (1u8 << (bit as u8)));
            assert(it[items.len() as int] == items2[items.len() as int]);
            assert(comp[cpos] == input[pos]);
            assert(out.push(input[pos]) =~= input.subrange(0, pos + 1));
            assert(comp.subrange(cpos + 1, comp.len() as int)
                =~= comp.subrange(cpos, comp.len() as int).subrange(1, comp.len() - cpos));
            assert(it.subrange(items2.len() as int, it.len() as int)
                =~= it.subrange(items.len() as int, it.len() as int).subrange(1, it.len() - items.len()));
            let a = it.subrange(items.len() as int, it.len() as int);
            assert((a + rest).subrange(1, (a.len() + rest.len()) as int) =~= a.subrange(1, a.len() as int) + rest);
            lemma_hs_group_decode(input, pos + 1, bit + 1, acc, items2, comp, cpos + 1);
        }
    }
}

/// Decoding a heatshrink stream rebuilds the input from any group start.
proof fn lemma_hs_stream_decode(input: Seq<u8>, p: int, comp: Seq<u8>, cpos: int, flags: u8)
    requires
        0 <= p <= input.len(),
        0 <= cpos <= comp.len(),
        comp.subrange(cpos, comp.len() as int) == hs_compress_from(input, p),
    ensures
        hs_decode(comp, cpos, flags, 8, input.subrange(0, p)) == Some(input),
    decreases input.len() - p,
{
    if p >= input.len() {
        assert(input.subrange(0, p) =~= input);
        assert(comp.subrange(cpos, comp.len() as int).len() == 0);
    } else {
        lemma_hs_group_advances(input, p, 0, 0, Seq::empty());
        lemma_hs_group_items(input, p, 0, 0, Seq::empty());
        let (f, it, next) = hs_group(input, p, 0, 0, Seq::empty());
        assert(hs_compress_from(input, p) == seq![f] + it + hs_compress_from(input, next));
        assert(comp.subrange(cpos, comp.len() as int)[0] == comp[cpos]);
        assert(comp[cpos] == f);
        assert forall|c: int| 0 <= c < 8 implies #[trigger] (0u8 & (1u8 << (c as u8))) == 0 by {
            lemma_zero_bits(c as u8);
        }
        let rest = hs_compress_from(input, next);
        assert(it.subrange(0, it.len() as int) =~= it);
        assert(comp.subrange(cpos + 1, comp.len() as int)
            =~= comp.subrange(cpos, comp.len() as int).subrange(1, comp.len() - cpos));
        assert((seq![f] + it + rest).subrange(1, (1 + it.len() + rest.len()) as int) =~= it + rest);
        assert(comp.subrange(cpos + 1, comp.len() as int) == it.subrange(0, it.len() as int) + rest);
        lemma_hs_group_decode(input, p, 0, 0, Seq::empty(), comp, cpos + 1);
        assert(comp.subrange(cpos + 1 + it.len(), comp.len() as int)
            =~= comp.subrange(cpos + 1, comp.len() as int).subrange(it.len() as int, comp.len() - cpos - 1));
        assert((it + rest).subrange(it.len() as int, (it.len() + rest.len()) as int) =~= rest);
        lemma_hs_stream_decode(input, next, comp, cpos + 1 + it.len(), f);
    }
}

/// Heatshrink-profile decoding gives back what was compressed.
pub proof fn lemma_heatshrink_round_trip(input: Seq<u8>)
    ensures
        hs_decode(hs_compress_from(input, 0), 0, 0, 8, Seq::empty()) == Some(input),
{
    let comp = hs_compress_from(input, 0);
    assert(comp.subrange(0, comp.len() as int) =~= comp);
    assert(input.subrange(0, 0) =~= Seq::<u8>::empty());
    lemma_hs_stream_decode(input, 0, comp, 0, 0);
}


proof fn lemma_ext_bytes_len(rem: int)
    ensures
        ext_bytes(rem).len() >= 1,
    decreases rem,
{
    if rem >= 255 {
        lemma_ext_bytes_len(rem - 255);
    }
}

/// Reading back the extension bytes of a length.
proof fn lemma_read_ext_bytes(comp: Seq<u8>, p: int, rem: int, acc: int)
    requires
        0 <= p,
        0 <= rem,
        p + ext_bytes(rem).len() <= comp.len(),
        comp.subrange(p, p + ext_bytes(rem).len()) == ext_bytes(rem),
    ensures
        read_ext(comp, p, acc) == Some((acc + rem, p + ext_bytes(rem).len())),
    decreases rem,
{
    lemma_ext_bytes_len(rem);
    let ext = ext_bytes(rem);
    assert(comp.subrange(p, p + ext.len())[0] == comp[p]);
    if rem >= 255 {
        let tail = ext_bytes(rem - 255);
        assert(comp.subrange(p + 1, p + 1 + tail.len()) =~= comp.subrange(p, p + ext.len()).subrange(1, ext.len() as int));
        assert((seq![255u8] + tail).subrange(1, 1int + tail.len()) =~= tail);
        lemma_read_ext_bytes(comp, p + 1, rem - 255, acc + 255);
    }
}

/// Reading back a length written as a nibble and its extension.
proof fn lemma_read_len_field(comp: Seq<u8>, p: int, n: int, add: int)
    requires
        0 <= p,
        0 <= n,
        p + len_ext(n, 15).len() <= comp.len(),
        comp.subrange(p, p + len_ext(n, 15).len()) == len_ext(n, 15),
    ensures
        read_len(comp, p, nibble(n), add) == Some((n + add, p + len_ext(n, 15).len())),
{
    if n >= 15 {
        lemma_read_ext_bytes(comp, p, n - 15, 15 + add);
    }
}

proof fn lemma_token_nibbles(a: int, b: int)
    requires
        0 <= a <= 15,
        0 <= b <= 15,
    ensures
        ((16 * a + b) as u8) / 16 == a,
        ((16 * a + b) as u8) % 16 == b,
{
    assert(((16 * a + b) as u8) as int == 16 * a + b);
    assert((16 * a + b) / 16 == a && (16 * a + b) % 16 == b) by (nonlinear_arith)
        requires
            0 <= a <= 15,
            0 <= b <= 15,
    ;
}

/// Decoding one sequence written for a verified match rebuilds the input
/// up to the end of the match.
proof fn lemma_lz4_sequence_decode(
    input: Seq<u8>,
    anchor: int,
    pos: int,
    offset: int,
    mlen: int,
    comp: Seq<u8>,
    cpos: int,
    rest: Seq<u8>,
)
    requires
        0 <= anchor <= pos,
        pos + mlen <= input.len(),
        1 <= offset <= pos,
        offset <= 65535,
        mlen >= 4,
        input.subrange(pos - offset, pos - offset + mlen) == input.subrange(pos, pos + mlen),
        0 <= cpos <= comp.len(),
        comp.subrange(cpos, comp.len() as int) == lz4_sequence(input.subrange(anchor, pos), offset, mlen) + rest,
    ensures
        lz4_decode(comp, cpos, input.subrange(0, anchor)) == lz4_decode(
            comp,
            cpos + lz4_sequence(input.subrange(anchor, pos), offset, mlen).len(),
            input.subrange(0, pos + mlen),
        ),
{
    let lits = input.subrange(anchor, pos);
    let seq_bytes = lz4_sequence(lits, offset, mlen);
    let e1 = len_ext(lits.len() as int, 15);
    let e2 = len_ext(mlen - 4, 15);
    let tok = (16 * nibble(lits.len() as int) + nibble(mlen - 4)) as u8;
    let w = comp.subrange(cpos, comp.len() as int);
    let p1 = cpos + 1int + e1.len();
    let p2 = p1 + lits.len();
    let p3 = p2 + 2 + e2.len();
    assert(seq_bytes.len() == 1int + e1.len() + lits.len() + 2 + e2.len());
    assert(w.len() == comp.len() - cpos);
    assert(w.len() == seq_bytes.len() + rest.len());
    assert(w[0] == comp[cpos]);
    assert(seq_bytes[0] == tok);
    assert(comp[cpos] == tok);
    lemma_token_nibbles(nibble(lits.len() as int), nibble(mlen - 4));
    assert(comp.subrange(cpos + 1, p1) =~= w.subrange(1, 1int + e1.len()));
    assert(seq_bytes.subrange(1, 1int + e1.len()) =~= e1);
    assert(w.subrange(1, 1int + e1.len()) =~= seq_bytes.subrange(1, 1int + e1.len()));
    lemma_read_len_field(comp, cpos + 1, lits.len() as int, 0);
    assert(comp.subrange(p1, p2) =~= w.subrange(1int + e1.len(), 1int + e1.len() + lits.len()));
    assert(seq_bytes.subrange(1int + e1.len(), 1int + e1.len() + lits.len()) =~= lits);
    assert(w.subrange(1int + e1.len(), 1int + e1.len() + lits.len()) =~= seq_bytes.subrange(1int + e1.len(), 1int + e1.len() + lits.len()));
    assert(input.subrange(0, anchor) + lits =~= input.subrange(0, pos));
    assert(w[p2 - cpos] == comp[p2]);
    assert(w[p2 + 1 - cpos] == comp[p2 + 1]);
    assert(seq_bytes[p2 - cpos] == (offset % 256) as u8);
    assert(seq_bytes[p2 + 1 - cpos] == (offset / 256) as u8);
    assert(comp[p2] + 256 * comp[p2 + 1] == offset);
    assert(comp.subrange(p2 + 2, p3) =~= w.subrange(p2 + 2 - cpos, p3 - cpos));
    assert(seq_bytes.subrange(p2 + 2 - cpos, p3 - cpos) =~= e2);
    assert(w.subrange(p2 + 2 - cpos, p3 - cpos) =~= seq_bytes.subrange(p2 + 2 - cpos, p3 - cpos));
    lemma_read_len_field(comp, p2 + 2, mlen - 4, 4);
    lemma_copy_match_repeats(input, pos, offset, mlen);
    lemma_read_ext(comp, cpos + 1, 15);
    lemma_read_ext(comp, p2 + 2, 19);
}

/// Decoding the closing sequence rebuilds the whole input.
proof fn lemma_lz4_last_decode(input: Seq<u8>, anchor: int, comp: Seq<u8>, cpos: int)
    requires
        0 <= anchor <= input.len(),
        0 <= cpos <= comp.len(),
        comp.subrange(cpos, comp.len() as int) == lz4_last_literals(input.subrange(anchor, input.len() as int)),
    ensures
        lz4_decode(comp, cpos, input.subrange(0, anchor)) == Some(input),
{
    let lits = input.subrange(anchor, input.len() as int);
    let last = lz4_last_literals(lits);
    let e1 = len_ext(lits.len() as int, 15);
    let w = comp.subrange(cpos, comp.len() as int);
    let p1 = cpos + 1int + e1.len();
    assert(last.len() == 1int + e1.len() + lits.len());
    assert(w.len() == comp.len() - cpos);
    assert(w[0] == comp[cpos]);
    lemma_token_nibbles(nibble(lits.len() as int), 0);
    assert(comp[cpos] == (16 * nibble(lits.len() as int) + 0) as u8);
    assert(comp.subrange(cpos + 1, p1) =~= w.subrange(1, 1int + e1.len()));
    assert(last.subrange(1, 1int + e1.len()) =~= e1);
    lemma_read_len_field(comp, cpos + 1, lits.len() as int, 0);
    assert(comp.subrange(p1, p1 + lits.len()) =~= w.subrange(1int + e1.len(), 1int + e1.len() + lits.len()));
    assert(last.subrange(1int + e1.len(), 1int + e1.len() + lits.len()) =~= lits);
    assert(input.subrange(0, anchor) + lits =~= input);
    lemma_read_ext(comp, cpos + 1, 15);
}

/// Decoding an LZ4 block rebuilds the input from any sequence start.
proof fn lemma_lz4_stream_decode(input: Seq<u8>, anchor: int, pos: int, comp: Seq<u8>, cpos: int)
    requires
        0 <= anchor <= pos <= input.len(),
        0 <= cpos <= comp.len(),
        comp.subrange(cpos, comp.len() as int) == lz4_compress_from(input, anchor, pos),
    ensures
        lz4_decode(comp, cpos, input.subrange(0, anchor)) == Some(input),
    decreases input.len() - pos,
{
    if pos + 4 <= input.len() {
        lemma_find_match(input, pos, 65535, 130);
        let (offset, len) = spec_find_match(input, pos, 65535, 130);
        if len < 4 {
            lemma_lz4_stream_decode(input, anchor, pos + 1, comp, cpos);
        } else {
            let seq_bytes = lz4_sequence(input.subrange(anchor, pos), offset, len);
            let rest = lz4_compress_from(input, pos + len, pos + len);
            lemma_lz4_sequence_decode(input, anchor, pos, offset, len, comp, cpos, rest);
            assert(lz4_compress_from(input, anchor, pos) == seq_bytes + rest);
            assert(comp.subrange(cpos, comp.len() as int).len() == comp.len() - cpos);
            assert(comp.len() - cpos == seq_bytes.len() + rest.len());
            assert(comp.subrange(cpos + seq_bytes.len(), comp.len() as int)
                =~= comp.subrange(cpos, comp.len() as int).subrange(seq_bytes.len() as int, comp.len() - cpos));
            assert((seq_bytes + rest).subrange(seq_bytes.len() as int, (seq_bytes.len() + rest.len()) as int) =~= rest);
            lemma_lz4_stream_decode(input, pos + len, pos + len, comp, cpos + seq_bytes.len());
        }
    } else {
        lemma_lz4_last_decode(input, anchor, comp, cpos);
    }
}

/// LZ4 block decoding gives back what was compressed.
pub proof fn lemma_lz4_round_trip(input: Seq<u8>)
    ensures
        lz4_decode(lz4_compress_from(input, 0, 0), 0, Seq::empty()) == Some(input),
{
    let comp = lz4_compress_from(input, 0, 0);
    assert(comp.subrange(0, comp.len() as int) =~= comp);
    assert(input.subrange(0, 0) =~= Seq::<u8>::empty());
    lemma_lz4_stream_decode(input, 0, 0, comp, 0);
}

/// Decompressing what `compress` produced, with the original length,
/// gives back the original bytes, for each supported algorithm.
pub proof fn lemma_codec_round_trip(algorithm: u32, input: Seq<u8>)
    requires
        algorithm == COMPRESSION_NONE || algorithm == COMPRESSION_HEATSHRINK || algorithm == COMPRESSION_LZ4,
        input.len() <= usize::MAX,
    ensures
        spec_compress(algorithm, input) is Ok,
        spec_decompress(algorithm, spec_compress(algorithm, input)->Ok_0, input.len() as usize) == Ok::<Seq<u8>, CodecError>(input),
{
    lemma_heatshrink_round_trip(input);
    lemma_lz4_round_trip(input);
}

/// An algorithm other than the three supported ones is refused both ways.
pub proof fn lemma_codec_unsupported(algorithm: u32, input: Seq<u8>, uncompressed_len: usize)
    requires
        algorithm != COMPRESSION_NONE,
        algorithm != COMPRESSION_HEATSHRINK,
        algorithm != COMPRESSION_LZ4,
    ensures
        spec_compress(algorithm, input) == Err::<Seq<u8>, CodecError>(CodecError::UnsupportedAlgorithm(algorithm)),
        spec_decompress(algorithm, input, uncompressed_len) == Err::<Seq<u8>, CodecError>(CodecError::UnsupportedAlgorithm(algorithm)),
{
}

/// Heatshrink literals: after a flag byte, each clear bit (lowest first)
/// marks one byte copied as it is.
proof fn lemma_hs_literals(input: Seq<u8>, k: int)
    requires
        input.len() <= 9,
        input[0] == 0u8,
        1 <= k <= input.len(),
    ensures
        hs_decode(input, k, 0u8, k - 1, input.subrange(1, k)) == Some(input.subrange(1, input.len() as int)),
    decreases input.len() - k,
{
    if k < input.len() {
        let b = (k - 1) as u8;
        assert(0u8 & (1u8 << b) == 0) by (bit_vector);
        assert(input.subrange(1, k).push(input[k]) =~= input.subrange(1, k + 1));
        lemma_hs_literals(input, k + 1);
    }
}

/// The heatshrink profile: a flag byte of zero announces up to eight
/// literal bytes, which come out as they are. So algorithm 1 reads these
/// bytes back, where an LZ4 reading would take the first byte as a token.
pub proof fn lemma_heatshrink_literal_group(literals: Seq<u8>)
    requires
        1 <= literals.len() <= 8,
    ensures
        spec_decompress(COMPRESSION_HEATSHRINK, seq![0u8] + literals, literals.len() as usize)
            == Ok::<Seq<u8>, CodecError>(literals),
{
    let input = seq![0u8] + literals;
    assert(input.subrange(1, 1) =~= Seq::<u8>::empty());
    assert(input.subrange(1, input.len() as int) =~= literals);
    lemma_hs_literals(input, 1);
    assert(hs_decode(input, 0, 0, 8, Seq::empty()) == hs_decode(input, 1, input[0], 0, Seq::empty()));
}

/// An LZ4 block of literals only: one token whose high nibble is the
/// literal count (below 15), then the literals, which come out as they
/// are. So algorithm 2 reads these bytes back, where a heatshrink reading
/// would take the token as flags.
pub proof fn lemma_lz4_literal_block(literals: Seq<u8>)
    requires
        literals.len() < 15,
    ensures
        spec_decompress(COMPRESSION_LZ4, seq![(literals.len() * 16) as u8] + literals, literals.len() as usize)
            == Ok::<Seq<u8>, CodecError>(literals),
{
    let n = literals.len();
    let input = seq![(n * 16) as u8] + literals;
    assert(((n * 16) as u8) / 16 == n);
    assert(input.subrange(1, 1 + n as int) =~= literals);
    assert(Seq::<u8>::empty() + literals =~= literals);
}

/// A copied match repeats the bytes `offset` back: every byte it adds
/// equals the one `offset` before it, and what was there stays.
proof fn lemma_copy_match_periodic(out: Seq<u8>, offset: int, len: int)
    requires
        1 <= offset <= out.len(),
        0 <= len,
    ensures
        copy_match(out, offset, len).len() == out.len() + len,
        copy_match(out, offset, len).subrange(0, out.len() as int) == out,
        forall|j: int| out.len() <= j < out.len() + len ==> #[trigger] copy_match(out, offset, len)[j]
            == copy_match(out, offset, len)[j - offset],
    decreases len,
{
    lemma_copy_match_len(out, offset, len);
    if len > 0 {
        let next = out.push(out[out.len() - offset]);
        lemma_copy_match_periodic(next, offset, len - 1);
        lemma_copy_match_len(next, offset, len - 1);
        let r = copy_match(out, offset, len);
        assert(r == copy_match(next, offset, len - 1));
        assert forall|j: int| out.len() <= j < out.len() + len implies #[trigger] r[j] == r[j - offset] by {
            if j == out.len() {
                assert(r.subrange(0, next.len() as int)[j] == next[j]);
                assert(r.subrange(0, next.len() as int)[j - offset] == next[j - offset]);
            }
        }
    }
}

/// Heatshrink literals up to the back-reference bit of the flag byte.
proof fn lemma_hs_literals_before(input: Seq<u8>, n: int, k: int)
    requires
        1 <= n <= 7,
        input.len() == n + 3,
        input[0] == 1u8 << (n as u8),
        1 <= k <= n + 1,
    ensures
        hs_decode(input, k, input[0], k - 1, input.subrange(1, k))
            == hs_decode(input, n + 1, input[0], n, input.subrange(1, n + 1)),
    decreases n + 1 - k,
{
    if k < n + 1 {
        let b = (k - 1) as u8;
        let nn = n as u8;
        assert(b < nn ==> (1u8 << nn) & (1u8 << b) == 0) by (bit_vector);
        assert(input.subrange(1, k).push(input[k]) =~= input.subrange(1, k + 1));
        lemma_hs_literals_before(input, n, k + 1);
    }
}

/// The heatshrink profile's back-reference: a flag byte whose bit `n` is
/// set, `n` literal bytes, then an (offset, length) pair. The bytes come
/// out as the literals followed by `length` bytes, each equal to the byte
/// `offset` before it.
pub proof fn lemma_heatshrink_back_reference(literals: Seq<u8>, offset: u8, length: u8)
    requires
        1 <= literals.len() <= 7,
        1 <= offset <= literals.len(),
        3 <= length,
    ensures
        ({
            let n = literals.len() as int;
            let input = seq![1u8 << (n as u8)] + literals + seq![offset, length];
            match spec_decompress(COMPRESSION_HEATSHRINK, input, (n + length) as usize) {
                Ok(out) => {
                    &&& out.len() == n + length
                    &&& out.subrange(0, n) == literals
                    &&& forall|j: int| n <= j < n + length ==> #[trigger] out[j] == out[j - offset]
                },
                Err(_) => false,
            }
        }),
{
    let n = literals.len() as int;
    let input = seq![1u8 << (n as u8)] + literals + seq![offset, length];
    assert(input[0] == 1u8 << (n as u8));
    assert(input.subrange(1, 1) =~= Seq::<u8>::empty());
    lemma_hs_literals_before(input, n, 1);
    assert(input.subrange(1, n + 1) =~= literals);
    let nn = n as u8;
    assert(1 <= nn <= 7 ==> (1u8 << nn) & (1u8 << nn) != 0) by (bit_vector);
    assert(input[n + 1] == offset);
    assert(input[n + 2] == length);
    lemma_copy_match_periodic(literals, offset as int, length as int);
    assert(hs_decode(input, 0, 0, 8, Seq::empty()) == hs_decode(input, 1, input[0], 0, Seq::empty()));
    assert(hs_decode(input, n + 1, input[0], n, literals)
        == hs_decode(input, n + 3, input[0], n + 1, copy_match(literals, offset as int, length as int)));
}

} // verus!
