//! The events a host session reports while it reads a device stream, and
//! how the host shows them: channel labels, printable payloads and
//! diagnostics lines.
use vstd::prelude::*;
use vstd::utf8::*;
pub use crate::envelope::MuxEnvelope;
pub use crate::frame::BuildFrameError;
pub use crate::manifest::{ChannelDescriptor, DeviceManifest, PassthroughPolicy};
use crate::envelope::{
    encode_envelope, spec_encode_envelope, EnvelopeView, DIRECTION_INPUT, PAYLOAD_KIND_CONTROL, PAYLOAD_KIND_TEXT,
};
use crate::batch::{
    decode_batch, decode_batch_records, envelopes_view, spec_decode_batch, spec_decode_batch_records, BATCH_PAYLOAD_TYPE,
};
use crate::codec::{decompress, spec_decompress};
use crate::envelope::{decode_envelope, spec_decode_envelope};
use crate::frame::{
    build_frame_payload_with_max, events_view, merge_terminals, spec_frame_bytes, spec_scan, EventView, FrameError,
    FrameScanner, StreamEvent,
};
use crate::manifest::{
    decode_manifest, spec_decode_manifest, ManifestView, CHANNEL_INTERACTION_PASSTHROUGH, MANIFEST_PAYLOAD_TYPE,
    MANIFEST_REQUEST_PAYLOAD_TYPE,
};
use crate::text::{
    decimal_string, is_control_char, push_chars, push_hex, push_hex_padded, push_str, str_chars,
    string_from_chars, string_from_utf8,
};

verus! {

/// At most this many UTF-8 bytes of a channel name make its label.
pub const CHANNEL_NAME_MAX_BYTES: usize = 15;

pub const DECODE_STAGE_ENVELOPE: u32 = 1;
pub const DECODE_STAGE_MANIFEST: u32 = 2;
pub const DECODE_STAGE_BATCH: u32 = 3;
pub const DECODE_STAGE_BATCH_RECORDS: u32 = 4;
pub const DECODE_STAGE_COMPRESSION: u32 = 5;

pub const COMPAT_SUPPORTED: u32 = 0;
pub const COMPAT_UNSUPPORTED_OLD: u32 = 1;
pub const COMPAT_UNSUPPORTED_NEW: u32 = 2;

/// A frame whose checksum did not match.
#[derive(Debug, Clone, PartialEq, Eq)]
pub struct HostCrcError {
    pub version: u8,
    pub flags: u8,
    pub payload_len: usize,
    pub expected_crc: u32,
    pub actual_crc: u32,
}

/// Where in the protocol decoding failed.
#[derive(Debug, Clone, Copy, PartialEq, Eq, Structural)]
pub enum HostDecodeStage {
    Envelope,
    Manifest,
    Batch,
    BatchRecords,
    Compression,
    Unknown(u32),
}

/// A payload that could not be decoded.
#[derive(Debug, Clone, PartialEq, Eq)]
pub struct HostDecodeError {
    pub stage: HostDecodeStage,
    pub status: u32,
    pub detail: u32,
    pub payload: Vec<u8>,
}

/// How the device's protocol version relates to this host's.
#[derive(Debug, Clone, Copy, PartialEq, Eq, Structural)]
pub enum ProtocolCompatibilityKind {
    Supported,
    UnsupportedOld,
    UnsupportedNew,
    Unknown(u32),
}

/// The protocol versions of device and host, and their compatibility.
#[derive(Debug, Clone, Copy, PartialEq, Eq, Structural)]
pub struct ProtocolCompatibility {
    pub device_api_version: u32,
    pub host_min_api_version: u32,
    pub host_current_api_version: u32,
    pub compatibility: ProtocolCompatibilityKind,
}

/// A batch of records that was unpacked.
#[derive(Debug, Clone, Copy, PartialEq, Eq, Structural)]
pub struct BatchSummary {
    pub compression: u32,
    pub encoded_bytes: usize,
    pub raw_bytes: usize,
    pub record_count: usize,
}

/// What a host session reports.
#[derive(Debug, Clone, PartialEq, Eq)]
pub enum HostEvent {
    Terminal(Vec<u8>),
    Record(MuxEnvelope),
    CrcError(HostCrcError),
    DecodeError(HostDecodeError),
    Manifest(DeviceManifest),
    ProtocolCompatibility(ProtocolCompatibility),
    BatchSummary(BatchSummary),
}

/// The decode stage a wire value names.
pub fn decode_stage(value: u32) -> (r: HostDecodeStage)
    ensures
        r == if value == DECODE_STAGE_ENVELOPE {
            HostDecodeStage::Envelope
        } else if value == DECODE_STAGE_MANIFEST {
            HostDecodeStage::Manifest
        } else if value == DECODE_STAGE_BATCH {
            HostDecodeStage::Batch
        } else if value == DECODE_STAGE_BATCH_RECORDS {
            HostDecodeStage::BatchRecords
        } else if value == DECODE_STAGE_COMPRESSION {
            HostDecodeStage::Compression
        } else {
            HostDecodeStage::Unknown(value)
        },
{
    if value == DECODE_STAGE_ENVELOPE {
        HostDecodeStage::Envelope
    } else if value == DECODE_STAGE_MANIFEST {
        HostDecodeStage::Manifest
    } else if value == DECODE_STAGE_BATCH {
        HostDecodeStage::Batch
    } else if value == DECODE_STAGE_BATCH_RECORDS {
        HostDecodeStage::BatchRecords
    } else if value == DECODE_STAGE_COMPRESSION {
        HostDecodeStage::Compression
    } else {
        HostDecodeStage::Unknown(value)
    }
}

/// The compatibility a wire value names.
pub fn compatibility_kind(value: u32) -> (r: ProtocolCompatibilityKind)
    ensures
        r == if value == COMPAT_SUPPORTED {
            ProtocolCompatibilityKind::Supported
        } else if value == COMPAT_UNSUPPORTED_OLD {
            ProtocolCompatibilityKind::UnsupportedOld
        } else if value == COMPAT_UNSUPPORTED_NEW {
            ProtocolCompatibilityKind::UnsupportedNew
        } else {
            ProtocolCompatibilityKind::Unknown(value)
        },
{
    if value == COMPAT_SUPPORTED {
        ProtocolCompatibilityKind::Supported
    } else if value == COMPAT_UNSUPPORTED_OLD {
        ProtocolCompatibilityKind::UnsupportedOld
    } else if value == COMPAT_UNSUPPORTED_NEW {
        ProtocolCompatibilityKind::UnsupportedNew
    } else {
        ProtocolCompatibilityKind::Unknown(value)
    }
}

/// Appends terminal bytes to the events, joining them to terminal bytes
/// reported just before; nothing for no bytes.
pub fn push_terminal(events: &mut Vec<HostEvent>, bytes: Vec<u8>)
    ensures
        bytes@.len() == 0 ==> final(events)@ == old(events)@,
        bytes@.len() > 0 && old(events)@.len() > 0 && old(events)@.last() is Terminal ==> ({
            let n = old(events)@.len() - 1;
            &&& final(events)@.len() == old(events)@.len()
            &&& final(events)@.subrange(0, n) == old(events)@.subrange(0, n)
            &&& final(events)@[n] matches HostEvent::Terminal(t) && t@ == old(events)@[n]->Terminal_0@ + bytes@
        }),
        bytes@.len() > 0 && !(old(events)@.len() > 0 && old(events)@.last() is Terminal) ==> final(events)@
            == old(events)@.push(HostEvent::Terminal(bytes)),
{
    if bytes.len() == 0 {
        return;
    }
    let n = events.len();
    if n > 0 {
        if let HostEvent::Terminal(_) = &events[n - 1] {
            let last = events.pop();
            match last {
                Some(HostEvent::Terminal(mut existing)) => {
                    let ghost before = existing@;
                    crate::wire::extend_bytes(&mut existing, bytes.as_slice());
                    events.push(HostEvent::Terminal(existing));
                    assert(events@.subrange(0, n - 1) =~= old(events)@.subrange(0, n - 1));
                    return;
                },
                _ => {
                    return;
                },
            }
        }
    }
    events.push(HostEvent::Terminal(bytes));
}

// ---------------------------------------------------------------------
// Channel labels

/// The UTF-8 length of a character.
pub open spec fn char_utf8_len(c: char) -> nat {
    if (c as u32) < 0x80 {
        1
    } else if (c as u32) < 0x800 {
        2
    } else if (c as u32) < 0x10000 {
        3
    } else {
        4
    }
}

/// How many leading characters fit in `max_bytes` UTF-8 bytes.
pub open spec fn chars_within(s: Seq<char>, max_bytes: int) -> nat
    decreases s.len(),
{
    if s.len() == 0 || char_utf8_len(s[0]) > max_bytes {
        0
    } else {
        1 + chars_within(s.drop_first(), max_bytes - char_utf8_len(s[0]))
    }
}

/// The UTF-8 length of the characters.
pub open spec fn utf8_len(s: Seq<char>) -> nat
    decreases s.len(),
{
    if s.len() == 0 {
        0
    } else {
        char_utf8_len(s[0]) + utf8_len(s.drop_first())
    }
}

/// `char::len_utf8`.
pub fn char_len_utf8(c: char) -> (r: usize)
    ensures
        r as nat == char_utf8_len(c),
{
    let v = c as u32;
    if v < 0x80 {
        1
    } else if v < 0x800 {
        2
    } else if v < 0x10000 {
        3
    } else {
        4
    }
}

proof fn lemma_chars_within_bound(s: Seq<char>, max: int)
    ensures
        chars_within(s, max) <= s.len(),
    decreases s.len(),
{
    if s.len() > 0 && char_utf8_len(s[0]) <= max {
        lemma_chars_within_bound(s.drop_first(), max - char_utf8_len(s[0]));
    }
}

/// How many leading characters fit in `max_bytes`.
fn prefix_chars(chars: &Vec<char>, max_bytes: usize) -> (r: usize)
    ensures
        r as nat == chars_within(chars@, max_bytes as int),
{
    let mut i: usize = 0;
    let mut room: usize = max_bytes;
    proof {
        lemma_chars_within_bound(chars@, max_bytes as int);
    }
    assert(chars@.subrange(0, chars@.len() as int) =~= chars@);
    while i < chars.len()
        invariant
            i <= chars@.len(),
            chars_within(chars@, max_bytes as int) == i + chars_within(chars@.subrange(i as int, chars@.len() as int), room as int),
        decreases chars@.len() - i,
    {
        let len = char_len_utf8(chars[i]);
        let ghost rest = chars@.subrange(i as int, chars@.len() as int);
        assert(rest[0] == chars@[i as int]);
        assert(rest.drop_first() =~= chars@.subrange(i as int + 1, chars@.len() as int));
        if len > room {
            return i;
        }
        room = room - len;
        i = i + 1;
    }
    i
}

/// The length in bytes of the longest run of leading characters that fits
/// in `max_bytes`.
pub fn utf8_prefix_len(value: &str, max_bytes: usize) -> (r: usize)
    ensures
        r as nat == utf8_len(value@.subrange(0, chars_within(value@, max_bytes as int) as int)),
{
    let chars = str_chars(value);
    let k = prefix_chars(&chars, max_bytes);
    let mut total: usize = 0;
    let mut i: usize = 0;
    proof {
        lemma_chars_within_bound(value@, max_bytes as int);
        lemma_prefix_utf8_len(value@, max_bytes as int);
    }
    while i < k
        invariant
            i <= k,
            k as nat == chars_within(value@, max_bytes as int),
            k <= chars@.len(),
            chars@ == value@,
            total as nat == utf8_len(value@.subrange(0, i as int)),
            utf8_len(value@.subrange(0, k as int)) <= max_bytes,
        decreases k - i,
    {
        proof {
            lemma_utf8_len_push(value@.subrange(0, i as int), value@[i as int]);
            assert(value@.subrange(0, i as int).push(value@[i as int]) =~= value@.subrange(0, i as int + 1));
            lemma_utf8_len_prefix_mono(value@.subrange(0, k as int), i as int + 1);
            assert(value@.subrange(0, k as int).subrange(0, i as int + 1) =~= value@.subrange(0, i as int + 1));
        }
        total = total + char_len_utf8(chars[i]);
        i = i + 1;
    }
    total
}

/// Appending a character adds its UTF-8 length.
pub proof fn lemma_utf8_len_push(s: Seq<char>, c: char)
    ensures
        utf8_len(s.push(c)) == utf8_len(s) + char_utf8_len(c),
    decreases s.len(),
{
    if s.len() == 0 {
        assert(s.push(c).drop_first() =~= Seq::<char>::empty());
        assert(s.push(c)[0] == c);
        assert(utf8_len(s.push(c).drop_first()) == 0);
        assert(utf8_len(s) == 0);
    } else {
        assert(s.push(c).drop_first() =~= s.drop_first().push(c));
        assert(s.push(c)[0] == s[0]);
        lemma_utf8_len_push(s.drop_first(), c);
    }
}

proof fn lemma_utf8_len_prefix_mono(s: Seq<char>, k: int)
    requires
        0 <= k <= s.len(),
    ensures
        utf8_len(s.subrange(0, k)) <= utf8_len(s),
    decreases s.len(),
{
    if k < s.len() {
        lemma_utf8_len_push(s.drop_last(), s.last());
        assert(s.drop_last().push(s.last()) =~= s);
        assert(s.drop_last().subrange(0, k) =~= s.subrange(0, k));
        lemma_utf8_len_prefix_mono(s.drop_last(), k);
    } else {
        assert(s.subrange(0, k) =~= s);
    }
}

proof fn lemma_prefix_utf8_len(s: Seq<char>, max: int)
    ensures
        utf8_len(s.subrange(0, chars_within(s, max) as int)) <= if max < 0 { 0 } else { max },
    decreases s.len(),
{
    if s.len() == 0 || char_utf8_len(s[0]) > max {
        assert(s.subrange(0, 0) =~= Seq::<char>::empty());
    } else {
        let rest = s.drop_first();
        let m = max - char_utf8_len(s[0]);
        lemma_prefix_utf8_len(rest, m);
        lemma_chars_within_bound(s, max);
        let k = chars_within(s, max) as int;
        assert(s.subrange(0, k).drop_first() =~= rest.subrange(0, k - 1));
        assert(s.subrange(0, k)[0] == s[0]);
    }
}

/// Characters other than control characters.
pub open spec fn without_controls(s: Seq<char>) -> Seq<char>
    decreases s.len(),
{
    if s.len() == 0 {
        s
    } else {
        without_controls(s.drop_last()) + if crate::text::is_control(s.last()) { Seq::empty() } else { seq![s.last()] }
    }
}

/// The label of a channel name: the characters that fit in
/// `CHANNEL_NAME_MAX_BYTES` bytes, without control characters.
pub open spec fn channel_label(name: Seq<char>) -> Seq<char> {
    without_controls(name.subrange(0, chars_within(name, CHANNEL_NAME_MAX_BYTES as int) as int))
}

/// The label shown for a channel name; `None` when nothing is left of it.
pub fn display_channel_name(name: &str) -> (r: Option<String>)
    ensures
        channel_label(name@).len() == 0 ==> r is None,
        channel_label(name@).len() > 0 ==> (r matches Some(s) && s@ == channel_label(name@)),
{
    let chars = str_chars(name);
    let k = prefix_chars(&chars, CHANNEL_NAME_MAX_BYTES);
    proof {
        lemma_chars_within_bound(name@, CHANNEL_NAME_MAX_BYTES as int);
    }
    let mut label: Vec<char> = Vec::new();
    let mut i: usize = 0;
    while i < k
        invariant
            i <= k <= chars@.len(),
            chars@ == name@,
            label@ == without_controls(chars@.subrange(0, i as int)),
        decreases k - i,
    {
        assert(chars@.subrange(0, i as int + 1).drop_last() =~= chars@.subrange(0, i as int));
        if !is_control_char(chars[i]) {
            label.push(chars[i]);
        }
        assert(label@ =~= without_controls(chars@.subrange(0, i as int + 1)));
        i = i + 1;
    }
    if label.len() == 0 {
        None
    } else {
        Some(string_from_chars(label.as_slice()))
    }
}

// ---------------------------------------------------------------------
// Printable payloads

/// A character as `str::escape_default` writes it.
pub open spec fn escape_char(c: char) -> Seq<char> {
    if c == '\t' {
        seq!['\\', 't']
    } else if c == '\r' {
        seq!['\\', 'r']
    } else if c == '\n' {
        seq!['\\', 'n']
    } else if c == '\'' || c == '"' || c == '\\' {
        seq!['\\', c]
    } else if 0x20 <= (c as u32) && (c as u32) <= 0x7e {
        seq![c]
    } else {
        seq!['\\', 'u', '{'] + crate::text::hex_chars(c as u32 as nat) + seq!['}']
    }
}

/// Text as `str::escape_default` writes it.
pub open spec fn escape_text(s: Seq<char>) -> Seq<char>
    decreases s.len(),
{
    if s.len() == 0 {
        s
    } else {
        escape_text(s.drop_last()) + escape_char(s.last())
    }
}

/// The two lowercase hexadecimal digits of a byte.
pub open spec fn hex_byte(b: u8) -> Seq<char> {
    crate::text::hex_padded(b as nat, 2)
}

/// Bytes as two-digit hexadecimal numbers separated by spaces.
pub open spec fn hex_bytes(bytes: Seq<u8>) -> Seq<char>
    decreases bytes.len(),
{
    if bytes.len() == 0 {
        Seq::empty()
    } else if bytes.len() == 1 {
        hex_byte(bytes[0])
    } else {
        hex_bytes(bytes.drop_last()) + seq![' '] + hex_byte(bytes.last())
    }
}

/// A payload as text: escaped UTF-8, or hexadecimal bytes when it is not
/// UTF-8.
pub open spec fn printable(payload: Seq<u8>) -> Seq<char> {
    if valid_utf8(payload) {
        escape_text(decode_utf8(payload))
    } else {
        hex_bytes(payload)
    }
}

fn push_escaped(out: &mut Vec<char>, c: char)
    ensures
        final(out)@ == old(out)@ + escape_char(c),
{
    let v = c as u32;
    if c == '\t' {
        out.push('\\');
        out.push('t');
    } else if c == '\r' {
        out.push('\\');
        out.push('r');
    } else if c == '\n' {
        out.push('\\');
        out.push('n');
    } else if c == '\'' || c == '"' || c == '\\' {
        out.push('\\');
        out.push(c);
    } else if 0x20 <= v && v <= 0x7e {
        out.push(c);
    } else {
        out.push('\\');
        out.push('u');
        out.push('{');
        push_hex(out, v);
        out.push('}');
    }
    assert(final(out)@ =~= old(out)@ + escape_char(c));
}

/// A payload as text for diagnostics.
pub fn printable_payload(payload: &[u8]) -> (r: String)
    ensures
        r@ == printable(payload@),
{
    let bytes = crate::wire::copy_range(payload, 0, payload.len());
    assert(bytes@ =~= payload@);
    match string_from_utf8(bytes) {
        Some(text) => {
            let chars = str_chars(text.as_str());
            let mut out: Vec<char> = Vec::new();
            let mut i: usize = 0;
            while i < chars.len()
                invariant
                    i <= chars@.len(),
                    out@ == escape_text(chars@.subrange(0, i as int)),
                decreases chars@.len() - i,
            {
                assert(chars@.subrange(0, i as int + 1).drop_last() =~= chars@.subrange(0, i as int));
                push_escaped(&mut out, chars[i]);
                i = i + 1;
            }
            assert(chars@.subrange(0, i as int) =~= chars@);
            string_from_chars(out.as_slice())
        },
        None => {
            let mut out: Vec<char> = Vec::new();
            let mut i: usize = 0;
            while i < payload.len()
                invariant
                    i <= payload@.len(),
                    out@ == hex_bytes(payload@.subrange(0, i as int)),
                decreases payload@.len() - i,
            {
                assert(payload@.subrange(0, i as int + 1).drop_last() =~= payload@.subrange(0, i as int));
                if i > 0 {
                    out.push(' ');
                }
                push_hex_padded(&mut out, payload[i] as u32, 2);
                assert(out@ =~= hex_bytes(payload@.subrange(0, i as int + 1)));
                i = i + 1;
            }
            assert(payload@.subrange(0, i as int) =~= payload@);
            string_from_chars(out.as_slice())
        },
    }
}

/// A payload type for diagnostics: `-` when it is empty.
pub fn printable_payload_type(payload_type: &str) -> (r: &str)
    ensures
        payload_type@.len() == 0 ==> r@ == "-"@,
        payload_type@.len() > 0 ==> r@ == payload_type@,
{
    if payload_type.is_empty() {
        "-"
    } else {
        payload_type
    }
}

/// The marker line shown for a decode error.
pub open spec fn decode_marker(stage: HostDecodeStage) -> Seq<char> {
    match stage {
        HostDecodeStage::Envelope => "envelope decode error; details in diagnostics"@,
        HostDecodeStage::Manifest => "manifest decode error; details in diagnostics"@,
        HostDecodeStage::Batch => "batch decode error; details in diagnostics"@,
        HostDecodeStage::BatchRecords => "batch records decode error; details in diagnostics"@,
        HostDecodeStage::Compression => "batch payload decode error; details in diagnostics"@,
        HostDecodeStage::Unknown(_) => "protocol decode error; details in diagnostics"@,
    }
}

pub fn decode_error_marker(stage: HostDecodeStage) -> (r: &'static str)
    ensures
        r@ == decode_marker(stage),
        r@ == match stage {
            HostDecodeStage::Envelope => "envelope decode error; details in diagnostics"@,
            HostDecodeStage::Manifest => "manifest decode error; details in diagnostics"@,
            HostDecodeStage::Batch => "batch decode error; details in diagnostics"@,
            HostDecodeStage::BatchRecords => "batch records decode error; details in diagnostics"@,
            HostDecodeStage::Compression => "batch payload decode error; details in diagnostics"@,
            HostDecodeStage::Unknown(_) => "protocol decode error; details in diagnostics"@,
        },
{
    match stage {
        HostDecodeStage::Envelope => "envelope decode error; details in diagnostics",
        HostDecodeStage::Manifest => "manifest decode error; details in diagnostics",
        HostDecodeStage::Batch => "batch decode error; details in diagnostics",
        HostDecodeStage::BatchRecords => "batch records decode error; details in diagnostics",
        HostDecodeStage::Compression => "batch payload decode error; details in diagnostics",
        HostDecodeStage::Unknown(_) => "protocol decode error; details in diagnostics",
    }
}

/// The name of a decode stage as its debug form shows it.
pub fn decode_stage_name(stage: HostDecodeStage) -> (r: String)
    ensures
        r@ == match stage {
            HostDecodeStage::Envelope => "Envelope"@,
            HostDecodeStage::Manifest => "Manifest"@,
            HostDecodeStage::Batch => "Batch"@,
            HostDecodeStage::BatchRecords => "BatchRecords"@,
            HostDecodeStage::Compression => "Compression"@,
            HostDecodeStage::Unknown(v) => "Unknown("@ + crate::text::decimal_chars(v as nat) + ")"@,
        },
{
    match stage {
        HostDecodeStage::Envelope => "Envelope".to_owned(),
        HostDecodeStage::Manifest => "Manifest".to_owned(),
        HostDecodeStage::Batch => "Batch".to_owned(),
        HostDecodeStage::BatchRecords => "BatchRecords".to_owned(),
        HostDecodeStage::Compression => "Compression".to_owned(),
        HostDecodeStage::Unknown(v) => {
            let mut out = "Unknown(".to_owned();
            let digits = decimal_string(v as u64);
            push_str(&mut out, digits.as_str());
            push_str(&mut out, ")");
            out
        },
    }
}

/// The index of the first channel with the id.
pub open spec fn channel_position(channels: Seq<ChannelDescriptor>, channel_id: u32) -> Option<int>
    decreases channels.len(),
{
    if channels.len() == 0 {
        None
    } else {
        match channel_position(channels.drop_last(), channel_id) {
            Some(i) => Some(i),
            None => if channels.last().channel_id == channel_id {
                Some(channels.len() - 1)
            } else {
                None
            },
        }
    }
}

proof fn lemma_channel_position_prefix(channels: Seq<ChannelDescriptor>, channel_id: u32, k: int)
    requires
        0 <= k <= channels.len(),
    ensures
        channel_position(channels.subrange(0, k), channel_id) matches Some(i) ==> channel_position(channels, channel_id) == Some(i),
        channel_position(channels, channel_id) matches Some(i) ==> 0 <= i < channels.len(),
    decreases channels.len(),
{
    if channels.len() > 0 {
        if k == channels.len() {
            assert(channels.subrange(0, k) =~= channels);
        } else {
            assert(channels.drop_last().subrange(0, k) =~= channels.subrange(0, k));
            lemma_channel_position_prefix(channels.drop_last(), channel_id, k);
        }
        lemma_channel_position_prefix(channels.drop_last(), channel_id, channels.len() - 1);
    } else {
        assert(channels.subrange(0, k) =~= channels);
    }
}

/// The position of the first channel with the id.
pub fn find_channel(manifest: &DeviceManifest, channel_id: u32) -> (r: Option<usize>)
    ensures
        r matches Some(i) ==> channel_position(manifest.channels@, channel_id) == Some(i as int) && i < manifest.channels@.len(),
        r is None ==> channel_position(manifest.channels@, channel_id) is None,
{
    let mut i: usize = 0;
    while i < manifest.channels.len()
        invariant
            i <= manifest.channels@.len(),
            channel_position(manifest.channels@.subrange(0, i as int), channel_id) is None,
        decreases manifest.channels@.len() - i,
    {
        assert(manifest.channels@.subrange(0, i as int + 1).drop_last() =~= manifest.channels@.subrange(0, i as int));
        if manifest.channels[i].channel_id == channel_id {
            proof {
                lemma_channel_position_prefix(manifest.channels@, channel_id, i as int + 1);
            }
            return Some(i);
        }
        i = i + 1;
    }
    assert(manifest.channels@.subrange(0, i as int) =~= manifest.channels@);
    None
}

/// Whether the manifest's channel with the id takes passthrough input.
pub fn channel_supports_passthrough(manifest: &DeviceManifest, channel_id: u32) -> (r: bool)
    ensures
        r == match channel_position(manifest.channels@, channel_id) {
            Some(i) => manifest.channels@[i].default_interaction_mode == CHANNEL_INTERACTION_PASSTHROUGH
                || manifest.channels@[i].interaction_modes@.contains(CHANNEL_INTERACTION_PASSTHROUGH),
            None => false,
        },
{
    match find_channel(manifest, channel_id) {
        Some(i) => {
            let channel = &manifest.channels[i];
            channel.default_interaction_mode == CHANNEL_INTERACTION_PASSTHROUGH
                || crate::virtual_serial::vec_contains(&channel.interaction_modes, CHANNEL_INTERACTION_PASSTHROUGH)
        },
        None => false,
    }
}

/// The passthrough policy of the manifest's channel with the id.
pub fn passthrough_policy_for_channel(manifest: &DeviceManifest, channel_id: u32) -> (r: Option<PassthroughPolicy>)
    ensures
        r == match channel_position(manifest.channels@, channel_id) {
            Some(i) => Some(manifest.channels@[i].passthrough_policy),
            None => None,
        },
{
    match find_channel(manifest, channel_id) {
        Some(i) => Some(manifest.channels[i].passthrough_policy),
        None => None,
    }
}

/// The diagnostics line of a record, with its line break.
pub open spec fn envelope_diagnostics(e: MuxEnvelope) -> Seq<char> {
    "[wiremux] ch="@ + crate::text::decimal_chars(e.channel_id as nat)
        + " dir="@ + crate::text::decimal_chars(e.direction as nat)
        + " seq="@ + crate::text::decimal_chars(e.sequence as nat)
        + " ts="@ + crate::text::decimal_chars(e.timestamp_us as nat)
        + " kind="@ + crate::text::decimal_chars(e.kind as nat)
        + " type="@ + (if e.payload_type@.len() == 0 { "-"@ } else { e.payload_type@ })
        + " flags="@ + crate::text::decimal_chars(e.flags as nat)
        + " payload="@ + printable(e.payload@) + "\n"@
}

/// Appends a decimal number to a string.
pub fn push_decimal_str(out: &mut String, n: u64)
    ensures
        final(out)@ == old(out)@ + crate::text::decimal_chars(n as nat),
{
    let digits = decimal_string(n);
    push_str(out, digits.as_str());
}

/// Appends the diagnostics line of a record.
pub fn write_envelope_diagnostics(out: &mut String, envelope: &MuxEnvelope)
    ensures
        final(out)@ == old(out)@ + envelope_diagnostics(*envelope),
{
    let ghost start = out@;
    push_str(out, "[wiremux] ch=");
    push_decimal_str(out, envelope.channel_id as u64);
    push_str(out, " dir=");
    push_decimal_str(out, envelope.direction as u64);
    push_str(out, " seq=");
    push_decimal_str(out, envelope.sequence as u64);
    push_str(out, " ts=");
    push_decimal_str(out, envelope.timestamp_us);
    push_str(out, " kind=");
    push_decimal_str(out, envelope.kind as u64);
    push_str(out, " type=");
    push_str(out, printable_payload_type(envelope.payload_type.as_str()));
    push_str(out, " flags=");
    push_decimal_str(out, envelope.flags as u64);
    push_str(out, " payload=");
    let payload = printable_payload(envelope.payload.as_slice());
    push_str(out, payload.as_str());
    push_str(out, "\n");
    assert(out@ =~= start + envelope_diagnostics(*envelope));
}

// ---------------------------------------------------------------------
// Frames the host sends

/// UTF-8 takes at most four bytes a character.
proof fn lemma_utf8_bytes_bound(s: Seq<char>)
    ensures
        encode_utf8(s).len() <= 4 * s.len(),
    decreases s.len(),
{
    if s.len() > 0 {
        lemma_utf8_bytes_bound(s.drop_first());
    }
}

/// The envelope that carries `payload` as text input for a channel.
pub open spec fn input_envelope(channel: u8, payload: Seq<u8>) -> EnvelopeView {
    EnvelopeView {
        channel_id: channel as u32,
        direction: DIRECTION_INPUT,
        sequence: 0,
        timestamp_us: 0,
        kind: PAYLOAD_KIND_TEXT,
        payload_type: Seq::empty(),
        payload,
        flags: 0,
    }
}

/// The envelope that asks the device for its manifest.
pub open spec fn manifest_request_envelope() -> EnvelopeView {
    EnvelopeView {
        channel_id: 0,
        direction: DIRECTION_INPUT,
        sequence: 0,
        timestamp_us: 0,
        kind: PAYLOAD_KIND_CONTROL,
        payload_type: MANIFEST_REQUEST_PAYLOAD_TYPE@,
        payload: Seq::empty(),
        flags: 0,
    }
}

/// The frame that sends `payload` to a channel. A payload longer than
/// `max_payload_len`, or one whose envelope is too long for a frame's
/// length field, is refused.
pub fn build_input_frame(channel: u8, payload: &[u8], max_payload_len: usize) -> (r: Result<Vec<u8>, BuildFrameError>)
    ensures
        ({
            let encoded = spec_encode_envelope(input_envelope(channel, payload@));
            if payload@.len() <= max_payload_len && encoded.len() <= u32::MAX {
                r is Ok && r->Ok_0@ == spec_frame_bytes(0, encoded)
            } else {
                r == Err::<Vec<u8>, BuildFrameError>(BuildFrameError::PayloadTooLarge {
                    len: payload@.len() as usize,
                    max: max_payload_len,
                })
            }
        }),
{
    if payload.len() > max_payload_len {
        return Err(BuildFrameError::PayloadTooLarge { len: payload.len(), max: max_payload_len });
    }
    let mut bytes: Vec<u8> = Vec::new();
    crate::wire::extend_bytes(&mut bytes, payload);
    assert(bytes@ =~= payload@);
    let envelope = MuxEnvelope {
        channel_id: channel as u32,
        direction: DIRECTION_INPUT,
        sequence: 0,
        timestamp_us: 0,
        kind: PAYLOAD_KIND_TEXT,
        payload_type: String::new(),
        payload: bytes,
        flags: 0,
    };
    assert(envelope@ =~= input_envelope(channel, payload@));
    let encoded = encode_envelope(&envelope);
    match build_frame_payload_with_max(0, encoded.as_slice(), 0xffff_ffff) {
        Ok(frame) => Ok(frame),
        Err(_) => Err(BuildFrameError::PayloadTooLarge { len: payload.len(), max: max_payload_len }),
    }
}

/// The frame that asks the device for its manifest.
pub fn build_manifest_request_frame(max_payload_len: usize) -> (r: Result<Vec<u8>, BuildFrameError>)
    ensures
        r is Ok && r->Ok_0@ == spec_frame_bytes(0, spec_encode_envelope(manifest_request_envelope())),
{
    let envelope = MuxEnvelope {
        channel_id: 0,
        direction: DIRECTION_INPUT,
        sequence: 0,
        timestamp_us: 0,
        kind: PAYLOAD_KIND_CONTROL,
        payload_type: MANIFEST_REQUEST_PAYLOAD_TYPE.to_owned(),
        payload: Vec::new(),
        flags: 0,
    };
    assert(envelope@ =~= manifest_request_envelope());
    let encoded = encode_envelope(&envelope);
    proof {
        let e = manifest_request_envelope();
        reveal_strlit("wiremux.v1.DeviceManifestRequest");
        lemma_utf8_bytes_bound(e.payload_type);
        crate::wire::lemma_varint_bytes_len(crate::wire::field_key(1, crate::wire::WIRE_VARINT));
        crate::wire::lemma_varint_bytes_len(crate::wire::field_key(2, crate::wire::WIRE_VARINT));
        crate::wire::lemma_varint_bytes_len(crate::wire::field_key(3, crate::wire::WIRE_VARINT));
        crate::wire::lemma_varint_bytes_len(crate::wire::field_key(4, crate::wire::WIRE_VARINT));
        crate::wire::lemma_varint_bytes_len(crate::wire::field_key(5, crate::wire::WIRE_VARINT));
        crate::wire::lemma_varint_bytes_len(crate::wire::field_key(6, crate::wire::WIRE_LEN));
        crate::wire::lemma_varint_bytes_len(crate::wire::field_key(7, crate::wire::WIRE_LEN));
        crate::wire::lemma_varint_bytes_len(crate::wire::field_key(8, crate::wire::WIRE_VARINT));
        crate::wire::lemma_varint_bytes_len(0);
        crate::wire::lemma_varint_bytes_len(1);
        crate::wire::lemma_varint_bytes_len(4);
        crate::wire::lemma_varint_bytes_len(encode_utf8(e.payload_type).len() as u64);
    }
    build_frame_payload_with_max(0, encoded.as_slice(), 0xffff_ffff)
}

/// A frame built for channel input, scanned on its own, is found whole,
/// and its payload decodes to the envelope that carried the input.
pub proof fn lemma_input_frame_round_trip(channel: u8, payload: Seq<u8>, max_payload_len: usize)
    requires
        spec_encode_envelope(input_envelope(channel, payload)).len() <= max_payload_len,
        spec_encode_envelope(input_envelope(channel, payload)).len() <= u32::MAX,
    ensures
        ({
            let encoded = spec_encode_envelope(input_envelope(channel, payload));
            &&& crate::frame::spec_scan(spec_frame_bytes(0, encoded), max_payload_len) == (
                seq![crate::frame::EventView::Frame { version: crate::frame::SUPPORTED_VERSION, flags: 0, payload: encoded }],
                Seq::<u8>::empty(),
            )
            &&& crate::envelope::spec_decode_envelope(encoded) == Ok::<EnvelopeView, crate::wire::DecodeError>(
                input_envelope(channel, payload),
            )
        }),
{
    let encoded = spec_encode_envelope(input_envelope(channel, payload));
    crate::frame::lemma_scan_built_frame(0, encoded, Seq::<u8>::empty(), max_payload_len);
    crate::frame::lemma_scan_empty(max_payload_len);
    assert(spec_frame_bytes(0, encoded) + Seq::<u8>::empty() =~= spec_frame_bytes(0, encoded));
    assert(seq![crate::frame::EventView::Frame { version: crate::frame::SUPPORTED_VERSION, flags: 0, payload: encoded }]
        + Seq::<crate::frame::EventView>::empty() =~= seq![crate::frame::EventView::Frame {
            version: crate::frame::SUPPORTED_VERSION,
            flags: 0,
            payload: encoded,
        }]);
    crate::envelope::lemma_envelope_round_trip(input_envelope(channel, payload));
}


// ---------------------------------------------------------------------
// The session: frames found in the stream, decoded into host events

/// The status reported with a payload that could not be decoded.
pub const DECODE_STATUS_FAILED: u32 = 1;

/// The mathematical content of a host event.
pub enum HostEventView {
    Terminal(Seq<u8>),
    Record(EnvelopeView),
    CrcError(HostCrcError),
    DecodeError { stage: HostDecodeStage, status: u32, detail: u32, payload: Seq<u8> },
    Manifest(ManifestView),
    ProtocolCompatibility(ProtocolCompatibility),
    BatchSummary(BatchSummary),
}

impl HostEvent {
    pub open spec fn view(&self) -> HostEventView {
        match self {
            HostEvent::Terminal(b) => HostEventView::Terminal(b@),
            HostEvent::Record(e) => HostEventView::Record(e@),
            HostEvent::CrcError(c) => HostEventView::CrcError(*c),
            HostEvent::DecodeError(d) => HostEventView::DecodeError {
                stage: d.stage,
                status: d.status,
                detail: d.detail,
                payload: d.payload@,
            },
            HostEvent::Manifest(m) => HostEventView::Manifest(m@),
            HostEvent::ProtocolCompatibility(c) => HostEventView::ProtocolCompatibility(*c),
            HostEvent::BatchSummary(b) => HostEventView::BatchSummary(*b),
        }
    }
}

/// The views of a list of host events.
pub open spec fn host_events_view(events: Seq<HostEvent>) -> Seq<HostEventView> {
    events.map_values(|e: HostEvent| e.view())
}

/// A payload that failed to decode at `stage`.
pub open spec fn decode_failure(stage: HostDecodeStage, payload: Seq<u8>) -> HostEventView {
    HostEventView::DecodeError { stage, status: DECODE_STATUS_FAILED, detail: 0, payload }
}

/// Records as events.
pub open spec fn record_events(records: Seq<EnvelopeView>) -> Seq<HostEventView> {
    records.map_values(|r: EnvelopeView| HostEventView::Record(r))
}

/// The events of a batch payload: its records, in order, then a summary;
/// or the stage at which it could not be unpacked.
pub open spec fn batch_events(payload: Seq<u8>) -> Seq<HostEventView> {
    match spec_decode_batch(payload) {
        Err(_) => seq![decode_failure(HostDecodeStage::Batch, payload)],
        Ok(b) => match spec_decompress(b.compression, b.records, b.uncompressed_len as usize) {
            Err(_) => seq![decode_failure(HostDecodeStage::Compression, payload)],
            Ok(raw) => match spec_decode_batch_records(raw) {
                Err(_) => seq![decode_failure(HostDecodeStage::BatchRecords, payload)],
                Ok(rs) => record_events(rs).push(
                    HostEventView::BatchSummary(
                        BatchSummary {
                            compression: b.compression,
                            encoded_bytes: b.records.len() as usize,
                            raw_bytes: raw.len() as usize,
                            record_count: rs.len() as usize,
                        },
                    ),
                ),
            },
        },
    }
}

/// The events of a frame's payload: a manifest, the records of a batch,
/// or the record itself; or the stage at which decoding failed.
pub open spec fn payload_events(payload: Seq<u8>) -> Seq<HostEventView> {
    match spec_decode_envelope(payload) {
        Err(_) => seq![decode_failure(HostDecodeStage::Envelope, payload)],
        Ok(env) => if env.payload_type == MANIFEST_PAYLOAD_TYPE@ {
            match spec_decode_manifest(env.payload) {
                Ok(m) => seq![HostEventView::Manifest(m)],
                Err(_) => seq![decode_failure(HostDecodeStage::Manifest, env.payload)],
            }
        } else if env.payload_type == BATCH_PAYLOAD_TYPE@ {
            batch_events(env.payload)
        } else {
            seq![HostEventView::Record(env)]
        },
    }
}

/// Appending terminal bytes, joined to terminal bytes just before them.
pub open spec fn push_terminal_view(events: Seq<HostEventView>, bytes: Seq<u8>) -> Seq<HostEventView> {
    if bytes.len() == 0 {
        events
    } else if events.len() > 0 && events.last() is Terminal {
        events.drop_last().push(HostEventView::Terminal(events.last()->Terminal_0 + bytes))
    } else {
        events.push(HostEventView::Terminal(bytes))
    }
}

/// The host events of what the scanner found, in order.
pub open spec fn stream_events(stream: Seq<EventView>) -> Seq<HostEventView>
    decreases stream.len(),
{
    if stream.len() == 0 {
        Seq::empty()
    } else {
        let before = stream_events(stream.drop_last());
        match stream.last() {
            EventView::Terminal(bytes) => push_terminal_view(before, bytes),
            EventView::Frame { payload, .. } => before + payload_events(payload),
            EventView::FrameError(FrameError::CrcMismatch { version, flags, payload_len, expected_crc, actual_crc }) => before.push(
                HostEventView::CrcError(HostCrcError { version, flags, payload_len, expected_crc, actual_crc }),
            ),
        }
    }
}

fn decode_failure_event(stage: HostDecodeStage, payload: Vec<u8>) -> (r: HostEvent)
    ensures
        r.view() == decode_failure(stage, payload@),
{
    HostEvent::DecodeError(HostDecodeError { stage, status: DECODE_STATUS_FAILED, detail: 0, payload })
}

/// Appends records as events, in order.
fn push_record_events(events: &mut Vec<HostEvent>, records: Vec<MuxEnvelope>)
    ensures
        host_events_view(final(events)@) == host_events_view(old(events)@) + record_events(envelopes_view(records@)),
{
    let ghost given = envelopes_view(records@);
    let ghost start = host_events_view(events@);
    let mut pending = records;
    let mut reversed: Vec<MuxEnvelope> = Vec::new();
    while pending.len() > 0
        invariant
            given == envelopes_view(pending@) + envelopes_view(reversed@).reverse(),
        decreases pending@.len(),
    {
        let ghost p = pending@;
        let ghost rv = reversed@;
        match pending.pop() {
            Some(e) => {
                reversed.push(e);
                proof {
                    assert(pending@ == p.drop_last());
                    assert(envelopes_view(p) =~= envelopes_view(pending@).push(e@));
                    assert(envelopes_view(reversed@) =~= envelopes_view(rv).push(e@));
                    assert(envelopes_view(reversed@).reverse() =~= seq![e@] + envelopes_view(rv).reverse());
                    assert(given =~= envelopes_view(pending@) + envelopes_view(reversed@).reverse());
                }
            },
            None => {},
        }
    }
    assert(envelopes_view(pending@) =~= Seq::<EnvelopeView>::empty());
    let ghost mut done: Seq<EnvelopeView> = Seq::empty();
    assert(given =~= done + envelopes_view(reversed@).reverse());
    assert(host_events_view(events@) =~= start + record_events(done));
    while reversed.len() > 0
        invariant
            given == done + envelopes_view(reversed@).reverse(),
            host_events_view(events@) == start + record_events(done),
        decreases reversed@.len(),
    {
        let ghost rv = reversed@;
        let ghost ev = events@;
        match reversed.pop() {
            Some(e) => {
                events.push(HostEvent::Record(e));
                proof {
                    assert(reversed@ == rv.drop_last());
                    assert(envelopes_view(rv) =~= envelopes_view(reversed@).push(e@));
                    assert(envelopes_view(rv).reverse() =~= seq![e@] + envelopes_view(reversed@).reverse());
                    let d2 = done.push(e@);
                    assert(given =~= d2 + envelopes_view(reversed@).reverse());
                    assert(host_events_view(events@) =~= host_events_view(ev).push(HostEventView::Record(e@)));
                    assert(record_events(d2) =~= record_events(done).push(HostEventView::Record(e@)));
                    done = d2;
                }
            },
            None => {},
        }
    }
    assert(done =~= given);
}

/// Unpacks a batch payload into events.
fn push_batch_events(events: &mut Vec<HostEvent>, payload: Vec<u8>)
    ensures
        host_events_view(final(events)@) == host_events_view(old(events)@) + batch_events(payload@),
{
    let ghost start = host_events_view(events@);
    match decode_batch(payload.as_slice()) {
        Err(_) => {
            events.push(decode_failure_event(HostDecodeStage::Batch, payload));
            assert(host_events_view(events@) =~= start + batch_events(payload@));
        },
        Ok(batch) => match decompress(batch.compression, batch.records.as_slice(), batch.uncompressed_len as usize) {
            Err(_) => {
                events.push(decode_failure_event(HostDecodeStage::Compression, payload));
                assert(host_events_view(events@) =~= start + batch_events(payload@));
            },
            Ok(raw) => match decode_batch_records(raw.as_slice()) {
                Err(_) => {
                    events.push(decode_failure_event(HostDecodeStage::BatchRecords, payload));
                    assert(host_events_view(events@) =~= start + batch_events(payload@));
                },
                Ok(records) => {
                    let record_count = records.len();
                    let ghost rs = envelopes_view(records@);
                    let summary = BatchSummary {
                        compression: batch.compression,
                        encoded_bytes: batch.records.len(),
                        raw_bytes: raw.len(),
                        record_count,
                    };
                    push_record_events(events, records);
                    let ghost mid = events@;
                    events.push(HostEvent::BatchSummary(summary));
                    assert(host_events_view(events@) =~= host_events_view(mid).push(HostEventView::BatchSummary(summary)));
                    assert(host_events_view(events@) =~= start + batch_events(payload@));
                },
            },
        },
    }
}

/// Decodes a frame's payload into events.
fn push_payload_events(events: &mut Vec<HostEvent>, payload: Vec<u8>)
    ensures
        host_events_view(final(events)@) == host_events_view(old(events)@) + payload_events(payload@),
{
    let ghost start = host_events_view(events@);
    match decode_envelope(payload.as_slice()) {
        Err(_) => {
            events.push(decode_failure_event(HostDecodeStage::Envelope, payload));
            assert(host_events_view(events@) =~= start + payload_events(payload@));
        },
        Ok(envelope) => {
            if crate::text::str_eq(envelope.payload_type.as_str(), MANIFEST_PAYLOAD_TYPE) {
                match decode_manifest(envelope.payload.as_slice()) {
                    Ok(manifest) => events.push(HostEvent::Manifest(manifest)),
                    Err(_) => events.push(decode_failure_event(HostDecodeStage::Manifest, envelope.payload)),
                }
                assert(host_events_view(events@) =~= start + payload_events(payload@));
            } else if crate::text::str_eq(envelope.payload_type.as_str(), BATCH_PAYLOAD_TYPE) {
                push_batch_events(events, envelope.payload);
            } else {
                events.push(HostEvent::Record(envelope));
                assert(host_events_view(events@) =~= start + payload_events(payload@));
            }
        },
    }
}

/// The host events of what the scanner found.
fn host_events(stream: Vec<StreamEvent>) -> (r: Vec<HostEvent>)
    ensures
        host_events_view(r@) == stream_events(events_view(stream@)),
{
    let ghost given = events_view(stream@);
    let mut pending = stream;
    let mut reversed: Vec<StreamEvent> = Vec::new();
    while pending.len() > 0
        invariant
            given == events_view(pending@) + events_view(reversed@).reverse(),
        decreases pending@.len(),
    {
        let ghost p = pending@;
        let ghost rv = reversed@;
        match pending.pop() {
            Some(e) => {
                reversed.push(e);
                proof {
                    assert(pending@ == p.drop_last());
                    assert(events_view(p) =~= events_view(pending@).push(e.view()));
                    assert(events_view(reversed@) =~= events_view(rv).push(e.view()));
                    assert(events_view(reversed@).reverse() =~= seq![e.view()] + events_view(rv).reverse());
                    assert(given =~= events_view(pending@) + events_view(reversed@).reverse());
                }
            },
            None => {},
        }
    }
    assert(events_view(pending@) =~= Seq::<EventView>::empty());
    let mut events: Vec<HostEvent> = Vec::new();
    let ghost mut done: Seq<EventView> = Seq::empty();
    assert(given =~= done + events_view(reversed@).reverse());
    assert(host_events_view(events@) =~= stream_events(done));
    while reversed.len() > 0
        invariant
            given == done + events_view(reversed@).reverse(),
            host_events_view(events@) == stream_events(done),
        decreases reversed@.len(),
    {
        let ghost rv = reversed@;
        let ghost before = events@;
        match reversed.pop() {
            Some(e) => {
                proof {
                    assert(reversed@ == rv.drop_last());
                    assert(events_view(rv) =~= events_view(reversed@).push(e.view()));
                    assert(events_view(rv).reverse() =~= seq![e.view()] + events_view(reversed@).reverse());
                }
                let ghost d2 = done.push(e.view());
                proof {
                    assert(d2.drop_last() =~= done);
                    assert(given =~= d2 + events_view(reversed@).reverse());
                }
                match e {
                    StreamEvent::Terminal(bytes) => {
                        let ghost b = bytes@;
                        push_terminal(&mut events, bytes);
                        proof {
                            if b.len() > 0 && !(before.len() > 0 && before.last() is Terminal) {
                                assert(events@.subrange(0, before.len() as int) =~= before);
                            }
                            lemma_push_terminal_view(before, events@, b);
                        }
                    },
                    StreamEvent::Frame(frame) => {
                        push_payload_events(&mut events, frame.payload);
                    },
                    StreamEvent::FrameError(FrameError::CrcMismatch { version, flags, payload_len, expected_crc, actual_crc }) => {
                        events.push(HostEvent::CrcError(HostCrcError { version, flags, payload_len, expected_crc, actual_crc }));
                        assert(host_events_view(events@) =~= host_events_view(before).push(
                            HostEventView::CrcError(HostCrcError { version, flags, payload_len, expected_crc, actual_crc }),
                        ));
                    },
                }
                proof {
                    done = d2;
                }
            },
            None => {},
        }
    }
    assert(done =~= given);
    events
}

/// What `push_terminal` does, seen through the views.
proof fn lemma_push_terminal_view(before: Seq<HostEvent>, after: Seq<HostEvent>, bytes: Seq<u8>)
    requires
        bytes.len() == 0 ==> after == before,
        bytes.len() > 0 && before.len() > 0 && before.last() is Terminal ==> ({
            let n = before.len() - 1;
            &&& after.len() == before.len()
            &&& after.subrange(0, n) == before.subrange(0, n)
            &&& after[n] matches HostEvent::Terminal(t) && t@ == before[n]->Terminal_0@ + bytes
        }),
        bytes.len() > 0 && !(before.len() > 0 && before.last() is Terminal) ==> ({
            &&& after.len() == before.len() + 1
            &&& after.subrange(0, before.len() as int) == before
            &&& (after.last() matches HostEvent::Terminal(t) && t@ == bytes)
        }),
    ensures
        host_events_view(after) == push_terminal_view(host_events_view(before), bytes),
{
    let bv = host_events_view(before);
    if bytes.len() == 0 {
    } else if before.len() > 0 && before.last() is Terminal {
        let n = before.len() - 1;
        assert(bv.last() is Terminal);
        assert(host_events_view(after) =~= bv.drop_last().push(HostEventView::Terminal(bv.last()->Terminal_0 + bytes))) by {
            assert forall|i: int| 0 <= i < n implies after[i] == before[i] by {
                assert(after.subrange(0, n)[i] == before.subrange(0, n)[i]);
            }
        }
    } else {
        assert(host_events_view(after) =~= bv.push(HostEventView::Terminal(bytes))) by {
            assert forall|i: int| 0 <= i < before.len() implies after[i] == before[i] by {
                assert(after.subrange(0, before.len() as int)[i] == before[i]);
            }
        }
    }
}

/// A host session: it finds frames in the device stream and decodes them
/// into host events. Terminal bytes between frames come out as they are;
/// a payload that cannot be decoded is reported with the stage at which
/// decoding failed.
pub struct HostSession {
    scanner: FrameScanner,
}

impl HostSession {
    /// The bytes held back for the next call.
    pub closed spec fn pending(&self) -> Seq<u8> {
        self.scanner.pending()
    }

    /// The largest frame payload the session accepts.
    pub closed spec fn max_len(&self) -> usize {
        self.scanner.max_len()
    }

    /// A session holding nothing; it always starts.
    pub fn new(max_payload_len: usize) -> (r: Result<HostSession, u32>)
        ensures
            r matches Ok(s) && s.pending() == Seq::<u8>::empty() && s.max_len() == max_payload_len,
    {
        Ok(HostSession { scanner: FrameScanner::new(max_payload_len) })
    }

    /// Feeds bytes of the stream; returns the events that can be decided
    /// now and keeps the rest. Feeding never fails.
    pub fn feed(&mut self, bytes: &[u8]) -> (r: Result<Vec<HostEvent>, u32>)
        ensures
            final(self).max_len() == old(self).max_len(),
            ({
                let (found, rest) = spec_scan(old(self).pending() + bytes@, old(self).max_len());
                &&& final(self).pending() == rest
                &&& r matches Ok(events) && host_events_view(events@) == stream_events(merge_terminals(found))
            }),
    {
        let stream = self.scanner.push(bytes);
        Ok(host_events(stream))
    }

    /// Ends the stream: what was held back comes out as terminal bytes.
    pub fn finish(&mut self) -> (r: Result<Vec<HostEvent>, u32>)
        ensures
            final(self).pending() == Seq::<u8>::empty(),
            final(self).max_len() == old(self).max_len(),
            r matches Ok(events) && host_events_view(events@) == if old(self).pending().len() == 0 {
                Seq::<HostEventView>::empty()
            } else {
                seq![HostEventView::Terminal(old(self).pending())]
            },
    {
        let ghost p = self.pending();
        let stream = self.scanner.finish();
        let ghost sv = events_view(stream@);
        proof {
            let empty = Seq::<EventView>::empty();
            assert(stream_events(empty) == Seq::<HostEventView>::empty());
            if p.len() == 0 {
                assert(sv =~= empty);
            } else {
                assert(sv == seq![EventView::Terminal(p)]);
                assert(sv.drop_last() =~= empty);
                assert(sv.last() == EventView::Terminal(p));
                assert(stream_events(sv) == push_terminal_view(Seq::<HostEventView>::empty(), p));
                assert(Seq::<HostEventView>::empty().push(HostEventView::Terminal(p)) =~= seq![HostEventView::Terminal(p)]);
            }
        }
        Ok(host_events(stream))
    }
}

/// The payload of an input frame decodes to its record.
proof fn lemma_input_payload_events(channel: u8, payload: Seq<u8>)
    requires
        spec_decode_envelope(spec_encode_envelope(input_envelope(channel, payload)))
            == Ok::<EnvelopeView, crate::wire::DecodeError>(input_envelope(channel, payload)),
    ensures
        payload_events(spec_encode_envelope(input_envelope(channel, payload)))
            == seq![HostEventView::Record(input_envelope(channel, payload))],
{
    let env = input_envelope(channel, payload);
    assert(env.payload_type != MANIFEST_PAYLOAD_TYPE@ && env.payload_type != BATCH_PAYLOAD_TYPE@) by {
        reveal_strlit("wiremux.v1.DeviceManifest");
        reveal_strlit("wiremux.v1.MuxBatch");
    }
}

/// A frame built for channel input, fed to a fresh session, comes back as
/// exactly one record: the envelope that carried the input.
pub proof fn lemma_session_input_round_trip(channel: u8, payload: Seq<u8>, max_payload_len: usize)
    requires
        spec_encode_envelope(input_envelope(channel, payload)).len() <= max_payload_len,
        spec_encode_envelope(input_envelope(channel, payload)).len() <= u32::MAX,
    ensures
        ({
            let encoded = spec_encode_envelope(input_envelope(channel, payload));
            let (found, rest) = spec_scan(Seq::<u8>::empty() + spec_frame_bytes(0, encoded), max_payload_len);
            &&& rest == Seq::<u8>::empty()
            &&& stream_events(merge_terminals(found)) == seq![HostEventView::Record(input_envelope(channel, payload))]
        }),
{
    let encoded = spec_encode_envelope(input_envelope(channel, payload));
    lemma_input_frame_round_trip(channel, payload, max_payload_len);
    assert(Seq::<u8>::empty() + spec_frame_bytes(0, encoded) =~= spec_frame_bytes(0, encoded));
    let ev = EventView::Frame { version: crate::frame::SUPPORTED_VERSION, flags: 0, payload: encoded };
    crate::frame::lemma_merge_single(ev);
    let one = seq![ev];
    assert(one.drop_last() =~= Seq::<EventView>::empty());
    assert(stream_events(Seq::<EventView>::empty()) == Seq::<HostEventView>::empty());
    assert(stream_events(one) == Seq::<HostEventView>::empty() + payload_events(encoded));
    lemma_input_payload_events(channel, payload);
    let env = input_envelope(channel, payload);
    assert(Seq::<HostEventView>::empty() + seq![HostEventView::Record(env)] =~= seq![HostEventView::Record(env)]);
}

} // verus!
