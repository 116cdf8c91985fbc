//! The device manifest: what the device says about itself and its channels.
use vstd::prelude::*;
use vstd::utf8::{decode_utf8, valid_utf8};
use crate::wire;
use crate::wire::{read_field, DecodeError, Field, FieldValue};
use crate::text::string_from_utf8;

verus! {

pub const MANIFEST_PAYLOAD_TYPE: &'static str = "wiremux.v1.DeviceManifest";
pub const MANIFEST_REQUEST_PAYLOAD_TYPE: &'static str = "wiremux.v1.DeviceManifestRequest";

pub const INTERACTION_MODE_UNSPECIFIED: u32 = 0;
pub const INTERACTION_MODE_LINE: u32 = 1;
pub const INTERACTION_MODE_PASSTHROUGH: u32 = 2;
/// The passthrough interaction mode, as the host names it.
pub const CHANNEL_INTERACTION_PASSTHROUGH: u32 = 2;

pub const NEWLINE_POLICY_UNSPECIFIED: u32 = 0;
pub const NEWLINE_POLICY_LF: u32 = 1;
pub const NEWLINE_POLICY_CR: u32 = 2;
pub const NEWLINE_POLICY_CRLF: u32 = 3;

/// How keyboard input to a passthrough channel is translated.
#[derive(Debug, Clone, Copy, Default, PartialEq, Eq)]
pub struct PassthroughPolicy {
    pub input_newline_policy: u32,
}

impl PassthroughPolicy {
    /// The policy that leaves everything unspecified.
    pub fn unspecified() -> (r: Self)
        ensures
            r.input_newline_policy == NEWLINE_POLICY_UNSPECIFIED,
    {
        PassthroughPolicy { input_newline_policy: NEWLINE_POLICY_UNSPECIFIED }
    }
}

/// One channel as the device describes it.
#[derive(Debug, Clone, PartialEq, Eq)]
pub struct ChannelDescriptor {
    pub channel_id: u32,
    pub name: String,
    pub description: String,
    pub directions: Vec<u32>,
    pub payload_kinds: Vec<u32>,
    pub payload_types: Vec<String>,
    pub flags: u32,
    pub default_payload_kind: u32,
    pub interaction_modes: Vec<u32>,
    pub default_interaction_mode: u32,
    pub passthrough_policy: PassthroughPolicy,
}

/// The device and its channels.
#[derive(Debug, Clone, PartialEq, Eq)]
pub struct DeviceManifest {
    pub device_name: String,
    pub firmware_version: String,
    pub protocol_version: u32,
    pub max_channels: u32,
    pub channels: Vec<ChannelDescriptor>,
    pub native_endianness: u32,
    pub max_payload_len: u32,
    pub transport: String,
    pub feature_flags: u32,
    pub sdk_name: String,
    pub sdk_version: String,
}

/// The mathematical content of a channel descriptor.
#[verifier::ext_equal]
pub struct ChannelView {
    pub channel_id: u32,
    pub name: Seq<char>,
    pub description: Seq<char>,
    pub directions: Seq<u32>,
    pub payload_kinds: Seq<u32>,
    pub payload_types: Seq<Seq<char>>,
    pub flags: u32,
    pub default_payload_kind: u32,
    pub interaction_modes: Seq<u32>,
    pub default_interaction_mode: u32,
    pub input_newline_policy: u32,
}

/// The mathematical content of a manifest.
#[verifier::ext_equal]
pub struct ManifestView {
    pub device_name: Seq<char>,
    pub firmware_version: Seq<char>,
    pub protocol_version: u32,
    pub max_channels: u32,
    pub channels: Seq<ChannelView>,
    pub native_endianness: u32,
    pub max_payload_len: u32,
    pub transport: Seq<char>,
    pub feature_flags: u32,
    pub sdk_name: Seq<char>,
    pub sdk_version: Seq<char>,
}

/// The characters of each string.
pub open spec fn strings_view(s: Seq<String>) -> Seq<Seq<char>> {
    s.map_values(|x: String| x@)
}

impl View for ChannelDescriptor {
    type V = ChannelView;

    open spec fn view(&self) -> ChannelView {
        ChannelView {
            channel_id: self.channel_id,
            name: self.name@,
            description: self.description@,
            directions: self.directions@,
            payload_kinds: self.payload_kinds@,
            payload_types: strings_view(self.payload_types@),
            flags: self.flags,
            default_payload_kind: self.default_payload_kind,
            interaction_modes: self.interaction_modes@,
            default_interaction_mode: self.default_interaction_mode,
            input_newline_policy: self.passthrough_policy.input_newline_policy,
        }
    }
}

/// The views of a list of channels.
pub open spec fn channels_view(s: Seq<ChannelDescriptor>) -> Seq<ChannelView> {
    s.map_values(|c: ChannelDescriptor| c@)
}

impl View for DeviceManifest {
    type V = ManifestView;

    open spec fn view(&self) -> ManifestView {
        ManifestView {
            device_name: self.device_name@,
            firmware_version: self.firmware_version@,
            protocol_version: self.protocol_version,
            max_channels: self.max_channels,
            channels: channels_view(self.channels@),
            native_endianness: self.native_endianness,
            max_payload_len: self.max_payload_len,
            transport: self.transport@,
            feature_flags: self.feature_flags,
            sdk_name: self.sdk_name@,
            sdk_version: self.sdk_version@,
        }
    }
}

/// A string field: the decoded text, or `InvalidUtf8`.
pub open spec fn text_of(b: Seq<u8>) -> Result<Seq<char>, DecodeError> {
    if valid_utf8(b) {
        Ok(decode_utf8(b))
    } else {
        Err(DecodeError::InvalidUtf8)
    }
}

/// Applying one field of a channel descriptor. Repeated fields 4, 5, 6 and
/// 9 append; the others overwrite; unknown fields are skipped.
pub open spec fn apply_channel_field(c: ChannelView, key: u64, value: FieldValue) -> Result<ChannelView, DecodeError> {
    let n = key >> 3;
    match value {
        FieldValue::Varint(v) => Ok(
            if n == 1 {
                ChannelView { channel_id: v as u32, ..c }
            } else if n == 4 {
                ChannelView { directions: c.directions.push(v as u32), ..c }
            } else if n == 5 {
                ChannelView { payload_kinds: c.payload_kinds.push(v as u32), ..c }
            } else if n == 7 {
                ChannelView { flags: v as u32, ..c }
            } else if n == 8 {
                ChannelView { default_payload_kind: v as u32, ..c }
            } else if n == 9 {
                ChannelView { interaction_modes: c.interaction_modes.push(v as u32), ..c }
            } else if n == 10 {
                ChannelView { default_interaction_mode: v as u32, ..c }
            } else {
                c
            },
        ),
        FieldValue::Bytes(b) => if n == 2 {
            match text_of(b) {
                Ok(t) => Ok(ChannelView { name: t, ..c }),
                Err(e) => Err(e),
            }
        } else if n == 3 {
            match text_of(b) {
                Ok(t) => Ok(ChannelView { description: t, ..c }),
                Err(e) => Err(e),
            }
        } else if n == 6 {
            match text_of(b) {
                Ok(t) => Ok(ChannelView { payload_types: c.payload_types.push(t), ..c }),
                Err(e) => Err(e),
            }
        } else {
            Ok(c)
        },
    }
}

/// [`apply_channel_field`] as a function value.
pub open spec fn channel_fields() -> spec_fn(ChannelView, u64, FieldValue) -> Result<ChannelView, DecodeError> {
    |c: ChannelView, k: u64, v: FieldValue| apply_channel_field(c, k, v)
}

/// The descriptor every channel decode starts from.
pub open spec fn empty_channel() -> ChannelView {
    ChannelView {
        channel_id: 0,
        name: Seq::empty(),
        description: Seq::empty(),
        directions: Seq::empty(),
        payload_kinds: Seq::empty(),
        payload_types: Seq::empty(),
        flags: 0,
        default_payload_kind: 0,
        interaction_modes: Seq::empty(),
        default_interaction_mode: INTERACTION_MODE_UNSPECIFIED,
        input_newline_policy: NEWLINE_POLICY_UNSPECIFIED,
    }
}

/// The channel decoded from `bytes`.
pub open spec fn spec_decode_channel(bytes: Seq<u8>) -> Result<ChannelView, DecodeError> {
    wire::decode_fields(bytes, 0, empty_channel(), channel_fields())
}

/// The bytes of one varint field per value, in order, as
/// `wire::write_varint_field` writes them.
pub open spec fn repeated_varint_fields(field: u64, values: Seq<u32>) -> Seq<u8>
    decreases values.len(),
{
    if values.len() == 0 {
        Seq::empty()
    } else {
        wire::varint_field_bytes(field, values[0] as u64) + repeated_varint_fields(field, values.drop_first())
    }
}

/// Decoding over written direction (4) or payload-kind (5) fields appends
/// their values, in order, to that list of the channel.
proof fn lemma_decode_repeated(bytes: Seq<u8>, pos: int, c: ChannelView, field: u64, values: Seq<u32>)
    requires
        field == 4 || field == 5,
        0 <= pos,
        pos + repeated_varint_fields(field, values).len() <= bytes.len(),
        bytes.subrange(pos, pos + repeated_varint_fields(field, values).len()) == repeated_varint_fields(field, values),
    ensures
        wire::decode_fields(bytes, pos, c, channel_fields()) == wire::decode_fields(
            bytes,
            pos + repeated_varint_fields(field, values).len(),
            if field == 4 {
                ChannelView { directions: c.directions + values, ..c }
            } else {
                ChannelView { payload_kinds: c.payload_kinds + values, ..c }
            },
            channel_fields(),
        ),
    decreases values.len(),
{
    let rep = repeated_varint_fields(field, values);
    if values.len() == 0 {
        assert(c.directions + values =~= c.directions);
        assert(c.payload_kinds + values =~= c.payload_kinds);
        assert(ChannelView { directions: c.directions + values, ..c } =~= c);
        assert(ChannelView { payload_kinds: c.payload_kinds + values, ..c } =~= c);
    } else {
        let v = values[0] as u64;
        let f0 = wire::varint_field_bytes(field, v);
        let rest = repeated_varint_fields(field, values.drop_first());
        assert(rep == f0 + rest);
        assert(bytes.subrange(pos, pos + f0.len()) =~= f0) by {
            assert forall|i: int| 0 <= i < f0.len() implies bytes.subrange(pos, pos + f0.len())[i] == f0[i] by {
                assert(bytes.subrange(pos, pos + rep.len())[i] == rep[i]);
            }
        }
        assert(bytes.subrange(pos + f0.len(), pos + f0.len() + rest.len()) =~= rest) by {
            assert forall|i: int| 0 <= i < rest.len() implies bytes.subrange(pos + f0.len(), pos + f0.len() + rest.len())[i] == rest[i] by {
                assert(bytes.subrange(pos, pos + rep.len())[f0.len() + i] == rep[f0.len() + i]);
            }
        }
        wire::lemma_decode_varint_field(bytes, pos, c, channel_fields(), field, v);
        assert((v as u32) == values[0]);
        let c2 = if field == 4 {
            ChannelView { directions: c.directions.push(values[0]), ..c }
        } else {
            ChannelView { payload_kinds: c.payload_kinds.push(values[0]), ..c }
        };
        assert(apply_channel_field(c, wire::field_key(field, wire::WIRE_VARINT), FieldValue::Varint(v)) == Ok::<ChannelView, DecodeError>(c2));
        lemma_decode_repeated(bytes, pos + f0.len(), c2, field, values.drop_first());
        assert(c.directions.push(values[0]) + values.drop_first() =~= c.directions + values);
        assert(c.payload_kinds.push(values[0]) + values.drop_first() =~= c.payload_kinds + values);
    }
}

/// Directions and payload kinds decode as written: a channel descriptor
/// made of one field 4 per direction and then one field 5 per payload
/// kind decodes to exactly those directions and those payload kinds, in
/// order, everything else as in an empty descriptor.
pub proof fn lemma_channel_directions_and_kinds(directions: Seq<u32>, kinds: Seq<u32>)
    ensures
        spec_decode_channel(repeated_varint_fields(4, directions) + repeated_varint_fields(5, kinds))
            == Ok::<ChannelView, DecodeError>(ChannelView { directions, payload_kinds: kinds, ..empty_channel() }),
{
    let d = repeated_varint_fields(4, directions);
    let k = repeated_varint_fields(5, kinds);
    let bytes = d + k;
    assert(bytes.subrange(0, d.len() as int) =~= d);
    lemma_decode_repeated(bytes, 0, empty_channel(), 4, directions);
    let c1 = ChannelView { directions: empty_channel().directions + directions, ..empty_channel() };
    assert(bytes.subrange(d.len() as int, (d.len() + k.len()) as int) =~= k);
    lemma_decode_repeated(bytes, d.len() as int, c1, 5, kinds);
    assert(Seq::<u32>::empty() + directions =~= directions);
    assert(Seq::<u32>::empty() + kinds =~= kinds);
    assert(ChannelView { payload_kinds: c1.payload_kinds + kinds, ..c1 }
        =~= ChannelView { directions, payload_kinds: kinds, ..empty_channel() });
}

/// Applying one field of a manifest. Field 5 appends a channel; the others
/// overwrite; unknown fields are skipped.
pub open spec fn apply_manifest_field(m: ManifestView, key: u64, value: FieldValue) -> Result<ManifestView, DecodeError> {
    let n = key >> 3;
    match value {
        FieldValue::Varint(v) => Ok(
            if n == 3 {
                ManifestView { protocol_version: v as u32, ..m }
            } else if n == 4 {
                ManifestView { max_channels: v as u32, ..m }
            } else if n == 6 {
                ManifestView { native_endianness: v as u32, ..m }
            } else if n == 7 {
                ManifestView { max_payload_len: v as u32, ..m }
            } else if n == 9 {
                ManifestView { feature_flags: v as u32, ..m }
            } else {
                m
            },
        ),
        FieldValue::Bytes(b) => if n == 5 {
            match spec_decode_channel(b) {
                Ok(c) => Ok(ManifestView { channels: m.channels.push(c), ..m }),
                Err(e) => Err(e),
            }
        } else if n == 1 || n == 2 || n == 8 || n == 10 || n == 11 {
            match text_of(b) {
                Ok(t) => Ok(
                    if n == 1 {
                        ManifestView { device_name: t, ..m }
                    } else if n == 2 {
                        ManifestView { firmware_version: t, ..m }
                    } else if n == 8 {
                        ManifestView { transport: t, ..m }
                    } else if n == 10 {
                        ManifestView { sdk_name: t, ..m }
                    } else {
                        ManifestView { sdk_version: t, ..m }
                    },
                ),
                Err(e) => Err(e),
            }
        } else {
            Ok(m)
        },
    }
}

/// [`apply_manifest_field`] as a function value.
pub open spec fn manifest_fields() -> spec_fn(ManifestView, u64, FieldValue) -> Result<ManifestView, DecodeError> {
    |m: ManifestView, k: u64, v: FieldValue| apply_manifest_field(m, k, v)
}

/// The manifest every decode starts from.
pub open spec fn empty_manifest() -> ManifestView {
    ManifestView {
        device_name: Seq::empty(),
        firmware_version: Seq::empty(),
        protocol_version: 0,
        max_channels: 0,
        channels: Seq::empty(),
        native_endianness: 0,
        max_payload_len: 0,
        transport: Seq::empty(),
        feature_flags: 0,
        sdk_name: Seq::empty(),
        sdk_version: Seq::empty(),
    }
}

/// The manifest decoded from `bytes`.
pub open spec fn spec_decode_manifest(bytes: Seq<u8>) -> Result<ManifestView, DecodeError> {
    wire::decode_fields(bytes, 0, empty_manifest(), manifest_fields())
}

/// A manifest request carries no fields.
pub fn encode_manifest_request() -> (r: Vec<u8>)
    ensures
        r@ == Seq::<u8>::empty(),
{
    Vec::new()
}

/// Decodes a UTF-8 string field.
fn read_text(b: Vec<u8>) -> (r: Result<String, DecodeError>)
    ensures
        match text_of(b@) {
            Ok(t) => r is Ok && r->Ok_0@ == t,
            Err(e) => r == Err::<String, DecodeError>(e),
        },
{
    match string_from_utf8(b) {
        Some(s) => Ok(s),
        None => Err(DecodeError::InvalidUtf8),
    }
}

/// Decodes a channel descriptor.
pub fn decode_channel(bytes: &[u8]) -> (r: Result<ChannelDescriptor, DecodeError>)
    ensures
        match spec_decode_channel(bytes@) {
            Ok(c) => r is Ok && r->Ok_0@ == c,
            Err(err) => r == Err::<ChannelDescriptor, DecodeError>(err),
        },
{
    let ghost apply = channel_fields();
    let mut cursor: usize = 0;
    let mut channel = ChannelDescriptor {
        channel_id: 0,
        name: String::new(),
        description: String::new(),
        directions: Vec::new(),
        payload_kinds: Vec::new(),
        payload_types: Vec::new(),
        flags: 0,
        default_payload_kind: 0,
        interaction_modes: Vec::new(),
        default_interaction_mode: INTERACTION_MODE_UNSPECIFIED,
        passthrough_policy: PassthroughPolicy::unspecified(),
    };
    assert(channel@ =~= empty_channel());
    while cursor < bytes.len()
        invariant
            cursor <= bytes@.len(),
            apply == channel_fields(),
            wire::decode_fields(bytes@, cursor as int, channel@, apply) == spec_decode_channel(bytes@),
        decreases bytes@.len() - cursor,
    {
        let ghost before = channel@;
        proof {
            wire::lemma_read_field_advances(bytes@, cursor as int);
        }
        let (key, field) = read_field(bytes, &mut cursor)?;
        let ghost fv = field.view();
        let n = key >> 3u64;
        match field {
            Field::Varint(v) => {
                if n == 1 {
                    channel.channel_id = v as u32;
                } else if n == 4 {
                    channel.directions.push(v as u32);
                } else if n == 5 {
                    channel.payload_kinds.push(v as u32);
                } else if n == 7 {
                    channel.flags = v as u32;
                } else if n == 8 {
                    channel.default_payload_kind = v as u32;
                } else if n == 9 {
                    channel.interaction_modes.push(v as u32);
                } else if n == 10 {
                    channel.default_interaction_mode = v as u32;
                }
            },
            Field::Bytes(b) => {
                if n == 2 {
                    channel.name = read_text(b)?;
                } else if n == 3 {
                    channel.description = read_text(b)?;
                } else if n == 6 {
                    let t = read_text(b)?;
                    let ghost old_types = channel.payload_types@;
                    channel.payload_types.push(t);
                    proof {
                        assert(strings_view(channel.payload_types@) =~= strings_view(old_types).push(t@));
                    }
                }
            },
        }
        assert(apply(before, key, fv) == Ok::<ChannelView, DecodeError>(channel@));
    }
    Ok(channel)
}

/// Decodes a device manifest.
pub fn decode_manifest(bytes: &[u8]) -> (r: Result<DeviceManifest, DecodeError>)
    ensures
        match spec_decode_manifest(bytes@) {
            Ok(m) => r is Ok && r->Ok_0@ == m,
            Err(err) => r == Err::<DeviceManifest, DecodeError>(err),
        },
{
    let ghost apply = manifest_fields();
    let mut cursor: usize = 0;
    let mut manifest = DeviceManifest {
        device_name: String::new(),
        firmware_version: String::new(),
        protocol_version: 0,
        max_channels: 0,
        channels: Vec::new(),
        native_endianness: 0,
        max_payload_len: 0,
        transport: String::new(),
        feature_flags: 0,
        sdk_name: String::new(),
        sdk_version: String::new(),
    };
    assert(manifest@ =~= empty_manifest());
    while cursor < bytes.len()
        invariant
            cursor <= bytes@.len(),
            apply == manifest_fields(),
            wire::decode_fields(bytes@, cursor as int, manifest@, apply) == spec_decode_manifest(bytes@),
        decreases bytes@.len() - cursor,
    {
        let ghost before = manifest@;
        proof {
            wire::lemma_read_field_advances(bytes@, cursor as int);
        }
        let (key, field) = read_field(bytes, &mut cursor)?;
        let ghost fv = field.view();
        let n = key >> 3u64;
        match field {
            Field::Varint(v) => {
                if n == 3 {
                    manifest.protocol_version = v as u32;
                } else if n == 4 {
                    manifest.max_channels = v as u32;
                } else if n == 6 {
                    manifest.native_endianness = v as u32;
                } else if n == 7 {
                    manifest.max_payload_len = v as u32;
                } else if n == 9 {
                    manifest.feature_flags = v as u32;
                }
            },
            Field::Bytes(b) => {
                if n == 5 {
                    let channel = decode_channel(b.as_slice())?;
                    let ghost old_channels = manifest.channels@;
                    manifest.channels.push(channel);
                    proof {
                        assert(channels_view(manifest.channels@) =~= channels_view(old_channels).push(channel@));
                    }
                } else if n == 1 {
                    manifest.device_name = read_text(b)?;
                } else if n == 2 {
                    manifest.firmware_version = read_text(b)?;
                } else if n == 8 {
                    manifest.transport = read_text(b)?;
                } else if n == 10 {
                    manifest.sdk_name = read_text(b)?;
                } else if n == 11 {
                    manifest.sdk_version = read_text(b)?;
                }
            },
        }
        assert(apply(before, key, fv) == Ok::<ManifestView, DecodeError>(manifest@));
    }
    Ok(manifest)
}

} // verus!
