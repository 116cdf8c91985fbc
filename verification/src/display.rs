//! What the listening and passthrough commands print: records with channel
//! prefixes and line bookkeeping, marker lines, and diagnostics lines for
//! every host event. Output is gathered in buffers that the program
//! writes out.
use vstd::prelude::*;
use vstd::utf8::*;
use crate::envelope::MuxEnvelope;
use crate::host_session::{
    decode_error_marker, decode_stage_name, display_channel_name, printable_payload,
    push_decimal_str, write_envelope_diagnostics, channel_supports_passthrough, BatchSummary,
    HostCrcError, HostEvent, ProtocolCompatibility, ProtocolCompatibilityKind,
};
use crate::manifest::DeviceManifest;
use crate::text::{push_chars, push_hex_padded, push_str, str_bytes, str_chars, string_from_chars};
use crate::wire::extend_bytes;

verus! {

/// Whether a chunk of output ends its line.
pub open spec fn ends_line(bytes: Seq<u8>) -> bool {
    bytes.len() > 0 && (bytes.last() == 10 || bytes.last() == 13)
}

/// The line state after writing `bytes` for `channel`.
pub open spec fn line_state_after(bytes: Seq<u8>, channel: Option<u32>, open: bool, line_channel: Option<u32>) -> (bool, Option<u32>) {
    if bytes.len() == 0 {
        (open, line_channel)
    } else if ends_line(bytes) {
        (false, None)
    } else {
        (true, channel)
    }
}

/// The name last recorded for a channel.
pub open spec fn name_of(names: Seq<(u32, String)>, channel_id: u32) -> Option<Seq<char>>
    decreases names.len(),
{
    if names.len() == 0 {
        None
    } else if names.last().0 == channel_id {
        Some(names.last().1@)
    } else {
        name_of(names.drop_last(), channel_id)
    }
}

/// The prefix of a record line: `ch<id>`, with the channel label in
/// parentheses when there is one.
pub open spec fn channel_prefix_text(channel_id: u32, name: Option<Seq<char>>) -> Seq<char> {
    "ch"@ + crate::text::decimal_chars(channel_id as nat) + match name {
        Some(n) => "("@ + n + ")"@,
        None => Seq::empty(),
    }
}

/// What is written before a record of `channel_id` to close a line that
/// another channel left open.
pub open spec fn switch_text(open: bool, line_channel: Option<u32>, channel_id: u32) -> Seq<char> {
    if !open || line_channel == Some(channel_id) {
        Seq::empty()
    } else {
        match line_channel {
            Some(previous) => "\n"@ + "wiremux> continued after partial ch"@ + crate::text::decimal_chars(previous as nat) + " line\n"@,
            None => "\n"@,
        }
    }
}

/// Every record's prefix starts a line: when the line is open and was
/// left by terminal bytes or by another channel, what is written before
/// the prefix starts and ends with a line break (for terminal bytes, it is
/// that line break alone); only a line the same channel left open, or no
/// open line, goes straight on.
pub proof fn lemma_record_starts_line(open: bool, line_channel: Option<u32>, channel_id: u32)
    ensures
        open && line_channel != Some(channel_id) ==> ({
            let t = switch_text(open, line_channel, channel_id);
            t.len() > 0 && t[0] == '\n' && t.last() == '\n'
        }),
        open && line_channel is None ==> switch_text(open, line_channel, channel_id) == "\n"@,
        !open || line_channel == Some(channel_id) ==> switch_text(open, line_channel, channel_id).len() == 0,
{
    reveal_strlit("\n");
    reveal_strlit("wiremux> continued after partial ch");
    reveal_strlit(" line\n");
    if open && line_channel != Some(channel_id) {
        if let Some(p) = line_channel {
            let t = "\n"@ + "wiremux> continued after partial ch"@ + crate::text::decimal_chars(p as nat) + " line\n"@;
            assert(t[0] == '\n');
            assert(t.last() == " line\n"@.last());
        }
    }
}

/// Terminal bytes that leave their line unfinished are closed by a line
/// break before the next record, whatever its channel and whatever the
/// line state was before them.
pub proof fn lemma_terminal_then_record(bytes: Seq<u8>, open: bool, line_channel: Option<u32>, channel_id: u32)
    requires
        bytes.len() > 0,
        bytes.last() != 10u8,
        bytes.last() != 13u8,
    ensures
        ({
            let (o, c) = line_state_after(bytes, None, open, line_channel);
            switch_text(o, c, channel_id) == "\n"@
        }),
{
    lemma_record_starts_line(true, None, channel_id);
}

/// Output for a terminal, with the state of the line it is writing.
pub struct DisplayOutput {
    pub out: Vec<u8>,
    pub channel_filter: Option<u32>,
    line_open: bool,
    line_channel: Option<u32>,
    channel_names: Vec<(u32, String)>,
}

impl DisplayOutput {
    /// The output gathered so far.
    pub closed spec fn output(&self) -> Seq<u8> {
        self.out@
    }

    /// The channel that the display is limited to, if any.
    pub closed spec fn filter(&self) -> Option<u32> {
        self.channel_filter
    }

    pub closed spec fn line_open_spec(&self) -> bool {
        self.line_open
    }

    pub closed spec fn line_channel_spec(&self) -> Option<u32> {
        self.line_channel
    }

    /// The label shown for a channel.
    pub closed spec fn name_spec(&self, channel_id: u32) -> Option<Seq<char>> {
        name_of(self.channel_names@, channel_id)
    }

    /// Whether the two displays hold the same channel labels.
    pub open spec fn same_names(&self, other: &DisplayOutput) -> bool {
        forall|c: u32| #[trigger] self.name_spec(c) == other.name_spec(c)
    }

    pub fn new(out: Vec<u8>, channel_filter: Option<u32>) -> (r: Self)
        ensures
            r.output() == out@,
            r.filter() == channel_filter,
            !r.line_open_spec(),
            r.line_channel_spec() is None,
            forall|c: u32| #[trigger] r.name_spec(c) is None,
    {
        DisplayOutput { out, channel_filter, line_open: false, line_channel: None, channel_names: Vec::new() }
    }

    fn update_line_state(&mut self, bytes: &[u8], channel: Option<u32>)
        ensures
            (final(self).line_open, final(self).line_channel) == line_state_after(bytes@, channel, old(self).line_open, old(self).line_channel),
            final(self).output() == old(self).output(),
            final(self).filter() == old(self).filter(),
            final(self).channel_names == old(self).channel_names,
    {
        if bytes.len() == 0 {
            return;
        }
        let last = bytes[bytes.len() - 1];
        if last == 10 || last == 13 {
            self.line_open = false;
            self.line_channel = None;
        } else {
            self.line_open = true;
            self.line_channel = channel;
        }
    }

    /// Writes bytes that came outside any record; nothing while filtering
    /// by channel.
    pub fn write_terminal(&mut self, bytes: &[u8])
        ensures
            final(self).filter() == old(self).filter(),
            final(self).same_names(&*old(self)),
            old(self).filter() is Some ==> final(self).output() == old(self).output()
                && final(self).line_open_spec() == old(self).line_open_spec()
                && final(self).line_channel_spec() == old(self).line_channel_spec(),
            old(self).filter() is None ==> final(self).output() == old(self).output() + bytes@
                && (final(self).line_open_spec(), final(self).line_channel_spec())
                    == line_state_after(bytes@, None, old(self).line_open_spec(), old(self).line_channel_spec()),
    {
        if self.channel_filter.is_some() {
            return;
        }
        extend_bytes(&mut self.out, bytes);
        self.update_line_state(bytes, None);
    }

    fn channel_name(&self, channel_id: u32) -> (r: Option<&String>)
        ensures
            match name_of(self.channel_names@, channel_id) {
                Some(n) => r matches Some(s) && s@ == n,
                None => r is None,
            },
    {
        let mut i = self.channel_names.len();
        assert(self.channel_names@.subrange(0, i as int) =~= self.channel_names@);
        while i > 0
            invariant
                i <= self.channel_names@.len(),
                name_of(self.channel_names@, channel_id) == name_of(self.channel_names@.subrange(0, i as int), channel_id),
            decreases i,
        {
            assert(self.channel_names@.subrange(0, i as int).drop_last() =~= self.channel_names@.subrange(0, i as int - 1));
            if self.channel_names[i - 1].0 == channel_id {
                return Some(&self.channel_names[i - 1].1);
            }
            i = i - 1;
        }
        None
    }

    fn channel_prefix(&self, channel_id: u32) -> (r: String)
        ensures
            r@ == channel_prefix_text(channel_id, self.name_spec(channel_id)),
    {
        let mut out = "ch".to_owned();
        push_decimal_str(&mut out, channel_id as u64);
        match self.channel_name(channel_id) {
            Some(name) => {
                push_str(&mut out, "(");
                push_str(&mut out, name.as_str());
                push_str(&mut out, ")");
            },
            None => {},
        }
        out
    }

    fn write_text(&mut self, text: &str)
        ensures
            final(self).output() == old(self).output() + encode_utf8(text@),
            final(self).filter() == old(self).filter(),
            final(self).line_open == old(self).line_open,
            final(self).line_channel == old(self).line_channel,
            final(self).channel_names == old(self).channel_names,
    {
        let bytes = str_bytes(text);
        extend_bytes(&mut self.out, bytes.as_slice());
    }

    fn prepare_unfiltered_record(&mut self, channel_id: u32)
        ensures
            final(self).output() == old(self).output() + encode_utf8(switch_text(old(self).line_open, old(self).line_channel, channel_id)),
            !old(self).line_open || old(self).line_channel == Some(channel_id) ==> final(self).line_open == old(self).line_open
                && final(self).line_channel == old(self).line_channel,
            !(!old(self).line_open || old(self).line_channel == Some(channel_id)) ==> !final(self).line_open
                && final(self).line_channel is None,
            final(self).filter() == old(self).filter(),
            final(self).channel_names == old(self).channel_names,
    {
        if !self.line_open || self.line_channel == Some(channel_id) {
            assert(encode_utf8(Seq::<char>::empty()) =~= Seq::<u8>::empty());
            assert(self.out@ =~= old(self).output() + encode_utf8(Seq::<char>::empty()));
            return;
        }
        let mut text = "\n".to_owned();
        match self.line_channel {
            Some(previous) => {
                push_str(&mut text, "wiremux> continued after partial ch");
                push_decimal_str(&mut text, previous as u64);
                push_str(&mut text, " line\n");
            },
            None => {},
        }
        self.write_text(text.as_str());
        self.line_open = false;
        self.line_channel = None;
    }

    /// Writes a record: raw while filtering by its channel (and nothing
    /// for other channels), else on a line of its own with the channel's
    /// prefix.
    pub fn write_record(&mut self, envelope: &MuxEnvelope)
        ensures
            final(self).filter() == old(self).filter(),
            final(self).same_names(&*old(self)),
            old(self).filter() matches Some(c) ==> (c != envelope.channel_id ==> final(self).output() == old(self).output())
                && (c == envelope.channel_id ==> final(self).output() == old(self).output() + envelope.payload@)
                && final(self).line_open_spec() == old(self).line_open_spec()
                && final(self).line_channel_spec() == old(self).line_channel_spec(),
            old(self).filter() is None ==> ({
                let id = envelope.channel_id;
                let prefix = channel_prefix_text(id, old(self).name_spec(id)) + "> "@;
                &&& final(self).output() == old(self).output()
                    + encode_utf8(switch_text(old(self).line_open_spec(), old(self).line_channel_spec(), id))
                    + encode_utf8(prefix) + envelope.payload@
                &&& (final(self).line_open_spec(), final(self).line_channel_spec())
                    == line_state_after(envelope.payload@, Some(id), true, Some(id))
            }),
    {
        match self.channel_filter {
            Some(c) => {
                if c != envelope.channel_id {
                    return;
                }
                extend_bytes(&mut self.out, envelope.payload.as_slice());
                return;
            },
            None => {},
        }
        let ghost start = self.out@;
        self.prepare_unfiltered_record(envelope.channel_id);
        let mut prefix = self.channel_prefix(envelope.channel_id);
        push_str(&mut prefix, "> ");
        self.write_text(prefix.as_str());
        self.line_open = true;
        self.line_channel = Some(envelope.channel_id);
        extend_bytes(&mut self.out, envelope.payload.as_slice());
        self.update_line_state(envelope.payload.as_slice(), Some(envelope.channel_id));
        assert(self.out@ =~= start
            + encode_utf8(switch_text(old(self).line_open, old(self).line_channel, envelope.channel_id))
            + encode_utf8(channel_prefix_text(envelope.channel_id, old(self).name_spec(envelope.channel_id)) + "> "@)
            + envelope.payload@);
    }

    /// Takes the channel labels from the manifest.
    pub fn update_manifest(&mut self, manifest: &DeviceManifest)
        ensures
            final(self).output() == old(self).output(),
            final(self).filter() == old(self).filter(),
            final(self).line_open_spec() == old(self).line_open_spec(),
            final(self).line_channel_spec() == old(self).line_channel_spec(),
            forall|c: u32| #[trigger] final(self).name_spec(c) == manifest_label(manifest.channels@, c),
    {
        self.channel_names.clear();
        let mut i: usize = 0;
        while i < manifest.channels.len()
            invariant
                i <= manifest.channels@.len(),
                self.out == old(self).out,
                self.channel_filter == old(self).filter(),
                self.line_open == old(self).line_open,
                self.line_channel == old(self).line_channel,
                forall|c: u32| #[trigger] name_of(self.channel_names@, c) == manifest_label(manifest.channels@.subrange(0, i as int), c),
            decreases manifest.channels@.len() - i,
        {
            let ghost before = self.channel_names@;
            let channel = &manifest.channels[i];
            match display_channel_name(channel.name.as_str()) {
                Some(name) => {
                    self.channel_names.push((channel.channel_id, name));
                },
                None => {},
            }
            let ghost sub = manifest.channels@.subrange(0, i as int + 1);
            assert(sub.drop_last() =~= manifest.channels@.subrange(0, i as int));
            assert(sub.last() == manifest.channels@[i as int]);
            assert forall|c: u32| #[trigger] name_of(self.channel_names@, c) == manifest_label(sub, c) by {
                if self.channel_names@.len() > before.len() {
                    assert(self.channel_names@.drop_last() =~= before);
                    assert(name_of(before, c) == manifest_label(manifest.channels@.subrange(0, i as int), c));
                } else {
                    assert(name_of(before, c) == manifest_label(manifest.channels@.subrange(0, i as int), c));
                }
            }
            i = i + 1;
        }
        assert(manifest.channels@.subrange(0, i as int) =~= manifest.channels@);
    }

    /// Writes a line of the host's own, closing an open line first.
    pub fn write_marker_line(&mut self, message: &str)
        ensures
            final(self).output() == old(self).output() + (if old(self).line_open_spec() { seq![10u8] } else { Seq::empty() })
                + encode_utf8("wiremux> "@ + message@ + "\n"@),
            !final(self).line_open_spec(),
            final(self).line_channel_spec() is None,
            final(self).filter() == old(self).filter(),
            final(self).same_names(&*old(self)),
    {
        if self.line_open {
            self.out.push(10);
        }
        let mut text = "wiremux> ".to_owned();
        push_str(&mut text, message);
        push_str(&mut text, "\n");
        self.write_text(text.as_str());
        self.line_open = false;
        self.line_channel = None;
    }

    /// Hands over the output gathered so far.
    pub fn flush(&mut self) -> (r: Vec<u8>)
        ensures
            r@ == old(self).output(),
            final(self).output().len() == 0,
            final(self).filter() == old(self).filter(),
            final(self).line_open_spec() == old(self).line_open_spec(),
            final(self).line_channel_spec() == old(self).line_channel_spec(),
            final(self).same_names(&*old(self)),
    {
        let mut taken: Vec<u8> = Vec::new();
        std::mem::swap(&mut taken, &mut self.out);
        taken
    }
}

/// The label of the last channel with the id that has one.
pub open spec fn manifest_label(channels: Seq<crate::manifest::ChannelDescriptor>, channel_id: u32) -> Option<Seq<char>>
    decreases channels.len(),
{
    if channels.len() == 0 {
        None
    } else if channels.last().channel_id == channel_id && crate::host_session::channel_label(channels.last().name@).len() > 0 {
        Some(crate::host_session::channel_label(channels.last().name@))
    } else {
        manifest_label(channels.drop_last(), channel_id)
    }
}

/// After a manifest, records are labelled by that manifest alone (the
/// names of any earlier one are gone, see `update_manifest`): a channel
/// the manifest lists, whose last listing leaves a label after cutting,
/// is shown as `ch<id>(<label>)`.
pub proof fn lemma_manifest_label_found(channels: Seq<crate::manifest::ChannelDescriptor>, id: u32, k: int)
    requires
        0 <= k < channels.len(),
        channels[k].channel_id == id,
        crate::host_session::channel_label(channels[k].name@).len() > 0,
        forall|j: int| k < j < channels.len() ==> #[trigger] channels[j].channel_id != id,
    ensures
        channel_prefix_text(id, manifest_label(channels, id))
            == "ch"@ + crate::text::decimal_chars(id as nat) + "("@ + crate::host_session::channel_label(channels[k].name@) + ")"@,
    decreases channels.len(),
{
    if k < channels.len() - 1 {
        assert(channels.last().channel_id != id);
        assert(channels.drop_last()[k] == channels[k]);
        assert forall|j: int| k < j < channels.drop_last().len() implies #[trigger] channels.drop_last()[j].channel_id != id by {
            assert(channels.drop_last()[j] == channels[j]);
        }
        lemma_manifest_label_found(channels.drop_last(), id, k);
    }
    let label = crate::host_session::channel_label(channels[k].name@);
    assert("ch"@ + crate::text::decimal_chars(id as nat) + ("("@ + label + ")"@)
        =~= "ch"@ + crate::text::decimal_chars(id as nat) + "("@ + label + ")"@);
}

/// After a manifest, a channel that it does not list, or whose listings
/// leave no label after cutting, is shown as plain `ch<id>`.
pub proof fn lemma_manifest_label_none(channels: Seq<crate::manifest::ChannelDescriptor>, id: u32)
    requires
        forall|j: int| 0 <= j < channels.len() && #[trigger] channels[j].channel_id == id
            ==> crate::host_session::channel_label(channels[j].name@).len() == 0,
    ensures
        manifest_label(channels, id) is None,
        channel_prefix_text(id, manifest_label(channels, id)) == "ch"@ + crate::text::decimal_chars(id as nat),
    decreases channels.len(),
{
    if channels.len() > 0 {
        assert(channels[channels.len() - 1] == channels.last());
        assert forall|j: int| 0 <= j < channels.drop_last().len() && #[trigger] channels.drop_last()[j].channel_id == id
            implies crate::host_session::channel_label(channels.drop_last()[j].name@).len() == 0 by {
            assert(channels.drop_last()[j] == channels[j]);
        }
        lemma_manifest_label_none(channels.drop_last(), id);
    }
    assert("ch"@ + crate::text::decimal_chars(id as nat) + Seq::<char>::empty() =~= "ch"@ + crate::text::decimal_chars(id as nat));
}

// ---------------------------------------------------------------------
// Events

/// The diagnostics line of a batch.
pub open spec fn batch_line(s: BatchSummary) -> Seq<char> {
    "[wiremux] batch records="@ + crate::text::decimal_chars(s.record_count as nat)
        + " compression="@ + crate::text::decimal_chars(s.compression as nat)
        + " encoded_bytes="@ + crate::text::decimal_chars(s.encoded_bytes as nat)
        + " raw_bytes="@ + crate::text::decimal_chars(s.raw_bytes as nat) + "\n"@
}

/// The diagnostics line of a checksum failure.
pub open spec fn crc_line(e: HostCrcError) -> Seq<char> {
    "[wiremux] crc_error version="@ + crate::text::decimal_chars(e.version as nat)
        + " flags="@ + crate::text::decimal_chars(e.flags as nat)
        + " payload_len="@ + crate::text::decimal_chars(e.payload_len as nat)
        + " expected=0x"@ + crate::text::hex_padded(e.expected_crc as nat, 8)
        + " actual=0x"@ + crate::text::hex_padded(e.actual_crc as nat, 8) + "\n"@
}

/// The diagnostics line of a manifest.
pub open spec fn manifest_line(m: DeviceManifest) -> Seq<char> {
    "[wiremux] manifest received: "@ + crate::text::decimal_chars(m.channels@.len()) + " channels\n"@
}

/// The diagnostics line of a protocol compatibility report.
pub open spec fn compatibility_line(c: ProtocolCompatibility) -> Seq<char> {
    match c.compatibility {
        ProtocolCompatibilityKind::Supported => "[wiremux] protocol_api supported device="@
            + crate::text::decimal_chars(c.device_api_version as nat) + " host_min="@
            + crate::text::decimal_chars(c.host_min_api_version as nat) + " host_current="@
            + crate::text::decimal_chars(c.host_current_api_version as nat) + "\n"@,
        ProtocolCompatibilityKind::UnsupportedNew => "[wiremux] protocol_api unsupported_new device="@
            + crate::text::decimal_chars(c.device_api_version as nat) + " host_current="@
            + crate::text::decimal_chars(c.host_current_api_version as nat) + " action=upgrade_host_sdk\n"@,
        ProtocolCompatibilityKind::UnsupportedOld => "[wiremux] protocol_api unsupported_old device="@
            + crate::text::decimal_chars(c.device_api_version as nat) + " host_min="@
            + crate::text::decimal_chars(c.host_min_api_version as nat) + "\n"@,
        ProtocolCompatibilityKind::Unknown(v) => "[wiremux] protocol_api unknown compatibility="@
            + crate::text::decimal_chars(v as nat) + "\n"@,
    }
}

pub fn push_batch_line(out: &mut String, s: &BatchSummary)
    ensures
        final(out)@ == old(out)@ + batch_line(*s),
{
    let ghost start = out@;
    push_str(out, "[wiremux] batch records=");
    push_decimal_str(out, s.record_count as u64);
    push_str(out, " compression=");
    push_decimal_str(out, s.compression as u64);
    push_str(out, " encoded_bytes=");
    push_decimal_str(out, s.encoded_bytes as u64);
    push_str(out, " raw_bytes=");
    push_decimal_str(out, s.raw_bytes as u64);
    push_str(out, "\n");
    assert(out@ =~= start + batch_line(*s));
}

pub fn push_crc_line(out: &mut String, e: &HostCrcError)
    ensures
        final(out)@ == old(out)@ + crc_line(*e),
{
    let ghost start = out@;
    push_str(out, "[wiremux] crc_error version=");
    push_decimal_str(out, e.version as u64);
    push_str(out, " flags=");
    push_decimal_str(out, e.flags as u64);
    push_str(out, " payload_len=");
    push_decimal_str(out, e.payload_len as u64);
    push_str(out, " expected=0x");
    let mut digits: Vec<char> = Vec::new();
    push_hex_padded(&mut digits, e.expected_crc, 8);
    push_chars(out, &digits);
    push_str(out, " actual=0x");
    let mut digits2: Vec<char> = Vec::new();
    push_hex_padded(&mut digits2, e.actual_crc, 8);
    push_chars(out, &digits2);
    push_str(out, "\n");
    assert(digits@ =~= crate::text::hex_padded(e.expected_crc as nat, 8));
    assert(digits2@ =~= crate::text::hex_padded(e.actual_crc as nat, 8));
    assert(out@ =~= start + crc_line(*e));
}

pub fn push_manifest_line(out: &mut String, m: &DeviceManifest)
    ensures
        final(out)@ == old(out)@ + manifest_line(*m),
{
    let ghost start = out@;
    push_str(out, "[wiremux] manifest received: ");
    push_decimal_str(out, m.channels.len() as u64);
    push_str(out, " channels\n");
    assert(out@ =~= start + manifest_line(*m));
}

pub fn push_compatibility_line(out: &mut String, c: &ProtocolCompatibility)
    ensures
        final(out)@ == old(out)@ + compatibility_line(*c),
{
    let ghost start = out@;
    match c.compatibility {
        ProtocolCompatibilityKind::Supported => {
            push_str(out, "[wiremux] protocol_api supported device=");
            push_decimal_str(out, c.device_api_version as u64);
            push_str(out, " host_min=");
            push_decimal_str(out, c.host_min_api_version as u64);
            push_str(out, " host_current=");
            push_decimal_str(out, c.host_current_api_version as u64);
            push_str(out, "\n");
        },
        ProtocolCompatibilityKind::UnsupportedNew => {
            push_str(out, "[wiremux] protocol_api unsupported_new device=");
            push_decimal_str(out, c.device_api_version as u64);
            push_str(out, " host_current=");
            push_decimal_str(out, c.host_current_api_version as u64);
            push_str(out, " action=upgrade_host_sdk\n");
        },
        ProtocolCompatibilityKind::UnsupportedOld => {
            push_str(out, "[wiremux] protocol_api unsupported_old device=");
            push_decimal_str(out, c.device_api_version as u64);
            push_str(out, " host_min=");
            push_decimal_str(out, c.host_min_api_version as u64);
            push_str(out, "\n");
        },
        ProtocolCompatibilityKind::Unknown(v) => {
            push_str(out, "[wiremux] protocol_api unknown compatibility=");
            push_decimal_str(out, v as u64);
            push_str(out, "\n");
        },
    }
    assert(out@ =~= start + compatibility_line(*c));
}

/// The bytes of a marker line, after a line break when a line is open.
pub open spec fn marker_output(line_open: bool, message: Seq<char>) -> Seq<u8> {
    (if line_open { seq![10u8] } else { Seq::empty() }) + encode_utf8("wiremux> "@ + message + "\n"@)
}

/// The marker for a device whose protocol this host does not support.
pub open spec fn compatibility_marker(kind: ProtocolCompatibilityKind) -> Option<Seq<char>> {
    match kind {
        ProtocolCompatibilityKind::UnsupportedNew => Some("device protocol is newer; upgrade host SDK/tool"@),
        ProtocolCompatibilityKind::UnsupportedOld => Some("device protocol is too old for this host"@),
        _ => None,
    }
}

/// Reports a protocol compatibility event: a diagnostics line, and a
/// marker line for an unsupported device unless filtering by channel.
pub fn write_protocol_compatibility(display: &mut DisplayOutput, diagnostics: &mut String, compatibility: ProtocolCompatibility)
    ensures
        final(diagnostics)@ == old(diagnostics)@ + compatibility_line(compatibility),
        final(display).filter() == old(display).filter(),
        final(display).same_names(&*old(display)),
        old(display).filter() is Some || compatibility_marker(compatibility.compatibility) is None
            ==> final(display).output() == old(display).output(),
        old(display).filter() is None && compatibility_marker(compatibility.compatibility) is Some
            ==> final(display).output() == old(display).output() + marker_output(
                old(display).line_open_spec(),
                compatibility_marker(compatibility.compatibility)->Some_0,
            ),
{
    push_compatibility_line(diagnostics, &compatibility);
    match compatibility.compatibility {
        ProtocolCompatibilityKind::UnsupportedNew => {
            if display.channel_filter.is_none() {
                display.write_marker_line("device protocol is newer; upgrade host SDK/tool");
            }
        },
        ProtocolCompatibilityKind::UnsupportedOld => {
            if display.channel_filter.is_none() {
                display.write_marker_line("device protocol is too old for this host");
            }
        },
        _ => {},
    }
}

/// Reports a host event of a listening session: records and terminal
/// bytes to the display, a line for each event to the diagnostics.
pub fn write_event(display: &mut DisplayOutput, diagnostics: &mut String, event: HostEvent)
    ensures
        final(display).filter() == old(display).filter(),
        match event {
            HostEvent::Terminal(bytes) => final(diagnostics)@ == old(diagnostics)@
                && (old(display).filter() is None ==> final(display).output() == old(display).output() + bytes@)
                && (old(display).filter() is Some ==> final(display).output() == old(display).output()),
            HostEvent::Record(e) => final(diagnostics)@ == old(diagnostics)@ + crate::host_session::envelope_diagnostics(e)
                && final(display).same_names(&*old(display))
                && (old(display).filter() matches Some(c) ==> final(display).output() == old(display).output()
                    + (if c == e.channel_id { e.payload@ } else { Seq::empty() }))
                && (old(display).filter() is None ==> final(display).output() == old(display).output()
                    + encode_utf8(switch_text(old(display).line_open_spec(), old(display).line_channel_spec(), e.channel_id))
                    + encode_utf8(channel_prefix_text(e.channel_id, old(display).name_spec(e.channel_id)) + "> "@)
                    + e.payload@),
            HostEvent::Manifest(m) => final(diagnostics)@ == old(diagnostics)@ + manifest_line(m)
                && final(display).output() == old(display).output()
                && forall|c: u32| #[trigger] final(display).name_spec(c) == manifest_label(m.channels@, c),
            HostEvent::ProtocolCompatibility(c) => final(diagnostics)@ == old(diagnostics)@ + compatibility_line(c)
                && (old(display).filter() is Some || compatibility_marker(c.compatibility) is None
                    ==> final(display).output() == old(display).output())
                && (old(display).filter() is None && compatibility_marker(c.compatibility) is Some
                    ==> final(display).output() == old(display).output()
                        + marker_output(old(display).line_open_spec(), compatibility_marker(c.compatibility)->Some_0)),
            HostEvent::BatchSummary(s) => final(diagnostics)@ == old(diagnostics)@ + batch_line(s)
                && final(display).output() == old(display).output(),
            HostEvent::DecodeError(e) => final(diagnostics)@ == old(diagnostics)@ + decode_error_line(e)
                && (old(display).filter() is Some ==> final(display).output() == old(display).output())
                && (old(display).filter() is None ==> final(display).output() == old(display).output()
                    + marker_output(old(display).line_open_spec(), crate::host_session::decode_marker(e.stage))),
            HostEvent::CrcError(e) => final(diagnostics)@ == old(diagnostics)@ + crc_line(e)
                && (old(display).filter() is Some ==> final(display).output() == old(display).output())
                && (old(display).filter() is None ==> final(display).output() == old(display).output()
                    + marker_output(old(display).line_open_spec(), "crc error; details in diagnostics"@)),
        },
{
    match event {
        HostEvent::Terminal(bytes) => {
            display.write_terminal(bytes.as_slice());
        },
        HostEvent::Record(envelope) => {
            write_envelope_diagnostics(diagnostics, &envelope);
            display.write_record(&envelope);
        },
        HostEvent::Manifest(manifest) => {
            push_manifest_line(diagnostics, &manifest);
            display.update_manifest(&manifest);
        },
        HostEvent::ProtocolCompatibility(compatibility) => {
            write_protocol_compatibility(display, diagnostics, compatibility);
        },
        HostEvent::BatchSummary(summary) => {
            push_batch_line(diagnostics, &summary);
        },
        HostEvent::DecodeError(err) => {
            push_decode_error_line(diagnostics, &err);
            if display.channel_filter.is_none() {
                display.write_marker_line(decode_error_marker(err.stage));
            }
        },
        HostEvent::CrcError(err) => {
            push_crc_line(diagnostics, &err);
            if display.channel_filter.is_none() {
                display.write_marker_line("crc error; details in diagnostics");
            }
        },
    }
}

/// The diagnostics line of a decode error.
pub open spec fn decode_error_line(e: crate::host_session::HostDecodeError) -> Seq<char> {
    "[wiremux] decode_error stage="@ + match e.stage {
        crate::host_session::HostDecodeStage::Envelope => "Envelope"@,
        crate::host_session::HostDecodeStage::Manifest => "Manifest"@,
        crate::host_session::HostDecodeStage::Batch => "Batch"@,
        crate::host_session::HostDecodeStage::BatchRecords => "BatchRecords"@,
        crate::host_session::HostDecodeStage::Compression => "Compression"@,
        crate::host_session::HostDecodeStage::Unknown(v) => "Unknown("@ + crate::text::decimal_chars(v as nat) + ")"@,
    } + " status="@ + crate::text::decimal_chars(e.status as nat) + " detail="@
        + crate::text::decimal_chars(e.detail as nat) + " payload="@
        + crate::host_session::printable(e.payload@) + "\n"@
}

pub fn push_decode_error_line(out: &mut String, e: &crate::host_session::HostDecodeError)
    ensures
        final(out)@ == old(out)@ + decode_error_line(*e),
{
    let ghost start = out@;
    push_str(out, "[wiremux] decode_error stage=");
    let stage = decode_stage_name(e.stage);
    push_str(out, stage.as_str());
    push_str(out, " status=");
    push_decimal_str(out, e.status as u64);
    push_str(out, " detail=");
    push_decimal_str(out, e.detail as u64);
    push_str(out, " payload=");
    let payload = printable_payload(e.payload.as_slice());
    push_str(out, payload.as_str());
    push_str(out, "\n");
    assert(out@ =~= start + decode_error_line(*e));
}

/// Whether the manifest marks the channel as a passthrough channel.
pub open spec fn manifest_has_passthrough(m: DeviceManifest, channel_id: u32) -> bool {
    match crate::host_session::channel_position(m.channels@, channel_id) {
        Some(i) => m.channels@[i].default_interaction_mode == crate::manifest::CHANNEL_INTERACTION_PASSTHROUGH
            || m.channels@[i].interaction_modes@.contains(crate::manifest::CHANNEL_INTERACTION_PASSTHROUGH),
        None => false,
    }
}

/// Reports a host event of a passthrough session: records of the channel
/// go to the terminal as they are, everything to the diagnostics; a
/// manifest is kept.
pub fn handle_passthrough_event(
    stdout: &mut Vec<u8>,
    diagnostics: &mut String,
    manifest_state: &mut Option<DeviceManifest>,
    channel_id: u32,
    event: HostEvent,
)
    ensures
        match event {
            HostEvent::Terminal(bytes) => final(diagnostics)@ == old(diagnostics)@ + "[wiremux] terminal "@
                + crate::host_session::printable(bytes@) + "\n"@ && final(stdout)@ == old(stdout)@
                && *final(manifest_state) == *old(manifest_state),
            HostEvent::Record(e) => final(diagnostics)@ == old(diagnostics)@ + crate::host_session::envelope_diagnostics(e)
                && final(stdout)@ == old(stdout)@ + (if e.channel_id == channel_id { e.payload@ } else { Seq::empty() })
                && *final(manifest_state) == *old(manifest_state),
            HostEvent::Manifest(m) => final(stdout)@ == old(stdout)@ && *final(manifest_state) == Some(m)
                && final(diagnostics)@ == old(diagnostics)@ + manifest_line(m) + if manifest_has_passthrough(m, channel_id) {
                    Seq::empty()
                } else {
                    "[wiremux] channel "@ + crate::text::decimal_chars(channel_id as nat)
                        + " does not advertise passthrough; continuing by explicit command\n"@
                },
            HostEvent::ProtocolCompatibility(c) => final(diagnostics)@ == old(diagnostics)@ + compatibility_line(c)
                && final(stdout)@ == old(stdout)@ && *final(manifest_state) == *old(manifest_state),
            HostEvent::BatchSummary(s) => final(diagnostics)@ == old(diagnostics)@ + batch_line(s)
                && final(stdout)@ == old(stdout)@ && *final(manifest_state) == *old(manifest_state),
            HostEvent::DecodeError(e) => final(diagnostics)@ == old(diagnostics)@ + decode_error_line(e)
                && final(stdout)@ == old(stdout)@ && *final(manifest_state) == *old(manifest_state),
            HostEvent::CrcError(e) => final(diagnostics)@ == old(diagnostics)@ + crc_line(e)
                && final(stdout)@ == old(stdout)@ && *final(manifest_state) == *old(manifest_state),
        },
{
    match event {
        HostEvent::Terminal(bytes) => {
            let ghost start = diagnostics@;
            push_str(diagnostics, "[wiremux] terminal ");
            let text = printable_payload(bytes.as_slice());
            push_str(diagnostics, text.as_str());
            push_str(diagnostics, "\n");
            assert(diagnostics@ =~= start + "[wiremux] terminal "@ + crate::host_session::printable(bytes@) + "\n"@);
        },
        HostEvent::Record(envelope) => {
            write_envelope_diagnostics(diagnostics, &envelope);
            if envelope.channel_id == channel_id {
                extend_bytes(stdout, envelope.payload.as_slice());
            } else {
                assert(stdout@ =~= old(stdout)@ + Seq::<u8>::empty());
            }
        },
        HostEvent::Manifest(manifest) => {
            push_manifest_line(diagnostics, &manifest);
            let ghost mid = diagnostics@;
            if !channel_supports_passthrough(&manifest, channel_id) {
                push_str(diagnostics, "[wiremux] channel ");
                push_decimal_str(diagnostics, channel_id as u64);
                push_str(diagnostics, " does not advertise passthrough; continuing by explicit command\n");
            } else {
                assert(diagnostics@ =~= mid + Seq::<char>::empty());
            }
            *manifest_state = Some(manifest);
        },
        HostEvent::ProtocolCompatibility(compatibility) => {
            push_compatibility_line(diagnostics, &compatibility);
        },
        HostEvent::BatchSummary(summary) => {
            push_batch_line(diagnostics, &summary);
        },
        HostEvent::DecodeError(err) => {
            push_decode_error_line(diagnostics, &err);
        },
        HostEvent::CrcError(err) => {
            push_crc_line(diagnostics, &err);
        },
    }
}

// ---------------------------------------------------------------------
// Diagnostics file names

/// A character as it may stand in a file name.
pub open spec fn filename_char(c: char) -> char {
    if crate::virtual_serial::is_ascii_alphanumeric(c) || c == '.' || c == '-' || c == '_' {
        c
    } else {
        '_'
    }
}

/// The port made fit for a file name: other characters become `_`, `_`
/// is trimmed from both ends, and nothing left gives `port`.
pub open spec fn sanitized_port(port: Seq<char>) -> Seq<char> {
    let s = crate::text::trim_end_by(crate::text::trim_start_by(port.map_values(|c: char| filename_char(c)), '_'), '_');
    if s.len() == 0 {
        "port"@
    } else {
        s
    }
}

pub fn sanitize_port_for_filename(port: &str) -> (r: String)
    ensures
        r@ == sanitized_port(port@),
{
    let chars = str_chars(port);
    let mut mapped: Vec<char> = Vec::new();
    let mut i: usize = 0;
    while i < chars.len()
        invariant
            i <= chars@.len(),
            mapped@ == chars@.subrange(0, i as int).map_values(|c: char| filename_char(c)),
        decreases chars@.len() - i,
    {
        let c = chars[i];
        let keep = ('a' <= c && c <= 'z') || ('A' <= c && c <= 'Z') || ('0' <= c && c <= '9') || c == '.' || c == '-'
            || c == '_';
        mapped.push(if keep { c } else { '_' });
        assert(mapped@ =~= chars@.subrange(0, i as int + 1).map_values(|c: char| filename_char(c)));
        i = i + 1;
    }
    assert(chars@.subrange(0, i as int) =~= chars@);
    let trimmed = crate::text::trim_char_matches(mapped.as_slice(), '_');
    if trimmed.len() == 0 {
        "port".to_owned()
    } else {
        string_from_chars(trimmed.as_slice())
    }
}

} // verus!
