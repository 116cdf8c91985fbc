//! Virtual serial endpoints for mux channels: their names, the text they
//! carry, and the broker that keeps one endpoint per manifest channel,
//! queues output for it and decides what its input may do. Opening the
//! endpoint devices and moving bytes through them is left to the host
//! program, which reports the outcome back to the broker.
use vstd::prelude::*;
use crate::envelope::{MuxEnvelope, DIRECTION_INPUT, PAYLOAD_KIND_TEXT};
use crate::interactive::{path_file_name, VirtualSerialConfig};
use crate::manifest::{ChannelDescriptor, DeviceManifest, CHANNEL_INTERACTION_PASSTHROUGH};
use crate::text::{
    decimal_string, push_str, replace_text, str_chars, str_starts_with, string_from_chars,
    trim_char_matches, truncate_chars, char_range,
};

verus! {

/// At most this many output bytes wait for an endpoint; more are dropped.
pub const VIRTUAL_SERIAL_OUTPUT_QUEUE_LIMIT: usize = 1048576;

// ---------------------------------------------------------------------
// Text output

/// Line feeds that follow no carriage return get one, carrying whether the
/// last byte was a carriage return from one record to the next.
pub open spec fn crlf_text(payload: Seq<u8>, previous_was_cr: bool) -> (Seq<u8>, bool)
    decreases payload.len(),
{
    if payload.len() == 0 {
        (Seq::empty(), previous_was_cr)
    } else {
        let (out, cr) = crlf_text(payload.drop_last(), previous_was_cr);
        let b = payload.last();
        (out + (if b == 10 && !cr { seq![13u8] } else { Seq::empty() }) + seq![b], b == 13)
    }
}

/// Whether a record on a line channel needs a line break appended.
pub open spec fn needs_record_break(payload: Seq<u8>, record_delimited: bool) -> bool {
    record_delimited && payload.len() > 0 && payload.last() != 13 && payload.last() != 10
}

/// The bytes a text record sends to a terminal, and whether the last byte
/// sent was a carriage return.
pub open spec fn text_output(payload: Seq<u8>, previous_was_cr: bool, record_delimited: bool) -> (Seq<u8>, bool) {
    let (out, cr) = crlf_text(payload, previous_was_cr);
    if needs_record_break(payload, record_delimited) {
        (out + seq![13u8, 10u8], false)
    } else {
        (out, cr)
    }
}

/// The bytes a text record sends to a terminal.
pub fn terminal_text_output_bytes(payload: &[u8], previous_was_cr: &mut bool, record_delimited: bool) -> (r: Vec<u8>)
    ensures
        (r@, *final(previous_was_cr)) == text_output(payload@, *old(previous_was_cr), record_delimited),
{
    let needs_break = record_delimited && payload.len() > 0 && payload[payload.len() - 1] != 13
        && payload[payload.len() - 1] != 10;
    let mut output: Vec<u8> = Vec::new();
    let mut i: usize = 0;
    while i < payload.len()
        invariant
            i <= payload@.len(),
            (output@, *previous_was_cr) == crlf_text(payload@.subrange(0, i as int), *old(previous_was_cr)),
        decreases payload@.len() - i,
    {
        let byte = payload[i];
        let ghost before = output@;
        let ghost cr = *previous_was_cr;
        if byte == 10 && !*previous_was_cr {
            output.push(13);
        }
        output.push(byte);
        *previous_was_cr = byte == 13;
        proof {
            let sub = payload@.subrange(0, i as int + 1);
            assert(sub.drop_last() =~= payload@.subrange(0, i as int));
            assert(output@ =~= before + (if byte == 10 && !cr { seq![13u8] } else { Seq::empty() }) + seq![byte]);
        }
        i = i + 1;
    }
    assert(payload@.subrange(0, i as int) =~= payload@);
    if needs_break {
        output.push(13);
        output.push(10);
        *previous_was_cr = false;
    }
    output
}

/// Every line feed that text output sends follows a carriage return: the
/// one before it, or the one that ended the previous record.
pub proof fn lemma_text_output_line_feeds(payload: Seq<u8>, previous_was_cr: bool, record_delimited: bool)
    ensures
        ({
            let (out, cr) = text_output(payload, previous_was_cr, record_delimited);
            &&& forall|j: int| 0 < j < out.len() && #[trigger] out[j] == 10 ==> out[j - 1] == 13
            &&& out.len() > 0 && out[0] == 10 ==> previous_was_cr
            &&& cr ==> (out.len() > 0 && out.last() == 13) || (out.len() == 0 && previous_was_cr)
        }),
{
    lemma_crlf_line_feeds(payload, previous_was_cr);
    let (out, cr) = crlf_text(payload, previous_was_cr);
    if needs_record_break(payload, record_delimited) {
        let out2 = out + seq![13u8, 10u8];
        assert forall|j: int| 0 < j < out2.len() && #[trigger] out2[j] == 10 implies out2[j - 1] == 13 by {
            if j < out.len() {
                assert(out2[j] == out[j]);
                assert(out2[j - 1] == out[j - 1]);
            } else if j == out.len() {
                assert(out2[j] == 13);
            }
        }
        if out.len() == 0 {
            assert(out2[0] == 13);
        } else {
            assert(out2[0] == out[0]);
        }
    }
}

proof fn lemma_crlf_line_feeds(payload: Seq<u8>, previous_was_cr: bool)
    ensures
        ({
            let (out, cr) = crlf_text(payload, previous_was_cr);
            &&& forall|j: int| 0 < j < out.len() && #[trigger] out[j] == 10 ==> out[j - 1] == 13
            &&& out.len() > 0 && out[0] == 10 ==> previous_was_cr
            &&& cr ==> (out.len() > 0 && out.last() == 13) || (out.len() == 0 && previous_was_cr)
            &&& out.len() == 0 ==> cr == previous_was_cr
            &&& out.len() > 0 ==> (cr <==> out.last() == 13)
        }),
    decreases payload.len(),
{
    if payload.len() > 0 {
        lemma_crlf_line_feeds(payload.drop_last(), previous_was_cr);
        let (out, cr) = crlf_text(payload.drop_last(), previous_was_cr);
        let b = payload.last();
        let mid = if b == 10 && !cr { seq![13u8] } else { Seq::<u8>::empty() };
        let out2 = out + mid + seq![b];
        assert forall|j: int| 0 < j < out2.len() && #[trigger] out2[j] == 10 implies out2[j - 1] == 13 by {
            if j < out.len() {
                assert(out2[j] == out[j]);
                assert(out2[j - 1] == out[j - 1]);
            } else if j == out.len() + mid.len() - 1 + 1 - 1 && mid.len() == 1 && j == out.len() {
                assert(out2[j] == 13);
            } else if j == out2.len() - 1 {
                if mid.len() == 1 {
                    assert(out2[j - 1] == 13);
                } else {
                    assert(j - 1 == out.len() - 1);
                    assert(out2[j - 1] == out.last());
                }
            }
        }
        if out.len() > 0 {
            assert(out2[0] == out[0]);
        } else if mid.len() == 1 {
            assert(out2[0] == 13);
        }
    }
}

/// Whether output to the channel's endpoint is split into records with a
/// line break after each: true unless the channel works in passthrough.
pub open spec fn record_delimited(channel_default_mode: u32, channel_modes: Seq<u32>) -> bool {
    channel_default_mode != CHANNEL_INTERACTION_PASSTHROUGH && !channel_modes.contains(CHANNEL_INTERACTION_PASSTHROUGH)
}

/// Whether a list of values holds `v`.
pub fn vec_contains(values: &Vec<u32>, v: u32) -> (r: bool)
    ensures
        r == values@.contains(v),
{
    let mut i: usize = 0;
    while i < values.len()
        invariant
            i <= values@.len(),
            forall|k: int| 0 <= k < i ==> values@[k] != v,
        decreases values@.len() - i,
    {
        if values[i] == v {
            assert(values@[i as int] == v);
            return true;
        }
        i = i + 1;
    }
    false
}

pub fn virtual_serial_record_delimited_output(channel: &ChannelDescriptor) -> (r: bool)
    ensures
        r == record_delimited(channel.default_interaction_mode, channel.interaction_modes@),
{
    channel.default_interaction_mode != CHANNEL_INTERACTION_PASSTHROUGH
        && !vec_contains(&channel.interaction_modes, CHANNEL_INTERACTION_PASSTHROUGH)
}

// ---------------------------------------------------------------------
// Endpoint names

/// ASCII letters and digits.
pub open spec fn is_ascii_alphanumeric(c: char) -> bool {
    ('a' <= c && c <= 'z') || ('A' <= c && c <= 'Z') || ('0' <= c && c <= '9')
}

/// The character as it may stand in an endpoint name.
pub open spec fn name_char(c: char) -> char {
    if is_ascii_alphanumeric(c) || c == '-' || c == '_' {
        c
    } else {
        '-'
    }
}

/// Text made fit for an endpoint name: other characters become `-`, and
/// `-` is trimmed from both ends.
pub open spec fn sanitized(value: Seq<char>) -> Seq<char> {
    crate::text::trim_end_by(crate::text::trim_start_by(value.map_values(|c: char| name_char(c)), '-'), '-')
}

pub fn sanitize_virtual_serial_name_part(value: &str) -> (r: String)
    ensures
        r@ == sanitized(value@),
{
    let chars = str_chars(value);
    let mut mapped: Vec<char> = Vec::new();
    let mut i: usize = 0;
    while i < chars.len()
        invariant
            i <= chars@.len(),
            mapped@ == chars@.subrange(0, i as int).map_values(|c: char| name_char(c)),
        decreases chars@.len() - i,
    {
        let c = chars[i];
        let keep = ('a' <= c && c <= 'z') || ('A' <= c && c <= 'Z') || ('0' <= c && c <= '9') || c == '-' || c == '_';
        mapped.push(if keep { c } else { '-' });
        assert(mapped@ =~= chars@.subrange(0, i as int + 1).map_values(|c: char| name_char(c)));
        i = i + 1;
    }
    assert(chars@.subrange(0, i as int) =~= chars@);
    let trimmed = trim_char_matches(mapped.as_slice(), '-');
    string_from_chars(trimmed.as_slice())
}

/// The device part of an endpoint name taken from the serial port: its
/// file name without a `tty.` or `cu.` prefix, sanitized, at most fifteen
/// characters.
pub open spec fn source_port_part(path: Seq<char>) -> Seq<char> {
    let name = match crate::interactive::file_name(path) {
        Some(n) => n,
        None => Seq::empty(),
    };
    let value = if crate::text::has_prefix(name, "tty."@) {
        name.subrange(4, name.len() as int)
    } else if crate::text::has_prefix(name, "cu."@) {
        name.subrange(3, name.len() as int)
    } else {
        name
    };
    let s = sanitized(value);
    if s.len() <= 15 { s } else { s.subrange(0, 15) }
}

pub fn source_port_virtual_serial_name_part(path: &str) -> (r: String)
    ensures
        r@ == source_port_part(path@),
{
    let name = match path_file_name(path) {
        Some(n) => n,
        None => String::new(),
    };
    let chars = str_chars(name.as_str());
    proof {
        reveal_strlit("tty.");
        reveal_strlit("cu.");
    }
    let value = if str_starts_with(name.as_str(), "tty.") {
        string_from_chars(char_range(chars.as_slice(), 4, chars.len()).as_slice())
    } else if str_starts_with(name.as_str(), "cu.") {
        string_from_chars(char_range(chars.as_slice(), 3, chars.len()).as_slice())
    } else {
        name
    };
    let sanitized_value = sanitize_virtual_serial_name_part(value.as_str());
    truncate_chars(sanitized_value.as_str(), 15)
}

/// The name of the endpoint for a channel: the template with `{device}`,
/// `{channel}` and `{channel_id}` filled in, in that order.
pub open spec fn endpoint_name(template: Seq<char>, device_name: Seq<char>, channel_name: Seq<char>, channel_id: u32, source_port: Option<Seq<char>>) -> Seq<char> {
    let device = match source_port {
        Some(p) => source_port_part(p),
        None => sanitized(device_name),
    };
    let cname = if channel_name.len() == 0 { Seq::empty() } else { sanitized(channel_name) };
    let cname = if cname.len() == 0 { "ch"@ + crate::text::decimal_chars(channel_id as nat) } else { cname };
    let device = if device.len() == 0 { "device"@ } else { device };
    crate::text::replace_all(
        crate::text::replace_all(crate::text::replace_all(template, "{device}"@, device), "{channel}"@, cname),
        "{channel_id}"@,
        crate::text::decimal_chars(channel_id as nat),
    )
}

pub fn virtual_serial_name(template: &str, manifest: &DeviceManifest, channel: &ChannelDescriptor, source_port: Option<&str>) -> (r: String)
    ensures
        r@ == endpoint_name(template@, manifest.device_name@, channel.name@, channel.channel_id, match source_port {
            Some(p) => Some(p@),
            None => None,
        }),
{
    let device = match source_port {
        Some(p) => source_port_virtual_serial_name_part(p),
        None => sanitize_virtual_serial_name_part(manifest.device_name.as_str()),
    };
    let channel_name = if channel.name.as_str().is_empty() {
        String::new()
    } else {
        sanitize_virtual_serial_name_part(channel.name.as_str())
    };
    let id_text = decimal_string(channel.channel_id as u64);
    let channel_name = if channel_name.as_str().is_empty() {
        let mut s = "ch".to_owned();
        push_str(&mut s, id_text.as_str());
        s
    } else {
        channel_name
    };
    let device = if device.as_str().is_empty() { "device".to_owned() } else { device };
    proof {
        reveal_strlit("{device}");
        reveal_strlit("{channel}");
        reveal_strlit("{channel_id}");
    }
    let step1 = replace_text(template, "{device}", device.as_str());
    let step2 = replace_text(step1.as_str(), "{channel}", channel_name.as_str());
    replace_text(step2.as_str(), "{channel_id}", id_text.as_str())
}


// ---------------------------------------------------------------------
// Endpoints

/// Who may send input to an input-capable channel.
#[derive(Clone, Copy, Debug, PartialEq, Eq, Structural)]
pub enum VirtualSerialInputOwner {
    Host,
    VirtualSerial,
}

impl VirtualSerialInputOwner {
    /// The other owner.
    pub open spec fn toggled(self) -> VirtualSerialInputOwner {
        match self {
            VirtualSerialInputOwner::Host => VirtualSerialInputOwner::VirtualSerial,
            VirtualSerialInputOwner::VirtualSerial => VirtualSerialInputOwner::Host,
        }
    }

    /// The name of the owner as the status line shows it.
    pub fn label(self) -> (r: &'static str)
        ensures
            r@ == match self {
                VirtualSerialInputOwner::Host => "host"@,
                VirtualSerialInputOwner::VirtualSerial => "virtual-serial"@,
            },
    {
        match self {
            VirtualSerialInputOwner::Host => "host",
            VirtualSerialInputOwner::VirtualSerial => "virtual-serial",
        }
    }
}

/// What reading from an endpoint device gave.
#[derive(Clone, Copy, Debug, PartialEq, Eq, Structural)]
pub enum VirtualSerialRead {
    Bytes(usize),
    NoData,
    ClientGone,
}

/// What to do with input read from an endpoint.
#[derive(Clone, Debug, PartialEq, Eq)]
pub enum VirtualSerialInputEvent {
    Forward { channel_id: u8, payload: Vec<u8> },
    Discarded { channel_id: u32, reason: String, bytes: usize },
}

/// An endpoint as the status pages show it.
#[derive(Clone, Debug, PartialEq, Eq)]
pub struct VirtualSerialEndpointInfo {
    pub channel_id: u32,
    pub name: String,
    pub path: Option<String>,
    pub input_capable: bool,
    pub input_owner: VirtualSerialInputOwner,
    pub status: String,
}

/// The state of the device behind an endpoint.
#[derive(Clone, Debug, PartialEq, Eq)]
pub enum EndpointBackend {
    /// Created for a channel; the host has not reported opening it yet.
    Opening,
    Active { path: String, real_path: String },
    Unsupported(String),
    Failed(String),
}

/// What an endpoint for a channel must be.
#[derive(Clone, Debug, PartialEq, Eq)]
pub struct VirtualSerialEndpointSpec {
    pub channel_id: u32,
    pub name: String,
    pub input_capable: bool,
    pub output_record_delimited: bool,
}

/// An endpoint spec as a value.
pub struct EndpointSpecView {
    pub channel_id: u32,
    pub name: Seq<char>,
    pub input_capable: bool,
    pub record_delimited: bool,
}

impl View for VirtualSerialEndpointSpec {
    type V = EndpointSpecView;

    open spec fn view(&self) -> EndpointSpecView {
        EndpointSpecView {
            channel_id: self.channel_id,
            name: self.name@,
            input_capable: self.input_capable,
            record_delimited: self.output_record_delimited,
        }
    }
}

/// The endpoint for one mux channel.
#[derive(Clone, Debug, PartialEq, Eq)]
pub struct VirtualSerialEndpoint {
    pub channel_id: u32,
    pub name: String,
    pub input_capable: bool,
    pub input_owner: VirtualSerialInputOwner,
    pub output_record_delimited: bool,
    pub output_previous_was_cr: bool,
    pub output_pending: Vec<u8>,
    pub output_dropped_bytes: usize,
    pub backend: EndpointBackend,
}

/// Whether an endpoint is the one a spec asks for.
pub open spec fn endpoint_matches(e: VirtualSerialEndpoint, s: EndpointSpecView) -> bool {
    e.channel_id == s.channel_id && e.name@ == s.name && e.input_capable == s.input_capable
        && e.output_record_delimited == s.record_delimited
}

/// Whether an endpoint was just created for a spec.
pub open spec fn is_fresh_for(e: VirtualSerialEndpoint, s: EndpointSpecView) -> bool {
    &&& endpoint_matches(e, s)
    &&& e.input_owner == VirtualSerialInputOwner::Host
    &&& !e.output_previous_was_cr
    &&& e.output_pending@.len() == 0
    &&& e.output_dropped_bytes == 0
    &&& e.backend == EndpointBackend::Opening
}

/// How many of `incoming` bytes fit in the queue of an endpoint.
pub open spec fn queued_len(pending: nat, incoming: nat) -> nat {
    let available = if pending >= VIRTUAL_SERIAL_OUTPUT_QUEUE_LIMIT { 0 } else { (VIRTUAL_SERIAL_OUTPUT_QUEUE_LIMIT - pending) as nat };
    if incoming <= available { incoming } else { available }
}

impl VirtualSerialEndpoint {
    /// A new endpoint for the spec, owned by the host, with nothing queued.
    pub fn from_spec(spec: VirtualSerialEndpointSpec) -> (r: Self)
        ensures
            is_fresh_for(r, spec@),
    {
        VirtualSerialEndpoint {
            channel_id: spec.channel_id,
            name: spec.name,
            input_capable: spec.input_capable,
            input_owner: VirtualSerialInputOwner::Host,
            output_record_delimited: spec.output_record_delimited,
            output_previous_was_cr: false,
            output_pending: Vec::new(),
            output_dropped_bytes: 0,
            backend: EndpointBackend::Opening,
        }
    }

    pub fn matches_spec(&self, spec: &VirtualSerialEndpointSpec) -> (r: bool)
        ensures
            r == endpoint_matches(*self, spec@),
    {
        self.channel_id == spec.channel_id && self.name == spec.name && self.input_capable == spec.input_capable
            && self.output_record_delimited == spec.output_record_delimited
    }

    /// Queues output up to the queue limit; what does not fit is counted
    /// as dropped (the count saturates).
    pub fn enqueue_output(&mut self, bytes: &[u8])
        ensures
            ({
                let q = queued_len(old(self).output_pending@.len(), bytes@.len());
                &&& final(self).output_pending@ == old(self).output_pending@ + bytes@.subrange(0, q as int)
                &&& final(self).output_dropped_bytes as int == if old(self).output_dropped_bytes + (bytes@.len() - q) > usize::MAX {
                    usize::MAX as int
                } else {
                    old(self).output_dropped_bytes + (bytes@.len() - q)
                }
                &&& final(self).channel_id == old(self).channel_id
                &&& final(self).name == old(self).name
                &&& final(self).input_capable == old(self).input_capable
                &&& final(self).input_owner == old(self).input_owner
                &&& final(self).output_record_delimited == old(self).output_record_delimited
                &&& final(self).output_previous_was_cr == old(self).output_previous_was_cr
                &&& final(self).backend == old(self).backend
            }),
    {
        let available = VIRTUAL_SERIAL_OUTPUT_QUEUE_LIMIT.saturating_sub(self.output_pending.len());
        let queued_len = if bytes.len() < available { bytes.len() } else { available };
        let mut queued = crate::wire::copy_range(bytes, 0, queued_len);
        self.output_pending.append(&mut queued);
        self.output_dropped_bytes = self.output_dropped_bytes.saturating_add(bytes.len() - queued_len);
    }

    /// Removes the first `written` queued bytes, which the device took.
    pub fn output_written(&mut self, written: usize)
        requires
            written <= old(self).output_pending@.len(),
        ensures
            final(self).output_pending@ == old(self).output_pending@.subrange(written as int, old(self).output_pending@.len() as int),
            final(self).channel_id == old(self).channel_id,
            final(self).name == old(self).name,
            final(self).input_capable == old(self).input_capable,
            final(self).input_owner == old(self).input_owner,
            final(self).output_record_delimited == old(self).output_record_delimited,
            final(self).output_previous_was_cr == old(self).output_previous_was_cr,
            final(self).output_dropped_bytes == old(self).output_dropped_bytes,
            final(self).backend == old(self).backend,
    {
        let rest = crate::wire::copy_range(self.output_pending.as_slice(), written, self.output_pending.len());
        self.output_pending = rest;
    }

    /// The endpoint as the status pages show it.
    pub fn info(&self) -> (r: VirtualSerialEndpointInfo)
        ensures
            r.channel_id == self.channel_id,
            r.name@ == self.name@,
            r.input_capable == self.input_capable,
            r.input_owner == self.input_owner,
            match self.backend {
                EndpointBackend::Active { path, real_path } => r.path matches Some(p) && p@ == path@
                    && r.status@ == "active real="@ + real_path@,
                EndpointBackend::Unsupported(reason) => r.path is None && r.status@ == "unsupported: "@ + reason@,
                EndpointBackend::Failed(reason) => r.path is None && r.status@ == "failed: "@ + reason@,
                EndpointBackend::Opening => r.path is None && r.status@ == "opening"@,
            },
    {
        let (path, status) = match &self.backend {
            EndpointBackend::Active { path, real_path } => {
                let mut status = "active real=".to_owned();
                push_str(&mut status, real_path.as_str());
                (Some(path.clone()), status)
            },
            EndpointBackend::Unsupported(reason) => {
                let mut status = "unsupported: ".to_owned();
                push_str(&mut status, reason.as_str());
                (None, status)
            },
            EndpointBackend::Failed(reason) => {
                let mut status = "failed: ".to_owned();
                push_str(&mut status, reason.as_str());
                (None, status)
            },
            EndpointBackend::Opening => (None, "opening".to_owned()),
        };
        VirtualSerialEndpointInfo {
            channel_id: self.channel_id,
            name: self.name.clone(),
            path,
            input_capable: self.input_capable,
            input_owner: self.input_owner,
            status,
        }
    }
}

/// The endpoint spec for a channel of a manifest.
pub open spec fn channel_spec(template: Seq<char>, device_name: Seq<char>, source_port: Option<Seq<char>>, c: ChannelDescriptor) -> EndpointSpecView {
    EndpointSpecView {
        channel_id: c.channel_id,
        name: endpoint_name(template, device_name, c.name@, c.channel_id, source_port),
        input_capable: c.directions@.contains(DIRECTION_INPUT),
        record_delimited: record_delimited(c.default_interaction_mode, c.interaction_modes@),
    }
}

/// The first endpoint that a spec asks for.
pub open spec fn first_match(eps: Seq<VirtualSerialEndpoint>, s: EndpointSpecView) -> Option<int>
    decreases eps.len(),
{
    if eps.len() == 0 {
        None
    } else {
        match first_match(eps.drop_last(), s) {
            Some(i) => Some(i),
            None => if endpoint_matches(eps.last(), s) {
                Some(eps.len() - 1)
            } else {
                None
            },
        }
    }
}

proof fn lemma_first_match_prefix(eps: Seq<VirtualSerialEndpoint>, s: EndpointSpecView, k: int)
    requires
        0 <= k <= eps.len(),
    ensures
        first_match(eps.subrange(0, k), s) matches Some(i) ==> first_match(eps, s) == Some(i),
        first_match(eps, s) matches Some(i) ==> 0 <= i < eps.len() && endpoint_matches(eps[i], s),
        first_match(eps, s) is None ==> (forall|j: int| 0 <= j < eps.len() ==> !endpoint_matches(eps[j], s)),
    decreases eps.len(),
{
    if eps.len() > 0 {
        if k == eps.len() {
            assert(eps.subrange(0, k) =~= eps);
        } else {
            assert(eps.drop_last().subrange(0, k) =~= eps.subrange(0, k));
            lemma_first_match_prefix(eps.drop_last(), s, k);
        }
        lemma_first_match_prefix(eps.drop_last(), s, eps.len() - 1);
        if first_match(eps.drop_last(), s) is None {
            assert forall|j: int| 0 <= j < eps.len() - 1 implies !endpoint_matches(eps[j], s) by {
                assert(eps.drop_last()[j] == eps[j]);
            }
        }
    } else {
        assert(eps.subrange(0, k) =~= eps);
    }
}

/// `Vec::swap_remove` on a sequence.
pub open spec fn swap_removed<T>(s: Seq<T>, i: int) -> Seq<T> {
    s.update(i, s.last()).drop_last()
}

/// The endpoints not yet reused after syncing the first `i` specs.
pub open spec fn sync_remaining(old: Seq<VirtualSerialEndpoint>, specs: Seq<EndpointSpecView>, i: nat) -> Seq<VirtualSerialEndpoint>
    decreases i,
{
    if i == 0 {
        old
    } else {
        let r = sync_remaining(old, specs, (i - 1) as nat);
        match first_match(r, specs[i - 1]) {
            Some(k) => swap_removed(r, k),
            None => r,
        }
    }
}

/// Whether `e` is what syncing puts for spec `i`: the first endpoint left
/// that matches it, or a fresh one.
pub open spec fn sync_entry(e: VirtualSerialEndpoint, old: Seq<VirtualSerialEndpoint>, specs: Seq<EndpointSpecView>, i: nat) -> bool {
    let r = sync_remaining(old, specs, i);
    match first_match(r, specs[i as int]) {
        Some(k) => e == r[k],
        None => is_fresh_for(e, specs[i as int]),
    }
}

/// Whether `result` is what syncing `old` endpoints to `specs` gives.
pub open spec fn synced(result: Seq<VirtualSerialEndpoint>, old: Seq<VirtualSerialEndpoint>, specs: Seq<EndpointSpecView>) -> bool {
    &&& result.len() == specs.len()
    &&& forall|i: int| 0 <= i < specs.len() ==> #[trigger] sync_entry(result[i], old, specs, i as nat)
}

/// The endpoints and settings that route mux channels to virtual serial
/// devices.
pub struct VirtualSerialBroker {
    config: VirtualSerialConfig,
    enabled: bool,
    source_port: Option<String>,
    endpoints: Vec<VirtualSerialEndpoint>,
}

impl VirtualSerialBroker {
    pub closed spec fn spec_config(&self) -> VirtualSerialConfig {
        self.config
    }

    pub closed spec fn spec_enabled(&self) -> bool {
        self.enabled
    }

    pub closed spec fn spec_source_port(&self) -> Option<Seq<char>> {
        match self.source_port {
            Some(p) => Some(p@),
            None => None,
        }
    }

    pub closed spec fn spec_endpoints(&self) -> Seq<VirtualSerialEndpoint> {
        self.endpoints@
    }

    /// The specs of the endpoints for the manifest's channels.
    pub open spec fn manifest_specs(&self, manifest: DeviceManifest) -> Seq<EndpointSpecView> {
        manifest.channels@.map_values(|c: ChannelDescriptor| channel_spec(
            self.spec_config().name_template@,
            manifest.device_name@,
            self.spec_source_port(),
            c,
        ))
    }

    pub fn new(config: VirtualSerialConfig) -> (r: Self)
        ensures
            r.spec_config() == config,
            r.spec_enabled() == config.enabled,
            r.spec_source_port() is None,
            r.spec_endpoints().len() == 0,
    {
        let enabled = config.enabled;
        VirtualSerialBroker { config, enabled, source_port: None, endpoints: Vec::new() }
    }

    pub fn with_source_port(config: VirtualSerialConfig, source_port: String) -> (r: Self)
        ensures
            r.spec_config() == config,
            r.spec_enabled() == config.enabled,
            r.spec_source_port() == Some(source_port@),
            r.spec_endpoints().len() == 0,
    {
        let mut broker = Self::new(config);
        broker.source_port = Some(source_port);
        broker
    }

    pub fn is_enabled(&self) -> (r: bool)
        ensures
            r == self.spec_enabled(),
    {
        self.enabled
    }

    pub fn config(&self) -> (r: &VirtualSerialConfig)
        ensures
            *r == self.spec_config(),
    {
        &self.config
    }

    /// The endpoints, in manifest channel order.
    pub fn endpoints(&self) -> (r: &[VirtualSerialEndpoint])
        ensures
            r@ == self.spec_endpoints(),
    {
        self.endpoints.as_slice()
    }

    /// Records the serial port that names the endpoints; a different port
    /// drops the endpoints named after the old one.
    pub fn set_source_port(&mut self, source_port: String)
        ensures
            final(self).spec_source_port() == Some(source_port@),
            final(self).spec_config() == old(self).spec_config(),
            final(self).spec_enabled() == old(self).spec_enabled(),
            old(self).spec_source_port() == Some(source_port@) ==> final(self).spec_endpoints() == old(self).spec_endpoints(),
            old(self).spec_source_port() != Some(source_port@) ==> final(self).spec_endpoints().len() == 0,
    {
        let same = match &self.source_port {
            Some(p) => *p == source_port,
            None => false,
        };
        if !same {
            self.source_port = Some(source_port);
            self.endpoints.clear();
        }
    }

    pub fn clear_endpoints(&mut self)
        ensures
            final(self).spec_endpoints().len() == 0,
            final(self).spec_source_port() == old(self).spec_source_port(),
            final(self).spec_config() == old(self).spec_config(),
            final(self).spec_enabled() == old(self).spec_enabled(),
    {
        self.endpoints.clear();
    }

    /// Takes over an endpoint that was set up before.
    pub fn adopt_endpoint(&mut self, endpoint: VirtualSerialEndpoint)
        ensures
            final(self).spec_endpoints() == old(self).spec_endpoints().push(endpoint),
            final(self).spec_source_port() == old(self).spec_source_port(),
            final(self).spec_config() == old(self).spec_config(),
            final(self).spec_enabled() == old(self).spec_enabled(),
    {
        self.endpoints.push(endpoint);
    }

    fn endpoint_spec(&self, manifest: &DeviceManifest, channel: &ChannelDescriptor) -> (r: VirtualSerialEndpointSpec)
        ensures
            r@ == channel_spec(self.spec_config().name_template@, manifest.device_name@, self.spec_source_port(), *channel),
    {
        let source = match &self.source_port {
            Some(p) => Some(p.as_str()),
            None => None,
        };
        let name = virtual_serial_name(self.config.name_template.as_str(), manifest, channel, source);
        VirtualSerialEndpointSpec {
            channel_id: channel.channel_id,
            name,
            input_capable: vec_contains(&channel.directions, DIRECTION_INPUT),
            output_record_delimited: virtual_serial_record_delimited_output(channel),
        }
    }

    /// One endpoint per manifest channel, reusing each endpoint that
    /// already matches; none while disabled.
    pub fn sync_manifest(&mut self, manifest: &DeviceManifest)
        ensures
            final(self).spec_config() == old(self).spec_config(),
            final(self).spec_enabled() == old(self).spec_enabled(),
            final(self).spec_source_port() == old(self).spec_source_port(),
            !old(self).spec_enabled() ==> final(self).spec_endpoints().len() == 0,
            old(self).spec_enabled() ==> synced(final(self).spec_endpoints(), old(self).spec_endpoints(), old(self).manifest_specs(*manifest)),
    {
        if !self.enabled {
            self.endpoints.clear();
            return;
        }
        let ghost old_eps = self.endpoints@;
        let ghost specs = self.manifest_specs(*manifest);
        let mut remaining: Vec<VirtualSerialEndpoint> = Vec::new();
        std::mem::swap(&mut remaining, &mut self.endpoints);
        let mut endpoints: Vec<VirtualSerialEndpoint> = Vec::new();
        let mut i: usize = 0;
        while i < manifest.channels.len()
            invariant
                i <= manifest.channels@.len(),
                specs == self.manifest_specs(*manifest),
                specs.len() == manifest.channels@.len(),
                remaining@ == sync_remaining(old_eps, specs, i as nat),
                endpoints@.len() == i,
                forall|k: int| 0 <= k < i ==> #[trigger] sync_entry(endpoints@[k], old_eps, specs, k as nat),
                self.spec_config() == old(self).spec_config(),
                self.spec_enabled() == old(self).spec_enabled(),
                self.spec_source_port() == old(self).spec_source_port(),
            decreases manifest.channels@.len() - i,
        {
            let spec = self.endpoint_spec(manifest, &manifest.channels[i]);
            assert(spec@ == specs[i as int]);
            let ghost rem = remaining@;
            let mut k: usize = 0;
            let mut found: Option<usize> = None;
            while k < remaining.len() && found.is_none()
                invariant
                    k <= remaining@.len(),
                    remaining@ == rem,
                    found matches Some(idx) ==> idx < rem.len() && first_match(rem, spec@) == Some(idx as int),
                    found is None ==> first_match(rem.subrange(0, k as int), spec@) is None,
                decreases remaining@.len() - k + (if found is None { 1int } else { 0int }),
            {
                assert(rem.subrange(0, k as int + 1).drop_last() =~= rem.subrange(0, k as int));
                if remaining[k].matches_spec(&spec) {
                    found = Some(k);
                    proof {
                        lemma_first_match_prefix(rem, spec@, k as int + 1);
                    }
                } else {
                    k = k + 1;
                }
            }
            proof {
                if found is None {
                    assert(rem.subrange(0, k as int) =~= rem);
                }
            }
            match found {
                Some(index) => {
                    proof {
                        lemma_first_match_prefix(rem, spec@, 0);
                    }
                    let e = remaining.swap_remove(index);
                    endpoints.push(e);
                },
                None => {
                    endpoints.push(VirtualSerialEndpoint::from_spec(spec));
                },
            }
            proof {
                assert(sync_remaining(old_eps, specs, (i + 1) as nat) == remaining@);
                assert(sync_entry(endpoints@[i as int], old_eps, specs, i as nat));
                assert forall|m: int| 0 <= m < i + 1 implies #[trigger] sync_entry(endpoints@[m], old_eps, specs, m as nat) by {
                    if m < i {
                        assert(endpoints@[m] == endpoints@.drop_last()[m]);
                    }
                }
            }
            i = i + 1;
        }
        self.endpoints = endpoints;
    }

    /// Turns the endpoints on or off; turning them on syncs to the
    /// manifest when there is one.
    pub fn set_enabled(&mut self, enabled: bool, manifest: Option<&DeviceManifest>)
        ensures
            final(self).spec_enabled() == enabled,
            final(self).spec_config() == old(self).spec_config(),
            final(self).spec_source_port() == old(self).spec_source_port(),
            !enabled ==> final(self).spec_endpoints().len() == 0,
            enabled && manifest is None ==> final(self).spec_endpoints() == old(self).spec_endpoints(),
            enabled && manifest is Some ==> synced(final(self).spec_endpoints(), old(self).spec_endpoints(), old(self).manifest_specs(*manifest->Some_0)),
    {
        self.enabled = enabled;
        if enabled {
            match manifest {
                Some(m) => self.sync_manifest(m),
                None => {},
            }
        } else {
            self.endpoints.clear();
        }
    }

    pub fn endpoint_infos(&self) -> (r: Vec<VirtualSerialEndpointInfo>)
        ensures
            r@.len() == self.spec_endpoints().len(),
            forall|i: int| 0 <= i < r@.len() ==> (#[trigger] r@[i]).channel_id == self.spec_endpoints()[i].channel_id
                && r@[i].name@ == self.spec_endpoints()[i].name@
                && r@[i].input_owner == self.spec_endpoints()[i].input_owner
                && r@[i].input_capable == self.spec_endpoints()[i].input_capable,
    {
        let mut out: Vec<VirtualSerialEndpointInfo> = Vec::new();
        let mut i: usize = 0;
        while i < self.endpoints.len()
            invariant
                i <= self.endpoints@.len(),
                out@.len() == i,
                forall|k: int| 0 <= k < i ==> (#[trigger] out@[k]).channel_id == self.endpoints@[k].channel_id
                    && out@[k].name@ == self.endpoints@[k].name@
                    && out@[k].input_owner == self.endpoints@[k].input_owner
                    && out@[k].input_capable == self.endpoints@[k].input_capable,
            decreases self.endpoints@.len() - i,
        {
            let info = self.endpoints[i].info();
            out.push(info);
            i = i + 1;
        }
        out
    }

    /// The number of endpoints whose device is open.
    pub open spec fn active_count(eps: Seq<VirtualSerialEndpoint>) -> nat
        decreases eps.len(),
    {
        if eps.len() == 0 {
            0
        } else {
            Self::active_count(eps.drop_last()) + if eps.last().backend is Active { 1nat } else { 0nat }
        }
    }

    /// The status line of the endpoints.
    pub fn summary(&self) -> (r: String)
        ensures
            !self.spec_enabled() ==> r@ == "virtual serial disabled"@,
            self.spec_enabled() && self.spec_endpoints().len() == 0 ==> r@ == "virtual serial waiting for manifest"@,
            self.spec_enabled() && self.spec_endpoints().len() > 0 ==> r@ == "virtual serial "@
                + crate::text::decimal_chars(Self::active_count(self.spec_endpoints())) + "/"@
                + crate::text::decimal_chars(self.spec_endpoints().len()) + " endpoints"@,
    {
        if !self.enabled {
            return "virtual serial disabled".to_owned();
        }
        if self.endpoints.len() == 0 {
            return "virtual serial waiting for manifest".to_owned();
        }
        let mut active: usize = 0;
        let mut i: usize = 0;
        while i < self.endpoints.len()
            invariant
                i <= self.endpoints@.len(),
                active as nat == Self::active_count(self.endpoints@.subrange(0, i as int)),
                active <= i,
            decreases self.endpoints@.len() - i,
        {
            assert(self.endpoints@.subrange(0, i as int + 1).drop_last() =~= self.endpoints@.subrange(0, i as int));
            if let EndpointBackend::Active { .. } = &self.endpoints[i].backend {
                active = active + 1;
            }
            i = i + 1;
        }
        assert(self.endpoints@.subrange(0, i as int) =~= self.endpoints@);
        let mut out = "virtual serial ".to_owned();
        let a = decimal_string(active as u64);
        push_str(&mut out, a.as_str());
        push_str(&mut out, "/");
        let n = decimal_string(self.endpoints.len() as u64);
        push_str(&mut out, n.as_str());
        push_str(&mut out, " endpoints");
        out
    }

    /// The index of the first endpoint for the channel.
    pub open spec fn channel_index(eps: Seq<VirtualSerialEndpoint>, channel_id: u32) -> Option<int>
        decreases eps.len(),
    {
        if eps.len() == 0 {
            None
        } else {
            match Self::channel_index(eps.drop_last(), channel_id) {
                Some(i) => Some(i),
                None => if eps.last().channel_id == channel_id {
                    Some(eps.len() - 1)
                } else {
                    None
                },
            }
        }
    }

    fn find_channel(&self, channel_id: u32) -> (r: Option<usize>)
        ensures
            r matches Some(i) ==> Self::channel_index(self.spec_endpoints(), channel_id) == Some(i as int) && i < self.spec_endpoints().len(),
            r is None ==> Self::channel_index(self.spec_endpoints(), channel_id) is None,
    {
        let mut i: usize = 0;
        while i < self.endpoints.len()
            invariant
                i <= self.endpoints@.len(),
                Self::channel_index(self.endpoints@.subrange(0, i as int), channel_id) is None,
            decreases self.endpoints@.len() - i,
        {
            assert(self.endpoints@.subrange(0, i as int + 1).drop_last() =~= self.endpoints@.subrange(0, i as int));
            if self.endpoints[i].channel_id == channel_id {
                proof {
                    lemma_channel_index_prefix(self.endpoints@, channel_id, i as int + 1);
                }
                return Some(i);
            }
            i = i + 1;
        }
        assert(self.endpoints@.subrange(0, i as int) =~= self.endpoints@);
        None
    }

    /// The device path of the channel's endpoint while it is open.
    pub fn endpoint_path_for_channel(&self, channel_id: u32) -> (r: Option<String>)
        ensures
            match Self::channel_index(self.spec_endpoints(), channel_id) {
                Some(i) => match self.spec_endpoints()[i].backend {
                    EndpointBackend::Active { path, .. } => r matches Some(p) && p@ == path@,
                    _ => r is None,
                },
                None => r is None,
            },
    {
        match self.find_channel(channel_id) {
            Some(i) => match &self.endpoints[i].backend {
                EndpointBackend::Active { path, .. } => Some(path.clone()),
                _ => None,
            },
            None => None,
        }
    }

    /// Who owns the input of the channel's endpoint.
    pub fn input_owner(&self, channel_id: u32) -> (r: Option<VirtualSerialInputOwner>)
        ensures
            match Self::channel_index(self.spec_endpoints(), channel_id) {
                Some(i) => r == Some(self.spec_endpoints()[i].input_owner),
                None => r is None,
            },
    {
        match self.find_channel(channel_id) {
            Some(i) => Some(self.endpoints[i].input_owner),
            None => None,
        }
    }

    /// The index of the first input-capable endpoint for the channel.
    pub open spec fn input_index(eps: Seq<VirtualSerialEndpoint>, channel_id: u32) -> Option<int>
        decreases eps.len(),
    {
        if eps.len() == 0 {
            None
        } else {
            match Self::input_index(eps.drop_last(), channel_id) {
                Some(i) => Some(i),
                None => if eps.last().channel_id == channel_id && eps.last().input_capable {
                    Some(eps.len() - 1)
                } else {
                    None
                },
            }
        }
    }

    /// Hands the input of the channel's input-capable endpoint to the
    /// other owner, and returns the new owner.
    pub fn toggle_input_owner(&mut self, channel_id: u32) -> (r: Option<VirtualSerialInputOwner>)
        ensures
            final(self).spec_config() == old(self).spec_config(),
            final(self).spec_enabled() == old(self).spec_enabled(),
            final(self).spec_source_port() == old(self).spec_source_port(),
            match Self::input_index(old(self).spec_endpoints(), channel_id) {
                Some(i) => {
                    let e = old(self).spec_endpoints()[i];
                    let toggled = VirtualSerialEndpoint { input_owner: e.input_owner.toggled(), ..e };
                    r == Some(e.input_owner.toggled()) && final(self).spec_endpoints() == old(self).spec_endpoints().update(i, toggled)
                },
                None => r is None && final(self).spec_endpoints() == old(self).spec_endpoints(),
            },
            final(self).spec_endpoints() == toggled_endpoints(old(self).spec_endpoints(), channel_id),
    {
        let mut i: usize = 0;
        while i < self.endpoints.len()
            invariant
                i <= self.endpoints@.len(),
                self.endpoints@ == old(self).endpoints@,
                self.spec_config() == old(self).spec_config(),
                self.spec_enabled() == old(self).spec_enabled(),
                self.spec_source_port() == old(self).spec_source_port(),
                Self::input_index(self.endpoints@.subrange(0, i as int), channel_id) is None,
            decreases self.endpoints@.len() - i,
        {
            assert(self.endpoints@.subrange(0, i as int + 1).drop_last() =~= self.endpoints@.subrange(0, i as int));
            if self.endpoints[i].channel_id == channel_id && self.endpoints[i].input_capable {
                proof {
                    lemma_input_index_prefix(self.endpoints@, channel_id, i as int + 1);
                }
                let mut e = self.endpoints.remove(i);
                let ghost before = e;
                e.input_owner = match e.input_owner {
                    VirtualSerialInputOwner::Host => VirtualSerialInputOwner::VirtualSerial,
                    VirtualSerialInputOwner::VirtualSerial => VirtualSerialInputOwner::Host,
                };
                let owner = e.input_owner;
                self.endpoints.insert(i, e);
                assert(self.endpoints@ =~= old(self).endpoints@.update(i as int, VirtualSerialEndpoint { input_owner: before.input_owner.toggled(), ..before }));
                return Some(owner);
            }
            i = i + 1;
        }
        assert(self.endpoints@.subrange(0, i as int) =~= self.endpoints@);
        None
    }

    /// Queues a record for the channel's endpoint while it is open: text
    /// records with line feeds mapped for a terminal, other records as
    /// they are.
    pub fn write_output(&mut self, envelope: &MuxEnvelope)
        ensures
            final(self).spec_config() == old(self).spec_config(),
            final(self).spec_enabled() == old(self).spec_enabled(),
            final(self).spec_source_port() == old(self).spec_source_port(),
            final(self).spec_endpoints().len() == old(self).spec_endpoints().len(),
            !old(self).spec_enabled() ==> final(self).spec_endpoints() == old(self).spec_endpoints(),
            old(self).spec_enabled() ==> match Self::channel_index(old(self).spec_endpoints(), envelope.channel_id) {
                Some(i) => {
                    let e = old(self).spec_endpoints()[i];
                    let n = final(self).spec_endpoints()[i];
                    &&& forall|j: int| 0 <= j < old(self).spec_endpoints().len() && j != i
                        ==> final(self).spec_endpoints()[j] == old(self).spec_endpoints()[j]
                    &&& if e.backend is Active {
                        let (bytes, cr) = if envelope.kind == PAYLOAD_KIND_TEXT {
                            text_output(envelope.payload@, e.output_previous_was_cr, e.output_record_delimited)
                        } else {
                            (envelope.payload@, false)
                        };
                        let q = queued_len(e.output_pending@.len(), bytes.len());
                        &&& n.output_pending@ == e.output_pending@ + bytes.subrange(0, q as int)
                        &&& n.output_previous_was_cr == cr
                        &&& n.channel_id == e.channel_id && n.name == e.name && n.input_capable == e.input_capable
                        &&& n.input_owner == e.input_owner && n.backend == e.backend
                        &&& n.output_record_delimited == e.output_record_delimited
                    } else {
                        n == e
                    }
                },
                None => final(self).spec_endpoints() == old(self).spec_endpoints(),
            },
    {
        if !self.enabled {
            return;
        }
        let index = match self.find_channel(envelope.channel_id) {
            Some(i) => i,
            None => {
                return;
            },
        };
        let active = match &self.endpoints[index].backend {
            EndpointBackend::Active { .. } => true,
            _ => false,
        };
        if !active {
            return;
        }
        let mut e = self.endpoints.remove(index);
        if envelope.kind == PAYLOAD_KIND_TEXT {
            let mut cr = e.output_previous_was_cr;
            let output = terminal_text_output_bytes(envelope.payload.as_slice(), &mut cr, e.output_record_delimited);
            e.output_previous_was_cr = cr;
            e.enqueue_output(output.as_slice());
        } else {
            e.output_previous_was_cr = false;
            e.enqueue_output(envelope.payload.as_slice());
        }
        self.endpoints.insert(index, e);
    }

    /// Records what opening the device of endpoint `index` gave.
    pub fn set_backend(&mut self, index: usize, backend: EndpointBackend)
        requires
            index < old(self).spec_endpoints().len(),
        ensures
            final(self).spec_config() == old(self).spec_config(),
            final(self).spec_enabled() == old(self).spec_enabled(),
            final(self).spec_source_port() == old(self).spec_source_port(),
            final(self).spec_endpoints() == old(self).spec_endpoints().update(index as int,
                VirtualSerialEndpoint { backend, ..old(self).spec_endpoints()[index as int] }),
    {
        let mut e = self.endpoints.remove(index);
        let ghost before = e;
        e.backend = backend;
        self.endpoints.insert(index, e);
        assert(self.endpoints@ =~= old(self).endpoints@.update(index as int, VirtualSerialEndpoint { backend, ..before }));
    }

    /// Records that the device of endpoint `index` took `written` queued
    /// bytes.
    pub fn output_written(&mut self, index: usize, written: usize)
        requires
            index < old(self).spec_endpoints().len(),
            written <= old(self).spec_endpoints()[index as int].output_pending@.len(),
        ensures
            final(self).spec_config() == old(self).spec_config(),
            final(self).spec_enabled() == old(self).spec_enabled(),
            final(self).spec_source_port() == old(self).spec_source_port(),
            final(self).spec_endpoints().len() == old(self).spec_endpoints().len(),
            forall|j: int| 0 <= j < old(self).spec_endpoints().len() && j != index
                ==> final(self).spec_endpoints()[j] == old(self).spec_endpoints()[j],
            ({
                let e = old(self).spec_endpoints()[index as int];
                let n = final(self).spec_endpoints()[index as int];
                &&& n.output_pending@ == e.output_pending@.subrange(written as int, e.output_pending@.len() as int)
                &&& n.channel_id == e.channel_id && n.name == e.name && n.backend == e.backend
                &&& n.input_owner == e.input_owner && n.input_capable == e.input_capable
            }),
    {
        let mut e = self.endpoints.remove(index);
        e.output_written(written);
        self.endpoints.insert(index, e);
    }

    /// What to do with `payload` read from endpoint `index`: forward it
    /// to the channel when the endpoint takes input, owns it and the
    /// channel fits a host input frame; else discard it, saying why.
    pub fn input_event(&self, index: usize, payload: &[u8]) -> (r: VirtualSerialInputEvent)
        requires
            index < self.spec_endpoints().len(),
        ensures
            input_event_for(self.spec_endpoints()[index as int], payload@, r),
    {
        let e = &self.endpoints[index];
        if !e.input_capable {
            return VirtualSerialInputEvent::Discarded {
                channel_id: e.channel_id,
                reason: "channel is output-only".to_owned(),
                bytes: payload.len(),
            };
        }
        if e.input_owner != VirtualSerialInputOwner::VirtualSerial {
            return VirtualSerialInputEvent::Discarded {
                channel_id: e.channel_id,
                reason: "host owns input".to_owned(),
                bytes: payload.len(),
            };
        }
        if e.channel_id > 255 {
            return VirtualSerialInputEvent::Discarded {
                channel_id: e.channel_id,
                reason: "channel id exceeds host input frame range".to_owned(),
                bytes: payload.len(),
            };
        }
        let bytes = crate::wire::copy_range(payload, 0, payload.len());
        assert(bytes@ =~= payload@);
        VirtualSerialInputEvent::Forward { channel_id: e.channel_id as u8, payload: bytes }
    }

    /// The events for what was read from the endpoints, in the order read:
    /// none while the broker is disabled, else one for each read, as
    /// `input_event` decides it. Each read names the endpoint it came from
    /// and holds the bytes, at least one, that one read returned.
    pub fn poll_input(&self, reads: &[(usize, Vec<u8>)]) -> (r: Vec<VirtualSerialInputEvent>)
        requires
            forall|k: int| 0 <= k < reads@.len() ==> #[trigger] reads@[k].0 < self.spec_endpoints().len(),
        ensures
            !self.spec_enabled() ==> r@.len() == 0,
            self.spec_enabled() ==> r@.len() == reads@.len(),
            self.spec_enabled() ==> forall|k: int| 0 <= k < reads@.len()
                ==> input_event_for(self.spec_endpoints()[#[trigger] reads@[k].0 as int], reads@[k].1@, r@[k]),
    {
        let mut events: Vec<VirtualSerialInputEvent> = Vec::new();
        if !self.enabled {
            return events;
        }
        let mut i: usize = 0;
        while i < reads.len()
            invariant
                self.spec_enabled(),
                i <= reads@.len(),
                events@.len() == i,
                forall|k: int| 0 <= k < reads@.len() ==> #[trigger] reads@[k].0 < self.spec_endpoints().len(),
                forall|k: int| 0 <= k < i
                    ==> input_event_for(self.spec_endpoints()[#[trigger] reads@[k].0 as int], reads@[k].1@, events@[k]),
            decreases reads@.len() - i,
        {
            let (index, payload) = &reads[i];
            let ev = self.input_event(*index, payload.as_slice());
            events.push(ev);
            i = i + 1;
        }
        events
    }
}

/// What becomes of `payload` read from endpoint `e`: it goes to the
/// channel when the endpoint takes input, owns it and the channel fits a
/// host input frame; else it is discarded, saying why.
pub open spec fn input_event_for(e: VirtualSerialEndpoint, payload: Seq<u8>, r: VirtualSerialInputEvent) -> bool {
    if !e.input_capable {
        r matches VirtualSerialInputEvent::Discarded { channel_id, reason, bytes }
            && channel_id == e.channel_id && reason@ == "channel is output-only"@ && bytes == payload.len()
    } else if e.input_owner != VirtualSerialInputOwner::VirtualSerial {
        r matches VirtualSerialInputEvent::Discarded { channel_id, reason, bytes }
            && channel_id == e.channel_id && reason@ == "host owns input"@ && bytes == payload.len()
    } else if e.channel_id > 255 {
        r matches VirtualSerialInputEvent::Discarded { channel_id, reason, bytes }
            && channel_id == e.channel_id && reason@ == "channel id exceeds host input frame range"@
            && bytes == payload.len()
    } else {
        r matches VirtualSerialInputEvent::Forward { channel_id, payload: p }
            && channel_id == e.channel_id && p@ == payload
    }
}

proof fn lemma_channel_index_prefix(eps: Seq<VirtualSerialEndpoint>, channel_id: u32, k: int)
    requires
        0 <= k <= eps.len(),
    ensures
        VirtualSerialBroker::channel_index(eps.subrange(0, k), channel_id) matches Some(i)
            ==> VirtualSerialBroker::channel_index(eps, channel_id) == Some(i),
        VirtualSerialBroker::channel_index(eps, channel_id) matches Some(i) ==> 0 <= i < eps.len() && eps[i].channel_id == channel_id,
    decreases eps.len(),
{
    if eps.len() > 0 {
        if k == eps.len() {
            assert(eps.subrange(0, k) =~= eps);
        } else {
            assert(eps.drop_last().subrange(0, k) =~= eps.subrange(0, k));
            lemma_channel_index_prefix(eps.drop_last(), channel_id, k);
        }
        lemma_channel_index_prefix(eps.drop_last(), channel_id, eps.len() - 1);
    } else {
        assert(eps.subrange(0, k) =~= eps);
    }
}

proof fn lemma_input_index_prefix(eps: Seq<VirtualSerialEndpoint>, channel_id: u32, k: int)
    requires
        0 <= k <= eps.len(),
    ensures
        VirtualSerialBroker::input_index(eps.subrange(0, k), channel_id) matches Some(i)
            ==> VirtualSerialBroker::input_index(eps, channel_id) == Some(i),
    decreases eps.len(),
{
    if eps.len() > 0 {
        if k == eps.len() {
            assert(eps.subrange(0, k) =~= eps);
        } else {
            assert(eps.drop_last().subrange(0, k) =~= eps.subrange(0, k));
            lemma_input_index_prefix(eps.drop_last(), channel_id, k);
        }
    } else {
        assert(eps.subrange(0, k) =~= eps);
    }
}

/// Toggling the input owner of a channel twice restores it.
pub proof fn lemma_toggle_twice(owner: VirtualSerialInputOwner)
    ensures
        owner.toggled().toggled() == owner,
        owner.toggled() != owner,
{
}

// ---------------------------------------------------------------------
// Laws of syncing and of input ownership

/// The endpoints still to be reused come from the old ones, and hold
/// every old endpoint that no spec before the `i`-th asks for.
proof fn lemma_sync_remaining(old: Seq<VirtualSerialEndpoint>, specs: Seq<EndpointSpecView>, i: nat)
    requires
        i <= specs.len(),
    ensures
        forall|x: VirtualSerialEndpoint| #[trigger] sync_remaining(old, specs, i).contains(x) ==> old.contains(x),
        forall|j: int| 0 <= j < old.len() && (forall|k: int| 0 <= k < i ==> !endpoint_matches(old[j], #[trigger] specs[k]))
            ==> #[trigger] sync_remaining(old, specs, i).contains(old[j]),
    decreases i,
{
    if i > 0 {
        let p = (i - 1) as nat;
        lemma_sync_remaining(old, specs, p);
        let r = sync_remaining(old, specs, p);
        lemma_first_match_prefix(r, specs[p as int], r.len() as int);
        match first_match(r, specs[p as int]) {
            Some(m) => {
                let r2 = swap_removed(r, m);
                assert forall|x: VirtualSerialEndpoint| #[trigger] r2.contains(x) implies old.contains(x) by {
                    let t = choose|t: int| 0 <= t < r2.len() && r2[t] == x;
                    if t == m {
                        assert(r.contains(r.last()));
                    } else {
                        assert(r[t] == x);
                        assert(r.contains(x));
                    }
                }
                assert forall|j: int| 0 <= j < old.len() && (forall|k: int| 0 <= k < i ==> !endpoint_matches(old[j], #[trigger] specs[k]))
                    implies #[trigger] r2.contains(old[j]) by {
                    assert(!endpoint_matches(old[j], specs[p as int]));
                    assert forall|k: int| 0 <= k < p implies !endpoint_matches(old[j], #[trigger] specs[k]) by {}
                    assert(r.contains(old[j]));
                    let t = choose|t: int| 0 <= t < r.len() && r[t] == old[j];
                    assert(t != m);
                    if t == r.len() - 1 {
                        assert(r2[m] == old[j]);
                    } else {
                        assert(r2[t] == old[j]);
                    }
                }
            },
            None => {
                assert forall|j: int| 0 <= j < old.len() && (forall|k: int| 0 <= k < i ==> !endpoint_matches(old[j], #[trigger] specs[k]))
                    implies #[trigger] r.contains(old[j]) by {
                    assert forall|k: int| 0 <= k < p implies !endpoint_matches(old[j], #[trigger] specs[k]) by {}
                }
            },
        }
    }
}

/// Syncing to a manifest: one endpoint per channel, in the manifest's
/// order, each as the channel asks (id, name, input, delimiting). Each is
/// an old endpoint kept whole (its input owner, queued output and device)
/// or a fresh one owned by the host with nothing queued; a fresh one
/// when no old endpoint fits, and an old one when one fits and no
/// channel before asks for the same. Old endpoints that fit no channel are
/// dropped.
pub proof fn lemma_synced_endpoints(result: Seq<VirtualSerialEndpoint>, old: Seq<VirtualSerialEndpoint>, specs: Seq<EndpointSpecView>)
    requires
        synced(result, old, specs),
    ensures
        result.len() == specs.len(),
        forall|i: int| 0 <= i < specs.len() ==> endpoint_matches(#[trigger] result[i], specs[i]),
        forall|i: int| 0 <= i < specs.len() ==> old.contains(#[trigger] result[i]) || is_fresh_for(result[i], specs[i]),
        forall|i: int| 0 <= i < specs.len() && (forall|j: int| 0 <= j < old.len() ==> !endpoint_matches(#[trigger] old[j], specs[i]))
            ==> is_fresh_for(#[trigger] result[i], specs[i]),
        forall|i: int, j: int| 0 <= i < specs.len() && 0 <= j < old.len() && endpoint_matches(#[trigger] old[j], #[trigger] specs[i])
            && (forall|k: int| 0 <= k < i ==> #[trigger] specs[k] != specs[i])
            ==> old.contains(result[i]),
{
    assert forall|i: int| 0 <= i < specs.len() implies endpoint_matches(#[trigger] result[i], specs[i])
        && (old.contains(result[i]) || is_fresh_for(result[i], specs[i]))
        && ((forall|j: int| 0 <= j < old.len() ==> !endpoint_matches(#[trigger] old[j], specs[i])) ==> is_fresh_for(result[i], specs[i]))
        && (forall|j: int| 0 <= j < old.len() && endpoint_matches(#[trigger] old[j], specs[i])
            && (forall|k: int| 0 <= k < i ==> #[trigger] specs[k] != specs[i]) ==> old.contains(result[i])) by {
        assert(sync_entry(result[i], old, specs, i as nat));
        lemma_sync_remaining(old, specs, i as nat);
        let r = sync_remaining(old, specs, i as nat);
        lemma_first_match_prefix(r, specs[i], r.len() as int);
        match first_match(r, specs[i]) {
            Some(m) => {
                assert(r.contains(r[m]));
                if forall|j: int| 0 <= j < old.len() ==> !endpoint_matches(#[trigger] old[j], specs[i]) {
                    let t = choose|t: int| 0 <= t < old.len() && old[t] == r[m];
                    assert(endpoint_matches(old[t], specs[i]));
                }
            },
            None => {
                assert forall|j: int| 0 <= j < old.len() && endpoint_matches(#[trigger] old[j], specs[i])
                    && (forall|k: int| 0 <= k < i ==> #[trigger] specs[k] != specs[i]) implies old.contains(result[i]) by {
                    assert forall|k: int| 0 <= k < i implies !endpoint_matches(old[j], #[trigger] specs[k]) by {
                        if endpoint_matches(old[j], specs[k]) {
                            assert(specs[k] == specs[i]);
                        }
                    }
                    assert(r.contains(old[j]));
                    let t = choose|t: int| 0 <= t < r.len() && r[t] == old[j];
                    assert(endpoint_matches(r[t], specs[i]));
                }
            },
        }
    }
}

/// The endpoints after handing the input of the channel's input-capable
/// endpoint to the other owner; unchanged when it has none.
pub open spec fn toggled_endpoints(eps: Seq<VirtualSerialEndpoint>, channel_id: u32) -> Seq<VirtualSerialEndpoint> {
    match VirtualSerialBroker::input_index(eps, channel_id) {
        Some(i) => eps.update(i, VirtualSerialEndpoint { input_owner: eps[i].input_owner.toggled(), ..eps[i] }),
        None => eps,
    }
}

/// Which endpoint takes input does not depend on who owns it.
proof fn lemma_input_index_owner(eps: Seq<VirtualSerialEndpoint>, other: Seq<VirtualSerialEndpoint>, channel_id: u32)
    requires
        eps.len() == other.len(),
        forall|k: int| #![trigger eps[k]] 0 <= k < eps.len() ==> eps[k].channel_id == other[k].channel_id
            && eps[k].input_capable == other[k].input_capable,
    ensures
        VirtualSerialBroker::input_index(eps, channel_id) == VirtualSerialBroker::input_index(other, channel_id),
    decreases eps.len(),
{
    if eps.len() > 0 {
        assert forall|k: int| #![trigger eps.drop_last()[k]] 0 <= k < eps.drop_last().len() implies eps.drop_last()[k].channel_id == other.drop_last()[k].channel_id
            && eps.drop_last()[k].input_capable == other.drop_last()[k].input_capable by {
            assert(eps.drop_last()[k] == eps[k]);
            assert(other.drop_last()[k] == other[k]);
            assert(eps[k].channel_id == other[k].channel_id && eps[k].input_capable == other[k].input_capable);
        }
        lemma_input_index_owner(eps.drop_last(), other.drop_last(), channel_id);
        let n = eps.len() - 1;
        assert(eps[n].channel_id == other[n].channel_id && eps[n].input_capable == other[n].input_capable);
        assert(eps.last() == eps[n]);
        assert(other.last() == other[n]);
    }
}

/// Handing input over twice gives it back: toggling a channel twice
/// restores every endpoint, and a channel with no input-capable endpoint
/// (an output-only one) is never handed to virtual serial.
pub proof fn lemma_toggle_input_owner_twice(eps: Seq<VirtualSerialEndpoint>, channel_id: u32)
    ensures
        toggled_endpoints(toggled_endpoints(eps, channel_id), channel_id) == eps,
        VirtualSerialBroker::input_index(eps, channel_id) is None ==> toggled_endpoints(eps, channel_id) == eps,
        VirtualSerialBroker::input_index(eps, channel_id) matches Some(i)
            ==> toggled_endpoints(eps, channel_id)[i].input_owner != eps[i].input_owner,
{
    let once = toggled_endpoints(eps, channel_id);
    match VirtualSerialBroker::input_index(eps, channel_id) {
        Some(i) => {
            lemma_input_index_in_range(eps, channel_id);
            assert forall|k: int| #![trigger eps[k]] 0 <= k < eps.len() implies eps[k].channel_id == once[k].channel_id
                && eps[k].input_capable == once[k].input_capable by {}
            lemma_input_index_owner(eps, once, channel_id);
            lemma_toggle_twice(eps[i].input_owner);
            assert(toggled_endpoints(once, channel_id) =~= eps);
        },
        None => {},
    }
}

/// The input index names an endpoint of the list.
proof fn lemma_input_index_in_range(eps: Seq<VirtualSerialEndpoint>, channel_id: u32)
    ensures
        VirtualSerialBroker::input_index(eps, channel_id) matches Some(i) ==> 0 <= i < eps.len(),
    decreases eps.len(),
{
    if eps.len() > 0 {
        lemma_input_index_in_range(eps.drop_last(), channel_id);
    }
}

} // verus!
