//! The Espressif enhanced bridge: an endpoint that mirrors mux output for a
//! monitor and hands the serial port to esptool once it sees esptool's
//! SLIP-framed sync command.
use vstd::prelude::*;
use crate::envelope::{MuxEnvelope, PAYLOAD_KIND_TEXT};
use crate::host_session::push_decimal_str;
use crate::interactive::path_file_name;
use crate::manifest::DeviceManifest;
use crate::text::{push_str, str_chars, str_bytes};
use crate::virtual_serial::terminal_text_output_bytes;
use crate::wire::{copy_range, extend_bytes};

verus! {

pub const SLIP_END: u8 = 0xc0;
pub const SLIP_ESC: u8 = 0xdb;
pub const SLIP_ESC_END: u8 = 0xdc;
pub const SLIP_ESC_ESC: u8 = 0xdd;
pub const ESPTOOL_REQUEST: u8 = 0x00;
pub const ESPTOOL_SYNC: u8 = 0x08;
pub const ESPTOOL_FLASH_BEGIN: u8 = 0x02;
pub const ESPTOOL_FLASH_DATA: u8 = 0x03;
pub const ESPTOOL_FLASH_END: u8 = 0x04;
pub const ESPTOOL_CHANGE_BAUDRATE: u8 = 0x0f;
pub const ESPTOOL_SYNC_PREFIX: [u8; 4] = [0x07, 0x07, 0x12, 0x20];
pub const ESP_ENHANCED_ENDPOINT_NAME: &'static str = "wiremux-esp-enhanced";
pub const PENDING_INPUT_LIMIT: usize = 65536;

// ---------------------------------------------------------------------
// SLIP frames

/// The state of a SLIP frame reader: inside a frame, after an escape, and
/// the frame bytes so far.
pub struct SlipState {
    pub in_frame: bool,
    pub escaped: bool,
    pub frame: Seq<u8>,
}

/// One byte through a SLIP reader: the new state and the frame it ends.
pub open spec fn slip_step(st: SlipState, byte: u8) -> (SlipState, Option<Seq<u8>>) {
    if byte == SLIP_END {
        (SlipState { in_frame: true, escaped: false, frame: Seq::empty() },
         if st.in_frame && st.frame.len() > 0 { Some(st.frame) } else { None })
    } else if byte == SLIP_ESC && st.in_frame {
        (SlipState { escaped: true, ..st }, None)
    } else if st.escaped {
        if byte == SLIP_ESC_END {
            (SlipState { escaped: false, frame: st.frame.push(SLIP_END), ..st }, None)
        } else if byte == SLIP_ESC_ESC {
            (SlipState { escaped: false, frame: st.frame.push(SLIP_ESC), ..st }, None)
        } else {
            (SlipState { in_frame: false, escaped: false, frame: Seq::empty() }, None)
        }
    } else if st.in_frame {
        (SlipState { frame: st.frame.push(byte), ..st }, None)
    } else {
        (st, None)
    }
}

/// Bytes through a SLIP reader: the new state and the frames they end.
pub open spec fn slip_feed(st: SlipState, bytes: Seq<u8>) -> (SlipState, Seq<Seq<u8>>)
    decreases bytes.len(),
{
    if bytes.len() == 0 {
        (st, Seq::empty())
    } else {
        let (mid, frames) = slip_feed(st, bytes.drop_last());
        let (next, done) = slip_step(mid, bytes.last());
        (next, match done {
            Some(f) => frames.push(f),
            None => frames,
        })
    }
}

/// A reader that splits a byte stream into SLIP frames.
#[derive(Debug)]
pub struct SlipFrameReader {
    in_frame: bool,
    escaped: bool,
    frame: Vec<u8>,
}

impl Default for SlipFrameReader {
    fn default() -> (r: Self)
        ensures
            r.state() == (SlipState { in_frame: false, escaped: false, frame: Seq::empty() }),
    {
        SlipFrameReader { in_frame: false, escaped: false, frame: Vec::new() }
    }
}

impl SlipFrameReader {
    pub closed spec fn state(&self) -> SlipState {
        SlipState { in_frame: self.in_frame, escaped: self.escaped, frame: self.frame@ }
    }

    pub fn reset(&mut self)
        ensures
            final(self).state() == (SlipState { in_frame: false, escaped: false, frame: Seq::empty() }),
    {
        self.in_frame = false;
        self.escaped = false;
        self.frame.clear();
    }

    /// The frames that `bytes` complete.
    pub fn feed(&mut self, bytes: &[u8]) -> (r: Vec<Vec<u8>>)
        ensures
            (final(self).state(), r@.map_values(|f: Vec<u8>| f@)) == slip_feed(old(self).state(), bytes@),
    {
        let mut frames: Vec<Vec<u8>> = Vec::new();
        let mut i: usize = 0;
        while i < bytes.len()
            invariant
                i <= bytes@.len(),
                (self.state(), frames@.map_values(|f: Vec<u8>| f@)) == slip_feed(old(self).state(), bytes@.subrange(0, i as int)),
            decreases bytes@.len() - i,
        {
            let byte = bytes[i];
            let ghost before = frames@.map_values(|f: Vec<u8>| f@);
            assert(bytes@.subrange(0, i as int + 1).drop_last() =~= bytes@.subrange(0, i as int));
            if byte == SLIP_END {
                if self.in_frame && self.frame.len() > 0 {
                    let mut done: Vec<u8> = Vec::new();
                    std::mem::swap(&mut done, &mut self.frame);
                    frames.push(done);
                    assert(frames@.map_values(|f: Vec<u8>| f@) =~= before.push(frames@.last()@));
                }
                self.in_frame = true;
                self.escaped = false;
                self.frame.clear();
            } else if byte == SLIP_ESC && self.in_frame {
                self.escaped = true;
            } else if self.escaped {
                self.escaped = false;
                if byte == SLIP_ESC_END {
                    self.frame.push(SLIP_END);
                } else if byte == SLIP_ESC_ESC {
                    self.frame.push(SLIP_ESC);
                } else {
                    self.in_frame = false;
                    self.frame.clear();
                }
            } else if self.in_frame {
                self.frame.push(byte);
            }
            i = i + 1;
        }
        assert(bytes@.subrange(0, i as int) =~= bytes@);
        frames
    }
}

/// A payload as one SLIP frame: `END`, the bytes with `END` and `ESC`
/// escaped, `END`.
pub open spec fn slip_body(payload: Seq<u8>) -> Seq<u8>
    decreases payload.len(),
{
    if payload.len() == 0 {
        Seq::empty()
    } else {
        slip_body(payload.drop_last()) + if payload.last() == SLIP_END {
            seq![SLIP_ESC, SLIP_ESC_END]
        } else if payload.last() == SLIP_ESC {
            seq![SLIP_ESC, SLIP_ESC_ESC]
        } else {
            seq![payload.last()]
        }
    }
}

pub open spec fn slip_encode(payload: Seq<u8>) -> Seq<u8> {
    seq![SLIP_END] + slip_body(payload) + seq![SLIP_END]
}

proof fn lemma_slip_feed_append(st: SlipState, a: Seq<u8>, b: Seq<u8>)
    ensures
        slip_feed(st, a + b) == ({
            let (mid, fa) = slip_feed(st, a);
            let (end, fb) = slip_feed(mid, b);
            (end, fa + fb)
        }),
    decreases b.len(),
{
    if b.len() == 0 {
        assert(a + b =~= a);
        let (mid, fa) = slip_feed(st, a);
        assert(fa + Seq::<Seq<u8>>::empty() =~= fa);
    } else {
        assert((a + b).drop_last() =~= a + b.drop_last());
        lemma_slip_feed_append(st, a, b.drop_last());
        let (mid, fa) = slip_feed(st, a);
        let (m2, fb) = slip_feed(mid, b.drop_last());
        let (next, done) = slip_step(m2, b.last());
        match done {
            Some(f) => assert(fa + fb.push(f) =~= (fa + fb).push(f)),
            None => {},
        }
    }
}

proof fn lemma_slip_feed_one(st: SlipState, b: u8)
    ensures
        slip_feed(st, seq![b]) == (slip_step(st, b).0, match slip_step(st, b).1 {
            Some(f) => seq![f],
            None => Seq::<Seq<u8>>::empty(),
        }),
{
    assert(seq![b].drop_last() =~= Seq::<u8>::empty());
    assert(seq![b].last() == b);
    assert(slip_feed(st, Seq::<u8>::empty()) == (st, Seq::<Seq<u8>>::empty()));
    match slip_step(st, b).1 {
        Some(f) => assert(Seq::<Seq<u8>>::empty().push(f) =~= seq![f]),
        None => {},
    }
}

proof fn lemma_slip_body(payload: Seq<u8>)
    ensures
        slip_feed(SlipState { in_frame: true, escaped: false, frame: Seq::empty() }, slip_body(payload))
            == (SlipState { in_frame: true, escaped: false, frame: payload }, Seq::<Seq<u8>>::empty()),
    decreases payload.len(),
{
    let start = SlipState { in_frame: true, escaped: false, frame: Seq::<u8>::empty() };
    if payload.len() == 0 {
        assert(slip_body(payload) =~= Seq::<u8>::empty());
        assert(payload =~= Seq::<u8>::empty());
    } else {
        let prev = payload.drop_last();
        let c = payload.last();
        lemma_slip_body(prev);
        let tail = if c == SLIP_END {
            seq![SLIP_ESC, SLIP_ESC_END]
        } else if c == SLIP_ESC {
            seq![SLIP_ESC, SLIP_ESC_ESC]
        } else {
            seq![c]
        };
        assert(slip_body(payload) == slip_body(prev) + tail);
        lemma_slip_feed_append(start, slip_body(prev), tail);
        let mid = SlipState { in_frame: true, escaped: false, frame: prev };
        let done = SlipState { in_frame: true, escaped: false, frame: payload };
        assert(prev.push(c) =~= payload);
        if c == SLIP_END || c == SLIP_ESC {
            let second = if c == SLIP_END { SLIP_ESC_END } else { SLIP_ESC_ESC };
            assert(tail =~= seq![SLIP_ESC] + seq![second]);
            lemma_slip_feed_append(mid, seq![SLIP_ESC], seq![second]);
            lemma_slip_feed_one(mid, SLIP_ESC);
            let esc = SlipState { escaped: true, ..mid };
            lemma_slip_feed_one(esc, second);
            assert(slip_feed(mid, tail) == (done, Seq::<Seq<u8>>::empty() + Seq::<Seq<u8>>::empty()));
            assert(Seq::<Seq<u8>>::empty() + Seq::<Seq<u8>>::empty() =~= Seq::<Seq<u8>>::empty());
        } else {
            lemma_slip_feed_one(mid, c);
        }
        assert(Seq::<Seq<u8>>::empty() + Seq::<Seq<u8>>::empty() =~= Seq::<Seq<u8>>::empty());
    }
}

/// A payload sent as one SLIP frame comes out of a fresh reader as that
/// frame, when it is not empty.
pub proof fn lemma_slip_round_trip(payload: Seq<u8>)
    requires
        payload.len() > 0,
    ensures
        slip_feed(SlipState { in_frame: false, escaped: false, frame: Seq::empty() }, slip_encode(payload)).1 == seq![payload],
{
    let fresh = SlipState { in_frame: false, escaped: false, frame: Seq::<u8>::empty() };
    let start = SlipState { in_frame: true, escaped: false, frame: Seq::<u8>::empty() };
    lemma_slip_body(payload);
    lemma_slip_feed_append(fresh, seq![SLIP_END], slip_body(payload));
    lemma_slip_feed_append(fresh, seq![SLIP_END] + slip_body(payload), seq![SLIP_END]);
    lemma_slip_feed_one(fresh, SLIP_END);
    let mid = SlipState { in_frame: true, escaped: false, frame: payload };
    lemma_slip_feed_one(mid, SLIP_END);
    assert(Seq::<Seq<u8>>::empty() + Seq::<Seq<u8>>::empty() =~= Seq::<Seq<u8>>::empty());
    assert(Seq::<Seq<u8>>::empty() + seq![payload] =~= seq![payload]);
}

// ---------------------------------------------------------------------
// esptool commands

/// A command of esptool's serial protocol.
#[derive(Debug, Clone, PartialEq, Eq)]
pub struct EsptoolCommand {
    pub opcode: u8,
    pub payload: Vec<u8>,
}

/// The payload size in a command header.
pub open spec fn header_size(frame: Seq<u8>) -> int {
    frame[2] + 256 * frame[3]
}

/// Whether a frame is a sync command with esptool's sync pattern.
pub open spec fn sync_frame(frame: Seq<u8>) -> bool {
    &&& frame.len() >= 12
    &&& header_size(frame) >= 4
    &&& frame.len() >= 8 + header_size(frame)
    &&& frame.subrange(8, 12) == seq![0x07u8, 0x07u8, 0x12u8, 0x20u8]
}

/// The command a frame holds: a request with a complete payload, where a
/// sync request must carry the sync pattern.
pub open spec fn command_of_frame(frame: Seq<u8>) -> Option<(u8, Seq<u8>)> {
    if frame.len() < 8 || frame[0] != ESPTOOL_REQUEST {
        None
    } else if frame.len() < 8 + header_size(frame) {
        None
    } else if frame[1] == ESPTOOL_SYNC && !sync_frame(frame) {
        None
    } else {
        Some((frame[1], frame.subrange(8, 8 + header_size(frame))))
    }
}

pub fn is_sync_frame(frame: &[u8]) -> (r: bool)
    ensures
        r == sync_frame(frame@),
{
    if frame.len() < 12 {
        return false;
    }
    let size = frame[2] as usize + (frame[3] as usize) * 256;
    if size < 4 || frame.len() - 8 < size {
        return false;
    }
    let same = frame[8] == 0x07 && frame[9] == 0x07 && frame[10] == 0x12 && frame[11] == 0x20;
    assert(same == (frame@.subrange(8, 12) == seq![0x07u8, 0x07u8, 0x12u8, 0x20u8])) by {
        if same {
            assert(frame@.subrange(8, 12) =~= seq![0x07u8, 0x07u8, 0x12u8, 0x20u8]);
        } else {
            if frame@.subrange(8, 12) == seq![0x07u8, 0x07u8, 0x12u8, 0x20u8] {
                assert(frame@.subrange(8, 12)[0] == frame@[8]);
                assert(frame@.subrange(8, 12)[1] == frame@[9]);
                assert(frame@.subrange(8, 12)[2] == frame@[10]);
                assert(frame@.subrange(8, 12)[3] == frame@[11]);
            }
        }
    }
    same
}

/// The command in a frame, if it holds one.
pub fn esptool_command(frame: &[u8]) -> (r: Option<EsptoolCommand>)
    ensures
        match command_of_frame(frame@) {
            Some((op, payload)) => r matches Some(c) && c.opcode == op && c.payload@ == payload,
            None => r is None,
        },
{
    if frame.len() < 8 || frame[0] != ESPTOOL_REQUEST {
        return None;
    }
    let command = frame[1];
    let size = frame[2] as usize + (frame[3] as usize) * 256;
    if frame.len() - 8 < size {
        return None;
    }
    if command == ESPTOOL_SYNC && !is_sync_frame(frame) {
        return None;
    }
    Some(EsptoolCommand { opcode: command, payload: copy_range(frame, 8, 8 + size) })
}

/// The commands among frames.
pub open spec fn commands_of(frames: Seq<Seq<u8>>) -> Seq<(u8, Seq<u8>)>
    decreases frames.len(),
{
    if frames.len() == 0 {
        Seq::empty()
    } else {
        commands_of(frames.drop_last()) + match command_of_frame(frames.last()) {
            Some(c) => seq![c],
            None => Seq::empty(),
        }
    }
}

/// The views of commands.
pub open spec fn commands_view(cmds: Seq<EsptoolCommand>) -> Seq<(u8, Seq<u8>)> {
    cmds.map_values(|c: EsptoolCommand| (c.opcode, c.payload@))
}

/// Finds esptool commands in a SLIP byte stream.
#[derive(Debug, Default)]
pub struct EsptoolSlipClassifier {
    reader: SlipFrameReader,
}

impl EsptoolSlipClassifier {
    pub closed spec fn state(&self) -> SlipState {
        self.reader.state()
    }

    pub fn new() -> (r: Self)
        ensures
            r.state() == (SlipState { in_frame: false, escaped: false, frame: Seq::empty() }),
    {
        EsptoolSlipClassifier { reader: SlipFrameReader::default() }
    }

    pub fn reset(&mut self)
        ensures
            final(self).state() == (SlipState { in_frame: false, escaped: false, frame: Seq::empty() }),
    {
        self.reader.reset();
    }

    /// The commands in the frames that `bytes` complete.
    pub fn feed(&mut self, bytes: &[u8]) -> (r: Vec<EsptoolCommand>)
        ensures
            final(self).state() == slip_feed(old(self).state(), bytes@).0,
            commands_view(r@) == commands_of(slip_feed(old(self).state(), bytes@).1),
    {
        let frames = self.reader.feed(bytes);
        let ghost fv = frames@.map_values(|f: Vec<u8>| f@);
        let mut out: Vec<EsptoolCommand> = Vec::new();
        let mut i: usize = 0;
        while i < frames.len()
            invariant
                i <= frames@.len(),
                fv == frames@.map_values(|f: Vec<u8>| f@),
                commands_view(out@) == commands_of(fv.subrange(0, i as int)),
            decreases frames@.len() - i,
        {
            assert(fv.subrange(0, i as int + 1).drop_last() =~= fv.subrange(0, i as int));
            assert(fv[i as int] == frames@[i as int]@);
            let ghost before = commands_view(out@);
            match esptool_command(frames[i].as_slice()) {
                Some(c) => {
                    out.push(c);
                    assert(commands_view(out@) =~= before.push((out@.last().opcode, out@.last().payload@)));
                },
                None => {},
            }
            assert(commands_view(out@) =~= commands_of(fv.subrange(0, i as int + 1)));
            i = i + 1;
        }
        assert(fv.subrange(0, i as int) =~= fv);
        out
    }
}

/// Whether an opcode writes flash.
pub fn is_flash_command(command: u8) -> (r: bool)
    ensures
        r == (command == ESPTOOL_FLASH_BEGIN || command == ESPTOOL_FLASH_DATA || command == ESPTOOL_FLASH_END),
{
    command == ESPTOOL_FLASH_BEGIN || command == ESPTOOL_FLASH_DATA || command == ESPTOOL_FLASH_END
}

/// The baud rate a change-baud command asks for: the first four payload
/// bytes, little endian, when not zero.
pub open spec fn requested_baud(opcode: u8, payload: Seq<u8>) -> Option<u32> {
    if opcode != ESPTOOL_CHANGE_BAUDRATE || payload.len() < 4 {
        None
    } else {
        let baud = payload[0] + 256 * payload[1] + 65536 * payload[2] + 16777216 * payload[3];
        if baud > 0 { Some(baud as u32) } else { None }
    }
}

pub fn change_baud_rate(command: &EsptoolCommand) -> (r: Option<u32>)
    ensures
        r == requested_baud(command.opcode, command.payload@),
{
    if command.opcode != ESPTOOL_CHANGE_BAUDRATE || command.payload.len() < 4 {
        return None;
    }
    let baud = command.payload[0] as u32 + (command.payload[1] as u32) * 256 + (command.payload[2] as u32) * 65536
        + (command.payload[3] as u32) * 16777216;
    if baud > 0 {
        Some(baud)
    } else {
        None
    }
}

/// Whether output ends a line.
pub fn ends_with_newline(bytes: &[u8]) -> (r: bool)
    ensures
        r == (bytes@.len() > 0 && (bytes@.last() == 13 || bytes@.last() == 10)),
{
    bytes.len() > 0 && (bytes[bytes.len() - 1] == 13 || bytes[bytes.len() - 1] == 10)
}

// ---------------------------------------------------------------------
// Device and port checks

/// `char::to_ascii_lowercase`.
pub open spec fn ascii_lower(c: char) -> char {
    if 'A' <= c && c <= 'Z' {
        ((c as u32) + 32) as char
    } else {
        c
    }
}

/// `str::to_ascii_lowercase`, on characters.
pub open spec fn ascii_lowercase(s: Seq<char>) -> Seq<char> {
    s.map_values(|c: char| ascii_lower(c))
}

pub fn to_ascii_lowercase(s: &str) -> (r: Vec<char>)
    ensures
        r@ == ascii_lowercase(s@),
{
    let chars = str_chars(s);
    let mut out: Vec<char> = Vec::new();
    let mut i: usize = 0;
    while i < chars.len()
        invariant
            i <= chars@.len(),
            chars@ == s@,
            out@ == ascii_lowercase(chars@.subrange(0, i as int)),
        decreases chars@.len() - i,
    {
        let c = chars[i];
        let lower = if 'A' <= c && c <= 'Z' { ((c as u32) + 32) as u8 as char } else { c };
        assert(lower == ascii_lower(c));
        out.push(lower);
        assert(out@ =~= ascii_lowercase(chars@.subrange(0, i as int + 1)));
        i = i + 1;
    }
    assert(chars@.subrange(0, i as int) =~= chars@);
    out
}

fn lower_contains(s: &str, needle: &str) -> (r: bool)
    ensures
        r == crate::text::contains_chars(ascii_lowercase(s@), needle@),
{
    let lower = to_ascii_lowercase(s);
    let pat = str_chars(needle);
    crate::text::chars_contain(lower.as_slice(), pat.as_slice())
}

/// Whether a manifest comes from an Espressif device.
pub open spec fn espressif_manifest(sdk_name: Seq<char>, device_name: Seq<char>) -> bool {
    let sdk = ascii_lowercase(sdk_name);
    let device = ascii_lowercase(device_name);
    crate::text::contains_chars(sdk, "esp-wiremux"@) || crate::text::contains_chars(sdk, "espressif"@)
        || crate::text::contains_chars(device, "esp-wiremux"@) || crate::text::contains_chars(device, "esp32"@)
        || crate::text::contains_chars(device, "espressif"@)
}

pub fn is_espressif_manifest(manifest: &DeviceManifest) -> (r: bool)
    ensures
        r == espressif_manifest(manifest.sdk_name@, manifest.device_name@),
{
    let sdk = manifest.sdk_name.as_str();
    let device = manifest.device_name.as_str();
    lower_contains(sdk, "esp-wiremux") || lower_contains(sdk, "espressif") || lower_contains(device, "esp-wiremux")
        || lower_contains(device, "esp32") || lower_contains(device, "espressif")
}

/// How an ESP32 is put into its bootloader.
#[derive(Clone, Copy, Debug, PartialEq, Eq, Structural)]
pub enum Esp32BootloaderResetMode {
    UsbToSerialBridge,
    UsbJtagSerial,
}

/// The reset that suits the serial port: the USB JTAG sequence for a
/// `usbmodem` port, the classic one otherwise.
pub open spec fn reset_mode_for(source_port: Option<Seq<char>>) -> Esp32BootloaderResetMode {
    match source_port {
        Some(p) => match crate::interactive::file_name(p) {
            Some(n) => if crate::text::contains_chars(ascii_lowercase(n), "usbmodem"@) {
                Esp32BootloaderResetMode::UsbJtagSerial
            } else {
                Esp32BootloaderResetMode::UsbToSerialBridge
            },
            None => Esp32BootloaderResetMode::UsbToSerialBridge,
        },
        None => Esp32BootloaderResetMode::UsbToSerialBridge,
    }
}

pub fn esp32_bootloader_reset_mode(source_port: Option<&str>) -> (r: Esp32BootloaderResetMode)
    ensures
        r == reset_mode_for(match source_port {
            Some(p) => Some(p@),
            None => None,
        }),
{
    match source_port {
        Some(p) => match path_file_name(p) {
            Some(name) => {
                if lower_contains(name.as_str(), "usbmodem") {
                    Esp32BootloaderResetMode::UsbJtagSerial
                } else {
                    Esp32BootloaderResetMode::UsbToSerialBridge
                }
            },
            None => Esp32BootloaderResetMode::UsbToSerialBridge,
        },
        None => Esp32BootloaderResetMode::UsbToSerialBridge,
    }
}

// ---------------------------------------------------------------------
// The bridge

/// What the bridge is doing.
#[derive(Clone, Copy, Debug, Default, PartialEq, Eq, Structural)]
pub enum BridgeState {
    #[default]
    WaitingForEspressif,
    AggregateMonitor,
    RawBridge,
}

/// What a poll of the bridge changed.
#[derive(Clone, Copy, Debug, Default, PartialEq, Eq, Structural)]
pub struct EspressifEnhancedPoll {
    pub dirty: bool,
    pub reset_host_session: bool,
}

/// The Espressif enhanced bridge; the endpoint device itself is the
/// program's, which reports its path here once it is open.
pub struct EspressifEnhancedHost {
    endpoint_path: Option<String>,
    source_port: Option<String>,
    monitor_baud: Option<u32>,
    state: BridgeState,
    pending_input: Vec<u8>,
    pending_started: bool,
    classifier: EsptoolSlipClassifier,
    serial_frame_reader: SlipFrameReader,
    pending_physical_baud: Option<u32>,
    active_physical_baud: Option<u32>,
    flash_intent_seen: bool,
    output_previous_was_cr: bool,
}

impl EspressifEnhancedHost {
    pub closed spec fn endpoint_spec(&self) -> Option<Seq<char>> {
        match self.endpoint_path {
            Some(p) => Some(p@),
            None => None,
        }
    }

    pub closed spec fn state_spec(&self) -> BridgeState {
        self.state
    }

    pub closed spec fn source_port_spec(&self) -> Option<Seq<char>> {
        match self.source_port {
            Some(p) => Some(p@),
            None => None,
        }
    }

    pub closed spec fn monitor_baud_spec(&self) -> Option<u32> {
        self.monitor_baud
    }

    pub closed spec fn flash_intent_spec(&self) -> bool {
        self.flash_intent_seen
    }

    pub closed spec fn previous_was_cr_spec(&self) -> bool {
        self.output_previous_was_cr
    }

    pub closed spec fn pending_spec(&self) -> Seq<u8> {
        self.pending_input@
    }

    /// Whether the bridge is as a new one has it, but for the port and the
    /// monitor baud: no endpoint, waiting for an Espressif device, nothing
    /// pending, no flash seen, no carriage return just mirrored.
    pub open spec fn is_cleared(&self) -> bool {
        &&& self.endpoint_spec() is None
        &&& self.state_spec() == BridgeState::WaitingForEspressif
        &&& self.nothing_pending()
        &&& !self.flash_intent_spec()
        &&& !self.previous_was_cr_spec()
    }

    pub fn new() -> (r: Self)
        ensures
            r.is_cleared(),
            r.source_port_spec() is None,
            r.monitor_baud_spec() is None,
    {
        EspressifEnhancedHost {
            endpoint_path: None,
            source_port: None,
            monitor_baud: None,
            state: BridgeState::WaitingForEspressif,
            pending_input: Vec::new(),
            pending_started: false,
            classifier: EsptoolSlipClassifier::new(),
            serial_frame_reader: SlipFrameReader::default(),
            pending_physical_baud: None,
            active_physical_baud: None,
            flash_intent_seen: false,
            output_previous_was_cr: false,
        }
    }

    /// Forgets the endpoint and everything the bridge was doing.
    pub fn clear(&mut self)
        ensures
            final(self).is_cleared(),
            final(self).source_port_spec() == old(self).source_port_spec(),
            final(self).monitor_baud_spec() == old(self).monitor_baud_spec(),
    {
        self.endpoint_path = None;
        self.state = BridgeState::WaitingForEspressif;
        self.pending_input.clear();
        self.pending_started = false;
        self.classifier.reset();
        self.serial_frame_reader.reset();
        self.pending_physical_baud = None;
        self.active_physical_baud = None;
        self.flash_intent_seen = false;
        self.output_previous_was_cr = false;
    }

    /// Records the serial port; a different port clears the bridge.
    pub fn set_source_port(&mut self, source_port: String)
        ensures
            final(self).source_port_spec() == Some(source_port@),
            final(self).monitor_baud_spec() == old(self).monitor_baud_spec(),
            old(self).source_port_spec() != Some(source_port@) ==> final(self).is_cleared(),
            old(self).source_port_spec() == Some(source_port@) ==> final(self).endpoint_spec() == old(self).endpoint_spec()
                && final(self).state_spec() == old(self).state_spec(),
    {
        let same = match &self.source_port {
            Some(p) => *p == source_port,
            None => false,
        };
        if !same {
            self.source_port = Some(source_port);
            self.clear();
        }
    }

    pub fn set_monitor_baud(&mut self, baud: u32)
        ensures
            final(self).monitor_baud_spec() == Some(baud),
            final(self).endpoint_spec() == old(self).endpoint_spec(),
            final(self).state_spec() == old(self).state_spec(),
            final(self).source_port_spec() == old(self).source_port_spec(),
    {
        self.monitor_baud = Some(baud);
    }

    /// Follows a manifest: a device that is not Espressif clears the
    /// bridge; for one that is, returns whether the endpoint must be
    /// opened now, else starts monitoring.
    pub fn sync_manifest(&mut self, manifest: &DeviceManifest) -> (r: bool)
        ensures
            !espressif_manifest(manifest.sdk_name@, manifest.device_name@) ==> !r && final(self).is_cleared(),
            espressif_manifest(manifest.sdk_name@, manifest.device_name@) && old(self).endpoint_spec() is None ==> r
                && final(self).state_spec() == old(self).state_spec(),
            espressif_manifest(manifest.sdk_name@, manifest.device_name@) && old(self).endpoint_spec() is Some ==> !r
                && final(self).state_spec() == (if old(self).state_spec() == BridgeState::WaitingForEspressif {
                    BridgeState::AggregateMonitor
                } else {
                    old(self).state_spec()
                }),
            final(self).source_port_spec() == old(self).source_port_spec(),
            final(self).monitor_baud_spec() == old(self).monitor_baud_spec(),
            espressif_manifest(manifest.sdk_name@, manifest.device_name@) ==> final(self).endpoint_spec() == old(self).endpoint_spec(),
    {
        if !is_espressif_manifest(manifest) {
            self.clear();
            return false;
        }
        if self.endpoint_path.is_none() {
            return true;
        }
        if self.state == BridgeState::WaitingForEspressif {
            self.state = BridgeState::AggregateMonitor;
        }
        false
    }

    /// The endpoint device opened at `path`: monitoring starts; returns
    /// the message for the status line.
    pub fn endpoint_opened(&mut self, path: String) -> (r: String)
        ensures
            final(self).endpoint_spec() == Some(path@),
            final(self).state_spec() == BridgeState::AggregateMonitor,
            r@ == "esp enhanced tty "@ + path@,
            final(self).source_port_spec() == old(self).source_port_spec(),
            final(self).monitor_baud_spec() == old(self).monitor_baud_spec(),
    {
        let mut msg = "esp enhanced tty ".to_owned();
        push_str(&mut msg, path.as_str());
        self.endpoint_path = Some(path);
        self.state = BridgeState::AggregateMonitor;
        msg
    }

    /// The endpoint device could not be opened: the bridge waits; returns
    /// the message for the status line.
    pub fn endpoint_failed(&mut self, error: &str) -> (r: String)
        ensures
            final(self).endpoint_spec() == old(self).endpoint_spec(),
            final(self).state_spec() == BridgeState::WaitingForEspressif,
            r@ == "esp enhanced tty unavailable: "@ + error@,
            final(self).source_port_spec() == old(self).source_port_spec(),
            final(self).monitor_baud_spec() == old(self).monitor_baud_spec(),
    {
        self.state = BridgeState::WaitingForEspressif;
        let mut msg = "esp enhanced tty unavailable: ".to_owned();
        push_str(&mut msg, error);
        msg
    }

    /// The status line of the bridge.
    pub fn summary(&self) -> (r: String)
        ensures
            match self.endpoint_spec() {
                None => r@ == "esp-enhanced unavailable"@,
                Some(p) => match self.state_spec() {
                    BridgeState::AggregateMonitor => r@ == "esp-enhanced monitor "@ + p,
                    BridgeState::RawBridge => if self.flash_intent_spec() {
                        r@ == "esp-enhanced flashing "@ + p
                    } else {
                        r@ == "esp-enhanced raw bridge "@ + p
                    },
                    BridgeState::WaitingForEspressif => r@ == "esp-enhanced waiting "@ + p,
                },
            },
    {
        match &self.endpoint_path {
            None => "esp-enhanced unavailable".to_owned(),
            Some(path) => {
                let mut out = match self.state {
                    BridgeState::AggregateMonitor => "esp-enhanced monitor ".to_owned(),
                    BridgeState::RawBridge => if self.flash_intent_seen {
                        "esp-enhanced flashing ".to_owned()
                    } else {
                        "esp-enhanced raw bridge ".to_owned()
                    },
                    BridgeState::WaitingForEspressif => "esp-enhanced waiting ".to_owned(),
                };
                push_str(&mut out, path.as_str());
                out
            },
        }
    }

    pub fn is_raw_bridge_active(&self) -> (r: bool)
        ensures
            r == (self.state_spec() == BridgeState::RawBridge),
    {
        self.state == BridgeState::RawBridge
    }

    /// Whether the endpoint needs polling for input.
    pub fn should_poll(&self) -> (r: bool)
        ensures
            r == self.endpoint_spec() is Some,
    {
        self.endpoint_path.is_some()
    }

    /// The bytes that mirror a record on the monitor endpoint: while
    /// monitoring with an endpoint, `ch<id>> ` and the payload, text with
    /// line feeds mapped and a line break closing each record.
    pub fn mirror_mux_output(&mut self, envelope: &MuxEnvelope) -> (r: Option<Vec<u8>>)
        ensures
            !(old(self).state_spec() == BridgeState::AggregateMonitor && old(self).endpoint_spec() is Some) ==> r is None
                && final(self).previous_was_cr_spec() == old(self).previous_was_cr_spec(),
            old(self).state_spec() == BridgeState::AggregateMonitor && old(self).endpoint_spec() is Some ==> ({
                let prefix = vstd::utf8::encode_utf8("ch"@ + crate::text::decimal_chars(envelope.channel_id as nat) + "> "@);
                if envelope.kind == PAYLOAD_KIND_TEXT {
                    let (text, cr) = crate::virtual_serial::text_output(envelope.payload@, old(self).previous_was_cr_spec(), true);
                    r matches Some(v) && v@ == prefix + text && final(self).previous_was_cr_spec() == cr
                } else {
                    let raw = prefix + envelope.payload@;
                    r matches Some(v) && v@ == (if raw.len() > 0 && (raw.last() == 13 || raw.last() == 10) {
                        raw
                    } else {
                        raw + seq![13u8, 10u8]
                    }) && !final(self).previous_was_cr_spec()
                }
            }),
            final(self).state_spec() == old(self).state_spec(),
            final(self).endpoint_spec() == old(self).endpoint_spec(),
    {
        if self.state != BridgeState::AggregateMonitor || self.endpoint_path.is_none() {
            return None;
        }
        let mut prefix = "ch".to_owned();
        push_decimal_str(&mut prefix, envelope.channel_id as u64);
        push_str(&mut prefix, "> ");
        let mut output = str_bytes(prefix.as_str());
        if envelope.kind == PAYLOAD_KIND_TEXT {
            let mut cr = self.output_previous_was_cr;
            let text = terminal_text_output_bytes(envelope.payload.as_slice(), &mut cr, true);
            self.output_previous_was_cr = cr;
            extend_bytes(&mut output, text.as_slice());
        } else {
            self.output_previous_was_cr = false;
            extend_bytes(&mut output, envelope.payload.as_slice());
            if !ends_with_newline(output.as_slice()) {
                output.push(13);
                output.push(10);
            }
        }
        Some(output)
    }
}

// ---------------------------------------------------------------------
// Bridge decisions

/// What the program does for the bridge, in this order: put the chip
/// into its bootloader or hard-reset it, write bytes to the serial port,
/// change the port's baud rate; then write the diagnostics lines, redraw
/// when `dirty`, restart the host session when asked, and start the
/// pending-input timer when asked.
#[derive(Clone, Debug, PartialEq, Eq)]
pub struct BridgeStep {
    pub dirty: bool,
    pub reset_host_session: bool,
    pub enter_bootloader: Option<Esp32BootloaderResetMode>,
    pub hard_reset: Option<Esp32BootloaderResetMode>,
    pub serial_write: Vec<u8>,
    pub set_baud: Option<u32>,
    pub start_pending_timer: bool,
    pub diagnostics: Vec<String>,
}

/// The debug name of a reset mode.
pub open spec fn mode_name(mode: Esp32BootloaderResetMode) -> Seq<char> {
    match mode {
        Esp32BootloaderResetMode::UsbToSerialBridge => "UsbToSerialBridge"@,
        Esp32BootloaderResetMode::UsbJtagSerial => "UsbJtagSerial"@,
    }
}

fn mode_text(mode: Esp32BootloaderResetMode) -> (r: &'static str)
    ensures
        r@ == mode_name(mode),
{
    match mode {
        Esp32BootloaderResetMode::UsbToSerialBridge => "UsbToSerialBridge",
        Esp32BootloaderResetMode::UsbJtagSerial => "UsbJtagSerial",
    }
}

/// Whether any of the commands is a sync request.
pub open spec fn has_sync(cmds: Seq<(u8, Seq<u8>)>) -> bool {
    exists|k: int| 0 <= k < cmds.len() && #[trigger] cmds[k].0 == ESPTOOL_SYNC
}

/// Whether any of the commands writes flash.
pub open spec fn has_flash(cmds: Seq<(u8, Seq<u8>)>) -> bool {
    exists|k: int| 0 <= k < cmds.len() && (cmds[k].0 == ESPTOOL_FLASH_BEGIN || cmds[k].0 == ESPTOOL_FLASH_DATA
        || cmds[k].0 == ESPTOOL_FLASH_END)
}

/// The baud rates the commands ask for, in order.
pub open spec fn bauds(cmds: Seq<(u8, Seq<u8>)>) -> Seq<u32>
    decreases cmds.len(),
{
    if cmds.len() == 0 {
        Seq::empty()
    } else {
        bauds(cmds.drop_last()) + match requested_baud(cmds.last().0, cmds.last().1) {
            Some(b) => seq![b],
            None => Seq::empty(),
        }
    }
}

pub open spec fn baud_line(baud: u32) -> Seq<char> {
    "[wiremux] esp_enhanced change-baud command detected baud="@ + crate::text::decimal_chars(baud as nat)
}

pub open spec fn lines_view(v: Seq<String>) -> Seq<Seq<char>> {
    v.map_values(|s: String| s@)
}

fn decimal_line(prefix: &str, n: u64) -> (r: String)
    ensures
        r@ == prefix@ + crate::text::decimal_chars(n as nat),
{
    let mut out = prefix.to_owned();
    push_decimal_str(&mut out, n);
    out
}

impl EspressifEnhancedHost {
    pub closed spec fn pending_started_spec(&self) -> bool {
        self.pending_started
    }

    pub closed spec fn pending_baud_spec(&self) -> Option<u32> {
        self.pending_physical_baud
    }

    pub closed spec fn active_baud_spec(&self) -> Option<u32> {
        self.active_physical_baud
    }

    pub closed spec fn classifier_spec(&self) -> SlipState {
        self.classifier.state()
    }

    pub closed spec fn reader_spec(&self) -> SlipState {
        self.serial_frame_reader.state()
    }

    /// Nothing pending: no input held back, no timer, both readers at rest
    /// and no baud change waiting or applied.
    pub open spec fn nothing_pending(&self) -> bool {
        &&& self.pending_spec().len() == 0
        &&& !self.pending_started_spec()
        &&& self.classifier_spec() == (SlipState { in_frame: false, escaped: false, frame: Seq::empty() })
        &&& self.reader_spec() == (SlipState { in_frame: false, escaped: false, frame: Seq::empty() })
        &&& self.pending_baud_spec() is None
        &&& self.active_baud_spec() is None
    }

    fn drop_pending(&mut self)
        ensures
            final(self).nothing_pending(),
            final(self).endpoint_spec() == old(self).endpoint_spec(),
            final(self).state_spec() == old(self).state_spec(),
            final(self).source_port_spec() == old(self).source_port_spec(),
            final(self).monitor_baud_spec() == old(self).monitor_baud_spec(),
            final(self).flash_intent_spec() == old(self).flash_intent_spec(),
            final(self).previous_was_cr_spec() == old(self).previous_was_cr_spec(),
    {
        self.pending_input.clear();
        self.pending_started = false;
        self.classifier.reset();
        self.serial_frame_reader.reset();
        self.pending_physical_baud = None;
        self.active_physical_baud = None;
    }

    fn empty_step() -> (r: BridgeStep)
        ensures
            !r.dirty && !r.reset_host_session && r.enter_bootloader is None && r.hard_reset is None
                && r.serial_write@.len() == 0 && r.set_baud is None && !r.start_pending_timer && r.diagnostics@.len() == 0,
    {
        BridgeStep {
            dirty: false,
            reset_host_session: false,
            enter_bootloader: None,
            hard_reset: None,
            serial_write: Vec::new(),
            set_baud: None,
            start_pending_timer: false,
            diagnostics: Vec::new(),
        }
    }

    /// Bytes read from the endpoint. While monitoring they are held back
    /// (up to `PENDING_INPUT_LIMIT`, beyond which all is dropped) until an
    /// esptool sync request shows among them: then the chip goes into its
    /// bootloader, the held-back bytes are replayed to it and the bridge
    /// turns raw. In the raw bridge they go to the serial port as they
    /// are, flash commands are noted and a baud change waits for the
    /// chip's answer.
    pub fn endpoint_input(&mut self, bytes: &[u8]) -> (r: BridgeStep)
        ensures
            final(self).endpoint_spec() == old(self).endpoint_spec(),
            final(self).source_port_spec() == old(self).source_port_spec(),
            final(self).monitor_baud_spec() == old(self).monitor_baud_spec(),
            final(self).previous_was_cr_spec() == old(self).previous_was_cr_spec(),
            r.hard_reset is None,
            r.set_baud is None,
            match old(self).state_spec() {
                BridgeState::WaitingForEspressif => !r.dirty && !r.reset_host_session && r.enter_bootloader is None
                    && r.serial_write@.len() == 0 && !r.start_pending_timer && r.diagnostics@.len() == 0
                    && final(self).state_spec() == old(self).state_spec()
                    && final(self).pending_spec() == old(self).pending_spec(),
                BridgeState::AggregateMonitor => {
                    let total = old(self).pending_spec().len() + bytes@.len();
                    if total > PENDING_INPUT_LIMIT {
                        &&& final(self).nothing_pending()
                        &&& final(self).state_spec() == BridgeState::AggregateMonitor
                        &&& r.dirty && !r.reset_host_session && r.enter_bootloader is None
                        &&& r.serial_write@.len() == 0 && !r.start_pending_timer
                        &&& lines_view(r.diagnostics@) == seq!["[wiremux] esp_enhanced pending input overflow bytes="@
                            + crate::text::decimal_chars((if total > usize::MAX { usize::MAX as int } else { total as int }) as nat)]
                    } else {
                        let (cstate, frames) = slip_feed(old(self).classifier_spec(), bytes@);
                        let held = old(self).pending_spec() + bytes@;
                        if has_sync(commands_of(frames)) {
                            let mode = reset_mode_for(old(self).source_port_spec());
                            &&& final(self).state_spec() == BridgeState::RawBridge
                            &&& final(self).pending_spec().len() == 0
                            &&& !final(self).pending_started_spec()
                            &&& final(self).classifier_spec() == cstate
                            &&& r.dirty && r.reset_host_session && r.enter_bootloader == Some(mode)
                            &&& r.serial_write@ == held && !r.start_pending_timer
                            &&& lines_view(r.diagnostics@) == seq!["[wiremux] esp_enhanced esptool sync detected; entering raw bridge reset_mode="@
                                + mode_name(mode) + " replay_bytes="@ + crate::text::decimal_chars(held.len())]
                        } else {
                            &&& final(self).state_spec() == BridgeState::AggregateMonitor
                            &&& final(self).pending_spec() == held
                            &&& final(self).pending_started_spec()
                            &&& final(self).classifier_spec() == cstate
                            &&& !r.dirty && !r.reset_host_session && r.enter_bootloader is None
                            &&& r.serial_write@.len() == 0
                            &&& r.start_pending_timer == !old(self).pending_started_spec()
                            &&& r.diagnostics@.len() == 0
                        }
                    }
                },
                BridgeState::RawBridge => {
                    let (cstate, frames) = slip_feed(old(self).classifier_spec(), bytes@);
                    let cmds = commands_of(frames);
                    &&& final(self).state_spec() == BridgeState::RawBridge
                    &&& final(self).classifier_spec() == cstate
                    &&& final(self).flash_intent_spec() == (old(self).flash_intent_spec() || has_flash(cmds))
                    &&& final(self).pending_baud_spec() == (if bauds(cmds).len() > 0 { Some(bauds(cmds).last()) } else { old(self).pending_baud_spec() })
                    &&& r.dirty && !r.reset_host_session && r.enter_bootloader is None
                    &&& r.serial_write@ == bytes@ && !r.start_pending_timer
                    &&& lines_view(r.diagnostics@) == bauds(cmds).map_values(|b: u32| baud_line(b))
                },
            },
    {
        let mut step = Self::empty_step();
        match self.state {
            BridgeState::WaitingForEspressif => step,
            BridgeState::AggregateMonitor => {
                let start_timer = !self.pending_started;
                self.pending_started = true;
                let total = self.pending_input.len().saturating_add(bytes.len());
                if total > PENDING_INPUT_LIMIT {
                    let line = decimal_line("[wiremux] esp_enhanced pending input overflow bytes=", total as u64);
                    step.diagnostics.push(line);
                    self.drop_pending();
                    step.dirty = true;
                    assert(lines_view(step.diagnostics@) =~= seq![line@]);
                    return step;
                }
                crate::wire::extend_bytes(&mut self.pending_input, bytes);
                let commands = self.classifier.feed(bytes);
                let mut sync = false;
                let mut k: usize = 0;
                while k < commands.len()
                    invariant
                        k <= commands@.len(),
                        sync == exists|j: int| 0 <= j < k && #[trigger] commands@[j].opcode == ESPTOOL_SYNC,
                    decreases commands@.len() - k,
                {
                    if commands[k].opcode == ESPTOOL_SYNC {
                        sync = true;
                    }
                    k = k + 1;
                }
                proof {
                    let cv = commands_view(commands@);
                    if sync {
                        let j = choose|j: int| 0 <= j < k && #[trigger] commands@[j].opcode == ESPTOOL_SYNC;
                        assert(cv[j].0 == ESPTOOL_SYNC);
                    } else {
                        assert forall|j: int| 0 <= j < cv.len() implies #[trigger] cv[j].0 != ESPTOOL_SYNC by {
                            assert(cv[j].0 == commands@[j].opcode);
                        }
                    }
                }
                if sync {
                    let mode = esp32_bootloader_reset_mode(match &self.source_port {
                        Some(p) => Some(p.as_str()),
                        None => None,
                    });
                    let mut line = "[wiremux] esp_enhanced esptool sync detected; entering raw bridge reset_mode=".to_owned();
                    push_str(&mut line, mode_text(mode));
                    push_str(&mut line, " replay_bytes=");
                    push_decimal_str(&mut line, self.pending_input.len() as u64);
                    step.diagnostics.push(line);
                    assert(lines_view(step.diagnostics@) =~= seq![line@]);
                    let mut replay: Vec<u8> = Vec::new();
                    std::mem::swap(&mut replay, &mut self.pending_input);
                    step.serial_write = replay;
                    step.enter_bootloader = Some(mode);
                    self.pending_started = false;
                    self.state = BridgeState::RawBridge;
                    step.dirty = true;
                    step.reset_host_session = true;
                } else {
                    step.start_pending_timer = start_timer;
                }
                step
            },
            BridgeState::RawBridge => {
                step.serial_write = crate::wire::copy_range(bytes, 0, bytes.len());
                assert(step.serial_write@ =~= bytes@);
                let commands = self.classifier.feed(bytes);
                let ghost cv = commands_view(commands@);
                let mut k: usize = 0;
                let ghost flash0 = self.flash_intent_seen;
                let ghost baud0 = self.pending_physical_baud;
                while k < commands.len()
                    invariant
                        k <= commands@.len(),
                        cv == commands_view(commands@),
                        self.flash_intent_seen == (flash0 || has_flash(cv.subrange(0, k as int))),
                        self.pending_physical_baud == (if bauds(cv.subrange(0, k as int)).len() > 0 {
                            Some(bauds(cv.subrange(0, k as int)).last())
                        } else {
                            baud0
                        }),
                        lines_view(step.diagnostics@) == bauds(cv.subrange(0, k as int)).map_values(|b: u32| baud_line(b)),
                        self.state == BridgeState::RawBridge,
                        self.endpoint_path == old(self).endpoint_path,
                        self.source_port == old(self).source_port,
                        self.monitor_baud == old(self).monitor_baud,
                        self.output_previous_was_cr == old(self).output_previous_was_cr,
                        self.classifier.state() == slip_feed(old(self).classifier.state(), bytes@).0,
                        step.serial_write@ == bytes@,
                        !step.dirty && !step.reset_host_session && step.enter_bootloader is None && step.hard_reset is None
                            && step.set_baud is None && !step.start_pending_timer,
                    decreases commands@.len() - k,
                {
                    let ghost sub = cv.subrange(0, k as int + 1);
                    assert(sub.drop_last() =~= cv.subrange(0, k as int));
                    assert(sub.last() == (commands@[k as int].opcode, commands@[k as int].payload@));
                    let ghost lines_before = lines_view(step.diagnostics@);
                    if is_flash_command(commands[k].opcode) {
                        self.flash_intent_seen = true;
                    }
                    proof {
                        assert(has_flash(sub) == (has_flash(cv.subrange(0, k as int)) || is_flash_opcode(sub.last().0))) by {
                            if has_flash(sub) {
                                let j = choose|j: int| 0 <= j < sub.len() && (sub[j].0 == ESPTOOL_FLASH_BEGIN
                                    || sub[j].0 == ESPTOOL_FLASH_DATA || sub[j].0 == ESPTOOL_FLASH_END);
                                if j < k {
                                    assert(cv.subrange(0, k as int)[j] == sub[j]);
                                }
                            }
                            if has_flash(cv.subrange(0, k as int)) {
                                let j = choose|j: int| 0 <= j < cv.subrange(0, k as int).len() && (cv.subrange(0, k as int)[j].0 == ESPTOOL_FLASH_BEGIN
                                    || cv.subrange(0, k as int)[j].0 == ESPTOOL_FLASH_DATA || cv.subrange(0, k as int)[j].0 == ESPTOOL_FLASH_END);
                                assert(sub[j] == cv.subrange(0, k as int)[j]);
                            }
                        }
                    }
                    match change_baud_rate(&commands[k]) {
                        Some(baud) => {
                            self.pending_physical_baud = Some(baud);
                            let line = decimal_line("[wiremux] esp_enhanced change-baud command detected baud=", baud as u64);
                            step.diagnostics.push(line);
                            assert(lines_view(step.diagnostics@) =~= lines_before.push(baud_line(baud)));
                            assert(bauds(sub) =~= bauds(cv.subrange(0, k as int)).push(baud));
                            assert(bauds(sub).map_values(|b: u32| baud_line(b))
                                =~= bauds(cv.subrange(0, k as int)).map_values(|b: u32| baud_line(b)).push(baud_line(baud)));
                        },
                        None => {
                            assert(bauds(sub) =~= bauds(cv.subrange(0, k as int)));
                        },
                    }
                    k = k + 1;
                }
                assert(cv.subrange(0, k as int) =~= cv);
                step.dirty = true;
                step
            },
        }
    }

    /// Restores the monitor baud rate on the port unless it is set already.
    fn restore_monitor_baud(&mut self, step: &mut BridgeStep)
        ensures
            match old(self).monitor_baud_spec() {
                Some(b) => if old(self).active_baud_spec() == Some(b) {
                    final(step).set_baud == old(step).set_baud && final(step).diagnostics@ == old(step).diagnostics@
                        && final(self).active_baud_spec() == old(self).active_baud_spec()
                } else {
                    final(step).set_baud == Some(b) && final(self).active_baud_spec() == Some(b)
                        && lines_view(final(step).diagnostics@) == lines_view(old(step).diagnostics@)
                            .push("[wiremux] esp_enhanced restoring monitor baud="@ + crate::text::decimal_chars(b as nat))
                },
                None => final(step).set_baud == old(step).set_baud && final(step).diagnostics@ == old(step).diagnostics@
                    && final(self).active_baud_spec() == old(self).active_baud_spec(),
            },
            final(step).dirty == old(step).dirty,
            final(step).reset_host_session == old(step).reset_host_session,
            final(step).enter_bootloader == old(step).enter_bootloader,
            final(step).hard_reset == old(step).hard_reset,
            final(step).serial_write == old(step).serial_write,
            final(step).start_pending_timer == old(step).start_pending_timer,
            final(self).endpoint_spec() == old(self).endpoint_spec(),
            final(self).state_spec() == old(self).state_spec(),
            final(self).source_port_spec() == old(self).source_port_spec(),
            final(self).monitor_baud_spec() == old(self).monitor_baud_spec(),
            final(self).flash_intent_spec() == old(self).flash_intent_spec(),
            final(self).previous_was_cr_spec() == old(self).previous_was_cr_spec(),
    {
        let b = match self.monitor_baud {
            Some(b) => b,
            None => {
                return;
            },
        };
        if self.active_physical_baud == Some(b) {
            return;
        }
        let ghost before = lines_view(step.diagnostics@);
        let line = decimal_line("[wiremux] esp_enhanced restoring monitor baud=", b as u64);
        step.diagnostics.push(line);
        assert(lines_view(step.diagnostics@) =~= before.push(line@));
        step.set_baud = Some(b);
        self.active_physical_baud = Some(b);
    }

    /// The client of the raw bridge closed the endpoint (`gone` when it
    /// went away for good): after flashing the chip is hard-reset, the
    /// monitor baud rate comes back, and the bridge returns to monitoring
    /// with nothing pending. Outside the raw bridge nothing happens.
    pub fn endpoint_closed(&mut self, gone: bool) -> (r: BridgeStep)
        ensures
            old(self).state_spec() != BridgeState::RawBridge ==> !r.dirty && !r.reset_host_session && r.hard_reset is None
                && r.set_baud is None && r.diagnostics@.len() == 0 && final(self).state_spec() == old(self).state_spec()
                && final(self).pending_spec() == old(self).pending_spec(),
            old(self).state_spec() == BridgeState::RawBridge ==> ({
                let mode = reset_mode_for(old(self).source_port_spec());
                let first = if gone { "[wiremux] esp_enhanced raw bridge client gone"@ } else { "[wiremux] esp_enhanced raw bridge client closed"@ };
                let reset_line: Seq<Seq<char>> = if old(self).flash_intent_spec() {
                    seq!["[wiremux] esp_enhanced raw bridge finished flash; hard resetting reset_mode="@ + mode_name(mode)]
                } else {
                    Seq::empty()
                };
                let baud_lines: Seq<Seq<char>> = match old(self).monitor_baud_spec() {
                    Some(b) => if old(self).active_baud_spec() == Some(b) {
                        Seq::empty()
                    } else {
                        seq!["[wiremux] esp_enhanced restoring monitor baud="@ + crate::text::decimal_chars(b as nat)]
                    },
                    None => Seq::empty(),
                };
                &&& r.dirty && r.reset_host_session
                &&& r.hard_reset == (if old(self).flash_intent_spec() { Some(mode) } else { None })
                &&& r.set_baud == match old(self).monitor_baud_spec() {
                    Some(b) => if old(self).active_baud_spec() == Some(b) { None } else { Some(b) },
                    None => None,
                }
                &&& lines_view(r.diagnostics@) == seq![first] + reset_line + baud_lines
                &&& final(self).state_spec() == (if old(self).endpoint_spec() is Some {
                    BridgeState::AggregateMonitor
                } else {
                    BridgeState::WaitingForEspressif
                })
                &&& final(self).nothing_pending()
                &&& !final(self).flash_intent_spec()
            }),
            r.enter_bootloader is None,
            r.serial_write@.len() == 0,
            !r.start_pending_timer,
            final(self).endpoint_spec() == old(self).endpoint_spec(),
            final(self).source_port_spec() == old(self).source_port_spec(),
            final(self).monitor_baud_spec() == old(self).monitor_baud_spec(),
            final(self).previous_was_cr_spec() == old(self).previous_was_cr_spec(),
    {
        let mut step = Self::empty_step();
        if self.state != BridgeState::RawBridge {
            return step;
        }
        let first = if gone {
            "[wiremux] esp_enhanced raw bridge client gone".to_owned()
        } else {
            "[wiremux] esp_enhanced raw bridge client closed".to_owned()
        };
        step.diagnostics.push(first);
        let mode = esp32_bootloader_reset_mode(match &self.source_port {
            Some(p) => Some(p.as_str()),
            None => None,
        });
        let ghost after_first = lines_view(step.diagnostics@);
        if self.flash_intent_seen {
            let mut line = "[wiremux] esp_enhanced raw bridge finished flash; hard resetting reset_mode=".to_owned();
            push_str(&mut line, mode_text(mode));
            step.diagnostics.push(line);
            step.hard_reset = Some(mode);
            assert(lines_view(step.diagnostics@) =~= after_first.push(line@));
        }
        let ghost before_restore = lines_view(step.diagnostics@);
        self.restore_monitor_baud(&mut step);
        self.state = if self.endpoint_path.is_some() {
            BridgeState::AggregateMonitor
        } else {
            BridgeState::WaitingForEspressif
        };
        self.drop_pending();
        self.flash_intent_seen = false;
        step.dirty = true;
        step.reset_host_session = true;
        proof {
            let mode_s = reset_mode_for(old(self).source_port_spec());
            let first_s = if gone { "[wiremux] esp_enhanced raw bridge client gone"@ } else { "[wiremux] esp_enhanced raw bridge client closed"@ };
            let reset_line: Seq<Seq<char>> = if old(self).flash_intent_spec() {
                seq!["[wiremux] esp_enhanced raw bridge finished flash; hard resetting reset_mode="@ + mode_name(mode_s)]
            } else {
                Seq::empty()
            };
            assert(after_first =~= seq![first_s]);
            assert(before_restore =~= seq![first_s] + reset_line);
            match old(self).monitor_baud_spec() {
                Some(b) => if old(self).active_baud_spec() != Some(b) {
                    assert(lines_view(step.diagnostics@) =~= seq![first_s] + reset_line
                        + seq!["[wiremux] esp_enhanced restoring monitor baud="@ + crate::text::decimal_chars(b as nat)]);
                } else {
                    assert(lines_view(step.diagnostics@) =~= seq![first_s] + reset_line + Seq::<Seq<char>>::empty());
                },
                None => {
                    assert(lines_view(step.diagnostics@) =~= seq![first_s] + reset_line + Seq::<Seq<char>>::empty());
                },
            }
        }
        step
    }

    /// Bytes the chip sent while the bridge is raw: the program passes
    /// them to the endpoint as they are. `None` outside the raw bridge or
    /// without an endpoint. A baud change waiting for the chip's answer
    /// is applied once a complete frame of the answer came.
    pub fn write_raw_serial_output(&mut self, bytes: &[u8]) -> (r: Option<BridgeStep>)
        ensures
            !(old(self).state_spec() == BridgeState::RawBridge && old(self).endpoint_spec() is Some) ==> r is None
                && final(self).pending_baud_spec() == old(self).pending_baud_spec()
                && final(self).active_baud_spec() == old(self).active_baud_spec()
                && final(self).reader_spec() == old(self).reader_spec(),
            old(self).state_spec() == BridgeState::RawBridge && old(self).endpoint_spec() is Some ==> (r matches Some(step) && ({
                match old(self).pending_baud_spec() {
                    None => step.set_baud is None && step.diagnostics@.len() == 0
                        && final(self).reader_spec() == old(self).reader_spec()
                        && final(self).pending_baud_spec() is None
                        && final(self).active_baud_spec() == old(self).active_baud_spec(),
                    Some(b) => {
                        let (rstate, frames) = slip_feed(old(self).reader_spec(), bytes@);
                        &&& final(self).reader_spec() == rstate
                        &&& if frames.len() > 0 {
                            &&& step.set_baud == Some(b)
                            &&& lines_view(step.diagnostics@) == seq!["[wiremux] esp_enhanced applying physical baud after response baud="@
                                + crate::text::decimal_chars(b as nat)]
                            &&& final(self).pending_baud_spec() is None
                            &&& final(self).active_baud_spec() == Some(b)
                        } else {
                            &&& step.set_baud is None && step.diagnostics@.len() == 0
                            &&& final(self).pending_baud_spec() == Some(b)
                            &&& final(self).active_baud_spec() == old(self).active_baud_spec()
                        }
                    },
                }
            } && !step.dirty && !step.reset_host_session && step.enter_bootloader is None && step.hard_reset is None
                && step.serial_write@.len() == 0 && !step.start_pending_timer)),
            final(self).endpoint_spec() == old(self).endpoint_spec(),
            final(self).state_spec() == old(self).state_spec(),
            final(self).source_port_spec() == old(self).source_port_spec(),
            final(self).monitor_baud_spec() == old(self).monitor_baud_spec(),
            final(self).pending_spec() == old(self).pending_spec(),
            final(self).flash_intent_spec() == old(self).flash_intent_spec(),
    {
        if self.state != BridgeState::RawBridge || self.endpoint_path.is_none() {
            return None;
        }
        let mut step = Self::empty_step();
        if let Some(b) = self.pending_physical_baud {
            let frames = self.serial_frame_reader.feed(bytes);
            if frames.len() > 0 {
                self.pending_physical_baud = None;
                let line = decimal_line("[wiremux] esp_enhanced applying physical baud after response baud=", b as u64);
                step.diagnostics.push(line);
                assert(lines_view(step.diagnostics@) =~= seq![line@]);
                step.set_baud = Some(b);
                self.active_physical_baud = Some(b);
            }
        }
        Some(step)
    }

    /// The pending-input timer ran out: held-back input is dropped.
    pub fn expire_pending(&mut self) -> (r: BridgeStep)
        ensures
            !old(self).pending_started_spec() ==> !r.dirty && r.diagnostics@.len() == 0
                && final(self).pending_spec() == old(self).pending_spec(),
            old(self).pending_started_spec() ==> r.dirty && final(self).nothing_pending()
                && lines_view(r.diagnostics@) == seq!["[wiremux] esp_enhanced pending input timed out bytes="@
                    + crate::text::decimal_chars(old(self).pending_spec().len())],
            !r.reset_host_session && r.enter_bootloader is None && r.hard_reset is None && r.serial_write@.len() == 0
                && r.set_baud is None && !r.start_pending_timer,
            final(self).endpoint_spec() == old(self).endpoint_spec(),
            final(self).state_spec() == old(self).state_spec(),
            final(self).source_port_spec() == old(self).source_port_spec(),
            final(self).monitor_baud_spec() == old(self).monitor_baud_spec(),
            final(self).flash_intent_spec() == old(self).flash_intent_spec(),
    {
        let mut step = Self::empty_step();
        if !self.pending_started {
            return step;
        }
        let line = decimal_line("[wiremux] esp_enhanced pending input timed out bytes=", self.pending_input.len() as u64);
        step.diagnostics.push(line);
        assert(lines_view(step.diagnostics@) =~= seq![line@]);
        self.drop_pending();
        step.dirty = true;
        step
    }
}

pub open spec fn is_flash_opcode(op: u8) -> bool {
    op == ESPTOOL_FLASH_BEGIN || op == ESPTOOL_FLASH_DATA || op == ESPTOOL_FLASH_END
}

// ---------------------------------------------------------------------
// Reset sequences

/// One step of driving an ESP32's reset lines through the serial port's
/// modem lines: set DTR or RTS, or wait.
#[derive(Clone, Copy, Debug, PartialEq, Eq, Structural)]
pub enum ResetStep {
    Dtr(bool),
    Rts(bool),
    SleepMs(u64),
}

pub const ESP32_BOOTLOADER_RESET_HOLD_MS: u64 = 100;
pub const ESP32_BOOTLOADER_RELEASE_WAIT_MS: u64 = 50;
pub const ESP32_USB_JTAG_RESET_STEP_MS: u64 = 100;

/// The sequence that starts the chip in its bootloader. Through a USB to
/// serial bridge DTR drives IO0 and RTS drives EN: hold EN low with IO0
/// high, pull IO0 low, release EN, then release IO0. The USB JTAG serial
/// unit reads the same lines as a reset request in its own order.
pub open spec fn bootloader_steps(mode: Esp32BootloaderResetMode) -> Seq<ResetStep> {
    match mode {
        Esp32BootloaderResetMode::UsbToSerialBridge => seq![
            ResetStep::Dtr(false),
            ResetStep::Rts(true),
            ResetStep::SleepMs(ESP32_BOOTLOADER_RESET_HOLD_MS),
            ResetStep::Dtr(true),
            ResetStep::Rts(false),
            ResetStep::SleepMs(ESP32_BOOTLOADER_RELEASE_WAIT_MS),
            ResetStep::Dtr(false),
        ],
        Esp32BootloaderResetMode::UsbJtagSerial => seq![
            ResetStep::Rts(false),
            ResetStep::Dtr(false),
            ResetStep::SleepMs(ESP32_USB_JTAG_RESET_STEP_MS),
            ResetStep::Dtr(true),
            ResetStep::Rts(false),
            ResetStep::SleepMs(ESP32_USB_JTAG_RESET_STEP_MS),
            ResetStep::Rts(true),
            ResetStep::Dtr(false),
            ResetStep::Rts(true),
            ResetStep::SleepMs(ESP32_USB_JTAG_RESET_STEP_MS),
            ResetStep::Dtr(false),
            ResetStep::Rts(false),
        ],
    }
}

/// The sequence that restarts the chip into its application: EN held low
/// for a while, then released.
pub open spec fn hard_reset_steps(mode: Esp32BootloaderResetMode) -> Seq<ResetStep> {
    match mode {
        Esp32BootloaderResetMode::UsbJtagSerial => seq![
            ResetStep::Rts(true),
            ResetStep::SleepMs(200),
            ResetStep::Rts(false),
            ResetStep::SleepMs(200),
        ],
        Esp32BootloaderResetMode::UsbToSerialBridge => seq![
            ResetStep::Rts(true),
            ResetStep::SleepMs(ESP32_BOOTLOADER_RESET_HOLD_MS),
            ResetStep::Rts(false),
        ],
    }
}

fn push_steps(out: &mut Vec<ResetStep>, steps: &[ResetStep])
    ensures
        final(out)@ == old(out)@ + steps@,
{
    let mut i: usize = 0;
    while i < steps.len()
        invariant
            i <= steps@.len(),
            out@ == old(out)@ + steps@.subrange(0, i as int),
        decreases steps@.len() - i,
    {
        out.push(steps[i]);
        assert(out@ =~= old(out)@ + steps@.subrange(0, i as int + 1));
        i = i + 1;
    }
    assert(steps@.subrange(0, i as int) =~= steps@);
}

/// The steps that put the chip into its bootloader.
pub fn esp32_bootloader_steps(mode: Esp32BootloaderResetMode) -> (r: Vec<ResetStep>)
    ensures
        r@ == bootloader_steps(mode),
{
    let mut out: Vec<ResetStep> = Vec::new();
    match mode {
        Esp32BootloaderResetMode::UsbToSerialBridge => {
            let steps = [
                ResetStep::Dtr(false),
                ResetStep::Rts(true),
                ResetStep::SleepMs(ESP32_BOOTLOADER_RESET_HOLD_MS),
                ResetStep::Dtr(true),
                ResetStep::Rts(false),
                ResetStep::SleepMs(ESP32_BOOTLOADER_RELEASE_WAIT_MS),
                ResetStep::Dtr(false),
            ];
            push_steps(&mut out, &steps);
        },
        Esp32BootloaderResetMode::UsbJtagSerial => {
            let steps = [
                ResetStep::Rts(false),
                ResetStep::Dtr(false),
                ResetStep::SleepMs(ESP32_USB_JTAG_RESET_STEP_MS),
                ResetStep::Dtr(true),
                ResetStep::Rts(false),
                ResetStep::SleepMs(ESP32_USB_JTAG_RESET_STEP_MS),
                ResetStep::Rts(true),
                ResetStep::Dtr(false),
                ResetStep::Rts(true),
                ResetStep::SleepMs(ESP32_USB_JTAG_RESET_STEP_MS),
                ResetStep::Dtr(false),
                ResetStep::Rts(false),
            ];
            push_steps(&mut out, &steps);
        },
    }
    assert(out@ =~= bootloader_steps(mode));
    out
}

/// The steps that restart the chip into its application.
pub fn esp32_hard_reset_steps(mode: Esp32BootloaderResetMode) -> (r: Vec<ResetStep>)
    ensures
        r@ == hard_reset_steps(mode),
{
    let mut out: Vec<ResetStep> = Vec::new();
    match mode {
        Esp32BootloaderResetMode::UsbJtagSerial => {
            let steps = [ResetStep::Rts(true), ResetStep::SleepMs(200), ResetStep::Rts(false), ResetStep::SleepMs(200)];
            push_steps(&mut out, &steps);
        },
        Esp32BootloaderResetMode::UsbToSerialBridge => {
            let steps = [ResetStep::Rts(true), ResetStep::SleepMs(ESP32_BOOTLOADER_RESET_HOLD_MS), ResetStep::Rts(false)];
            push_steps(&mut out, &steps);
        },
    }
    assert(out@ =~= hard_reset_steps(mode));
    out
}

/// The last level a sequence sets on DTR (`dtr`) or on RTS.
pub open spec fn last_level(steps: Seq<ResetStep>, dtr: bool) -> Option<bool>
    decreases steps.len(),
{
    if steps.len() == 0 {
        None
    } else {
        match steps.last() {
            ResetStep::Dtr(v) if dtr => Some(v),
            ResetStep::Rts(v) if !dtr => Some(v),
            _ => last_level(steps.drop_last(), dtr),
        }
    }
}

/// Every sequence leaves both lines low, so the chip runs afterwards, and
/// starts by setting a line rather than by waiting.
pub proof fn lemma_reset_sequences_release_lines(mode: Esp32BootloaderResetMode)
    ensures
        last_level(bootloader_steps(mode), true) == Some(false),
        last_level(bootloader_steps(mode), false) == Some(false),
        last_level(hard_reset_steps(mode), true) != Some(true),
        last_level(hard_reset_steps(mode), false) == Some(false),
        !(bootloader_steps(mode)[0] is SleepMs),
        !(hard_reset_steps(mode)[0] is SleepMs),
{
    reveal_with_fuel(last_level, 13);
}

} // verus!
