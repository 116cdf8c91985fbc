//! Serial profiles and host configuration, serial port names, terminal key
//! encoding for passthrough channels, and the text conversions of the
//! virtual serial endpoints.
use vstd::prelude::*;
use vstd::utf8::*;
use crate::envelope::DIRECTION_INPUT;
use crate::generic_enhanced::{
    latest_virtual_serial_capability_id, register_virtual_serial_provider, BuiltInProviderError,
};
use crate::manifest::{
    ChannelDescriptor, DeviceManifest, PassthroughPolicy, CHANNEL_INTERACTION_PASSTHROUGH,
    NEWLINE_POLICY_CR, NEWLINE_POLICY_CRLF, NEWLINE_POLICY_LF,
};
use crate::registry::ProviderRegistry;
use crate::text::{
    char_range, chars_after_last, decimal_string, push_char_utf8, push_str, str_chars, str_contains,
    str_eq, str_starts_with, string_from_chars,
};

verus! {

pub const PASSTHROUGH_EXIT_ESCAPE_TIMEOUT_MS: u64 = 750;
pub const DEFAULT_BAUD: u32 = 115_200;
pub const DEFAULT_DATA_BITS: u8 = 8;
pub const DEFAULT_STOP_BITS: u8 = 1;
pub const DEFAULT_VIRTUAL_SERIAL_NAME_TEMPLATE: &'static str = "wiremux-{device}-{channel}";
pub const MISSING_PORT_MESSAGE: &'static str = "serial port is required; pass --port <path> or configure [serial].port";

// ---------------------------------------------------------------------
// Serial settings

/// Serial parity.
#[derive(Clone, Copy, Debug, PartialEq, Eq, Structural)]
pub enum SerialParity {
    NoParity,
    Odd,
    Even,
}

impl Default for SerialParity {
    fn default() -> (r: Self)
        ensures
            r == SerialParity::NoParity,
    {
        SerialParity::NoParity
    }
}

impl SerialParity {
    /// The parity a configuration word names.
    pub open spec fn parsed(value: Seq<char>) -> Option<SerialParity> {
        if value == "none"@ {
            Some(SerialParity::NoParity)
        } else if value == "odd"@ {
            Some(SerialParity::Odd)
        } else if value == "even"@ {
            Some(SerialParity::Even)
        } else {
            None
        }
    }

    pub fn parse(value: &str) -> (r: Option<Self>)
        ensures
            r == Self::parsed(value@),
    {
        if str_eq(value, "none") {
            Some(SerialParity::NoParity)
        } else if str_eq(value, "odd") {
            Some(SerialParity::Odd)
        } else if str_eq(value, "even") {
            Some(SerialParity::Even)
        } else {
            None
        }
    }

    /// The letter of the parity in a `8N1` style summary.
    pub open spec fn letter(self) -> Seq<char> {
        match self {
            SerialParity::NoParity => "N"@,
            SerialParity::Odd => "O"@,
            SerialParity::Even => "E"@,
        }
    }

    /// The configuration word of the parity.
    pub open spec fn word(self) -> Seq<char> {
        match self {
            SerialParity::NoParity => "none"@,
            SerialParity::Odd => "odd"@,
            SerialParity::Even => "even"@,
        }
    }

    pub fn short_label(self) -> (r: &'static str)
        ensures
            r@ == self.letter(),
    {
        match self {
            SerialParity::NoParity => "N",
            SerialParity::Odd => "O",
            SerialParity::Even => "E",
        }
    }

    /// The configuration word of the parity, which `parse` reads back.
    pub fn label(self) -> (r: &'static str)
        ensures
            r@ == self.word(),
    {
        match self {
            SerialParity::NoParity => "none",
            SerialParity::Odd => "odd",
            SerialParity::Even => "even",
        }
    }
}

/// Serial flow control.
#[derive(Clone, Copy, Debug, PartialEq, Eq, Structural)]
pub enum SerialFlowControl {
    NoFlowControl,
    Software,
    Hardware,
}

impl Default for SerialFlowControl {
    fn default() -> (r: Self)
        ensures
            r == SerialFlowControl::NoFlowControl,
    {
        SerialFlowControl::NoFlowControl
    }
}

impl SerialFlowControl {
    /// The flow control a configuration word names.
    pub open spec fn parsed(value: Seq<char>) -> Option<SerialFlowControl> {
        if value == "none"@ {
            Some(SerialFlowControl::NoFlowControl)
        } else if value == "software"@ {
            Some(SerialFlowControl::Software)
        } else if value == "hardware"@ {
            Some(SerialFlowControl::Hardware)
        } else {
            None
        }
    }

    pub fn parse(value: &str) -> (r: Option<Self>)
        ensures
            r == Self::parsed(value@),
    {
        if str_eq(value, "none") {
            Some(SerialFlowControl::NoFlowControl)
        } else if str_eq(value, "software") {
            Some(SerialFlowControl::Software)
        } else if str_eq(value, "hardware") {
            Some(SerialFlowControl::Hardware)
        } else {
            None
        }
    }

    /// The configuration word of the flow control.
    pub open spec fn word(self) -> Seq<char> {
        match self {
            SerialFlowControl::NoFlowControl => "none"@,
            SerialFlowControl::Software => "software"@,
            SerialFlowControl::Hardware => "hardware"@,
        }
    }

    /// The configuration word of the flow control, which `parse` reads
    /// back.
    pub fn label(self) -> (r: &'static str)
        ensures
            r@ == self.word(),
    {
        match self {
            SerialFlowControl::NoFlowControl => "none",
            SerialFlowControl::Software => "software",
            SerialFlowControl::Hardware => "hardware",
        }
    }
}

/// The configuration word of a parity or flow control setting reads back
/// as that setting.
pub proof fn lemma_setting_words_parse(parity: SerialParity, flow: SerialFlowControl)
    ensures
        SerialParity::parsed(parity.word()) == Some(parity),
        SerialFlowControl::parsed(flow.word()) == Some(flow),
{
    reveal_strlit("none");
    reveal_strlit("odd");
    reveal_strlit("even");
    reveal_strlit("software");
    reveal_strlit("hardware");
    assert("odd"@ != "none"@) by {
        assert("odd"@[0] != "none"@[0]);
    }
    assert("even"@ != "none"@) by {
        assert("even"@[0] != "none"@[0]);
    }
    assert("even"@ != "odd"@) by {
        assert("even"@[0] != "odd"@[0]);
    }
    assert("software"@ != "none"@) by {
        assert("software"@[0] != "none"@[0]);
    }
    assert("hardware"@ != "none"@) by {
        assert("hardware"@[0] != "none"@[0]);
    }
    assert("hardware"@ != "software"@) by {
        assert("hardware"@[0] != "software"@[0]);
    }
}

/// Which terminal event backend an interactive session uses.
#[derive(Clone, Copy, Debug, PartialEq, Eq, Structural)]
pub enum InteractiveBackendMode {
    Auto,
    Compat,
    Mio,
}

impl InteractiveBackendMode {
    /// The backend a command-line word names.
    pub open spec fn parsed(value: Seq<char>) -> Option<InteractiveBackendMode> {
        if value == "auto"@ {
            Some(InteractiveBackendMode::Auto)
        } else if value == "compat"@ {
            Some(InteractiveBackendMode::Compat)
        } else if value == "mio"@ {
            Some(InteractiveBackendMode::Mio)
        } else {
            None
        }
    }

    pub fn parse(value: &str) -> (r: Option<Self>)
        ensures
            r == Self::parsed(value@),
    {
        if str_eq(value, "auto") {
            Some(InteractiveBackendMode::Auto)
        } else if str_eq(value, "compat") {
            Some(InteractiveBackendMode::Compat)
        } else if str_eq(value, "mio") {
            Some(InteractiveBackendMode::Mio)
        } else {
            None
        }
    }
}

/// A complete serial profile.
#[derive(Clone, Debug, PartialEq, Eq)]
pub struct SerialProfile {
    pub port: String,
    pub baud: u32,
    pub data_bits: u8,
    pub stop_bits: u8,
    pub parity: SerialParity,
    pub flow_control: SerialFlowControl,
}

/// Why a profile is unusable, checked in this order; `None` when it is
/// usable.
pub open spec fn profile_error(baud: u32, data_bits: u8, stop_bits: u8) -> Option<Seq<char>> {
    if baud == 0 {
        Some("baud must be greater than 0"@)
    } else if !(5 <= data_bits && data_bits <= 8) {
        Some("invalid data bits: "@ + crate::text::decimal_chars(data_bits as nat) + "; expected 5, 6, 7, or 8"@)
    } else if !(stop_bits == 1 || stop_bits == 2) {
        Some("invalid stop bits: "@ + crate::text::decimal_chars(stop_bits as nat) + "; expected 1 or 2"@)
    } else {
        None
    }
}

/// The message for data bits outside 5..=8.
fn data_bits_error(value: u8) -> (r: String)
    ensures
        r@ == "invalid data bits: "@ + crate::text::decimal_chars(value as nat) + "; expected 5, 6, 7, or 8"@,
{
    let mut out = String::new();
    push_str(&mut out, "invalid data bits: ");
    let digits = decimal_string(value as u64);
    push_str(&mut out, digits.as_str());
    push_str(&mut out, "; expected 5, 6, 7, or 8");
    proof {
        reveal_strlit("invalid data bits: ");
    }
    assert(out@ =~= "invalid data bits: "@ + crate::text::decimal_chars(value as nat) + "; expected 5, 6, 7, or 8"@);
    out
}

/// The message for stop bits other than 1 and 2.
fn stop_bits_error(value: u8) -> (r: String)
    ensures
        r@ == "invalid stop bits: "@ + crate::text::decimal_chars(value as nat) + "; expected 1 or 2"@,
{
    let mut out = String::new();
    push_str(&mut out, "invalid stop bits: ");
    let digits = decimal_string(value as u64);
    push_str(&mut out, digits.as_str());
    push_str(&mut out, "; expected 1 or 2");
    assert(out@ =~= "invalid stop bits: "@ + crate::text::decimal_chars(value as nat) + "; expected 1 or 2"@);
    out
}

impl SerialProfile {
    /// Checks that the serial settings can be opened.
    pub fn validate(&self) -> (r: Result<(), String>)
        ensures
            match profile_error(self.baud, self.data_bits, self.stop_bits) {
                Some(msg) => r matches Err(m) && m@ == msg,
                None => r is Ok,
            },
    {
        if self.baud == 0 {
            return Err("baud must be greater than 0".to_owned());
        }
        if !(5 <= self.data_bits && self.data_bits <= 8) {
            return Err(data_bits_error(self.data_bits));
        }
        if !(self.stop_bits == 1 || self.stop_bits == 2) {
            return Err(stop_bits_error(self.stop_bits));
        }
        Ok(())
    }

    /// The one-line description of the profile: port, baud, data bits,
    /// parity letter, stop bits and flow control.
    pub fn summary(&self) -> (r: String)
        ensures
            r@ == self.port@ + " "@ + crate::text::decimal_chars(self.baud as nat) + " "@
                + crate::text::decimal_chars(self.data_bits as nat) + self.parity.letter()
                + crate::text::decimal_chars(self.stop_bits as nat) + " flow="@ + self.flow_control.word(),
    {
        let mut out = self.port.clone();
        push_str(&mut out, " ");
        let baud = decimal_string(self.baud as u64);
        push_str(&mut out, baud.as_str());
        push_str(&mut out, " ");
        let data_bits = decimal_string(self.data_bits as u64);
        push_str(&mut out, data_bits.as_str());
        push_str(&mut out, self.parity.short_label());
        let stop_bits = decimal_string(self.stop_bits as u64);
        push_str(&mut out, stop_bits.as_str());
        push_str(&mut out, " flow=");
        push_str(&mut out, self.flow_control.label());
        out
    }
}

/// Serial settings as configured; the port may be missing.
#[derive(Clone, Debug, PartialEq, Eq)]
pub struct SerialConfig {
    pub port: Option<String>,
    pub baud: u32,
    pub data_bits: u8,
    pub stop_bits: u8,
    pub parity: SerialParity,
    pub flow_control: SerialFlowControl,
}

impl Default for SerialConfig {
    fn default() -> (r: Self)
        ensures
            r.port is None,
            r.baud == DEFAULT_BAUD,
            r.data_bits == DEFAULT_DATA_BITS,
            r.stop_bits == DEFAULT_STOP_BITS,
            r.parity == SerialParity::NoParity,
            r.flow_control == SerialFlowControl::NoFlowControl,
    {
        SerialConfig {
            port: None,
            baud: DEFAULT_BAUD,
            data_bits: DEFAULT_DATA_BITS,
            stop_bits: DEFAULT_STOP_BITS,
            parity: SerialParity::NoParity,
            flow_control: SerialFlowControl::NoFlowControl,
        }
    }
}

/// Settings given on the command line, each overriding the configuration.
#[derive(Clone, Debug, Default, PartialEq, Eq)]
pub struct SerialProfileOverrides {
    pub port: Option<String>,
    pub baud: Option<u32>,
    pub data_bits: Option<u8>,
    pub stop_bits: Option<u8>,
    pub parity: Option<SerialParity>,
    pub flow_control: Option<SerialFlowControl>,
}

impl SerialProfileOverrides {
    /// No overrides.
    pub fn none() -> (r: Self)
        ensures
            r.port is None,
            r.baud is None,
            r.data_bits is None,
            r.stop_bits is None,
            r.parity is None,
            r.flow_control is None,
    {
        SerialProfileOverrides { port: None, baud: None, data_bits: None, stop_bits: None, parity: None, flow_control: None }
    }
}

/// The value of an override, or the configured one.
pub open spec fn or_config<T>(o: Option<T>, configured: T) -> T {
    match o {
        Some(v) => v,
        None => configured,
    }
}

impl SerialConfig {
    pub fn from_profile(profile: &SerialProfile) -> (r: Self)
        ensures
            r.port matches Some(p) && p@ == profile.port@,
            r.baud == profile.baud,
            r.data_bits == profile.data_bits,
            r.stop_bits == profile.stop_bits,
            r.parity == profile.parity,
            r.flow_control == profile.flow_control,
    {
        SerialConfig {
            port: Some(profile.port.clone()),
            baud: profile.baud,
            data_bits: profile.data_bits,
            stop_bits: profile.stop_bits,
            parity: profile.parity,
            flow_control: profile.flow_control,
        }
    }

    /// The profile that the overrides and this configuration make; the
    /// port must come from one of them, and the profile must be valid.
    pub fn resolve_profile(&self, overrides: SerialProfileOverrides) -> (r: Result<SerialProfile, String>)
        ensures
            overrides.port is None && self.port is None ==> (r matches Err(m) && m@ == MISSING_PORT_MESSAGE@),
            !(overrides.port is None && self.port is None) ==> ({
                let port = match overrides.port {
                    Some(p) => p@,
                    None => self.port->Some_0@,
                };
                let baud = or_config(overrides.baud, self.baud);
                let data_bits = or_config(overrides.data_bits, self.data_bits);
                let stop_bits = or_config(overrides.stop_bits, self.stop_bits);
                match profile_error(baud, data_bits, stop_bits) {
                    Some(msg) => r matches Err(m) && m@ == msg,
                    None => r matches Ok(p) && p.port@ == port && p.baud == baud && p.data_bits == data_bits
                        && p.stop_bits == stop_bits && p.parity == or_config(overrides.parity, self.parity)
                        && p.flow_control == or_config(overrides.flow_control, self.flow_control),
                }
            }),
    {
        let port = match overrides.port {
            Some(p) => p,
            None => match &self.port {
                Some(p) => p.clone(),
                None => {
                    return Err(MISSING_PORT_MESSAGE.to_owned());
                },
            },
        };
        let profile = SerialProfile {
            port,
            baud: match overrides.baud {
                Some(v) => v,
                None => self.baud,
            },
            data_bits: match overrides.data_bits {
                Some(v) => v,
                None => self.data_bits,
            },
            stop_bits: match overrides.stop_bits {
                Some(v) => v,
                None => self.stop_bits,
            },
            parity: match overrides.parity {
                Some(v) => v,
                None => self.parity,
            },
            flow_control: match overrides.flow_control {
                Some(v) => v,
                None => self.flow_control,
            },
        };
        match profile.validate() {
            Ok(()) => Ok(profile),
            Err(e) => Err(e),
        }
    }
}

/// Which channels the virtual serial endpoints export.
#[derive(Clone, Copy, Debug, Default, PartialEq, Eq, Structural)]
pub enum VirtualSerialExport {
    #[default]
    AllManifestChannels,
}

/// How channels are exported as virtual serial endpoints.
#[derive(Clone, Debug, PartialEq, Eq)]
pub struct VirtualSerialConfig {
    pub enabled: bool,
    pub export: VirtualSerialExport,
    pub name_template: String,
}

impl Default for VirtualSerialConfig {
    fn default() -> (r: Self)
        ensures
            r.enabled,
            r.export == VirtualSerialExport::AllManifestChannels,
            r.name_template@ == DEFAULT_VIRTUAL_SERIAL_NAME_TEMPLATE@,
    {
        VirtualSerialConfig {
            enabled: true,
            export: VirtualSerialExport::AllManifestChannels,
            name_template: DEFAULT_VIRTUAL_SERIAL_NAME_TEMPLATE.to_owned(),
        }
    }
}

/// The host configuration: serial settings and virtual serial settings,
/// and whether the latter were configured explicitly.
#[derive(Clone, Debug, PartialEq, Eq)]
pub struct HostConfig {
    pub serial: SerialConfig,
    pub virtual_serial: VirtualSerialConfig,
    pub virtual_serial_configured: bool,
}

/// Whether `c` is the default configuration: no port, the default serial
/// settings, virtual serial on with the default name template, and no
/// `[virtual_serial]` section given.
pub open spec fn is_default_host_config(c: HostConfig) -> bool {
    &&& c.serial.port is None
    &&& c.serial.baud == DEFAULT_BAUD
    &&& c.serial.data_bits == DEFAULT_DATA_BITS
    &&& c.serial.stop_bits == DEFAULT_STOP_BITS
    &&& c.serial.parity == SerialParity::NoParity
    &&& c.serial.flow_control == SerialFlowControl::NoFlowControl
    &&& c.virtual_serial.enabled
    &&& c.virtual_serial.name_template@ == DEFAULT_VIRTUAL_SERIAL_NAME_TEMPLATE@
    &&& !c.virtual_serial_configured
}

impl Default for HostConfig {
    fn default() -> (r: Self)
        ensures
            is_default_host_config(r),
    {
        HostConfig {
            serial: SerialConfig::default(),
            virtual_serial: VirtualSerialConfig::default(),
            virtual_serial_configured: false,
        }
    }
}

impl HostConfig {
    /// A configuration that records `profile` and leaves virtual serial at
    /// its defaults.
    pub fn from_serial_profile(profile: &SerialProfile) -> (r: Self)
        ensures
            r.serial.port matches Some(p) && p@ == profile.port@,
            r.serial.baud == profile.baud,
            r.serial.data_bits == profile.data_bits,
            r.serial.stop_bits == profile.stop_bits,
            r.serial.parity == profile.parity,
            r.serial.flow_control == profile.flow_control,
            r.virtual_serial.enabled,
            r.virtual_serial.name_template@ == DEFAULT_VIRTUAL_SERIAL_NAME_TEMPLATE@,
            !r.virtual_serial_configured,
    {
        HostConfig {
            serial: SerialConfig::from_profile(profile),
            virtual_serial: VirtualSerialConfig::default(),
            virtual_serial_configured: false,
        }
    }

    /// A configuration that records `profile` and the virtual serial
    /// settings, marked as configured.
    pub fn from_serial_profile_and_virtual(profile: &SerialProfile, virtual_serial: VirtualSerialConfig) -> (r: Self)
        ensures
            r.serial.port matches Some(p) && p@ == profile.port@,
            r.serial.baud == profile.baud,
            r.serial.data_bits == profile.data_bits,
            r.serial.stop_bits == profile.stop_bits,
            r.serial.parity == profile.parity,
            r.serial.flow_control == profile.flow_control,
            r.virtual_serial == virtual_serial,
            r.virtual_serial_configured,
    {
        HostConfig {
            serial: SerialConfig::from_profile(profile),
            virtual_serial,
            virtual_serial_configured: true,
        }
    }
}

// ---------------------------------------------------------------------
// Serial port names

/// The path without what ends it but names nothing: trailing `/`
/// separators and trailing `.` components (a lone `/` stays).
pub open spec fn trim_path_end(path: Seq<char>) -> Seq<char>
    decreases path.len(),
{
    if path.len() > 1 && path.last() == '/' {
        trim_path_end(path.drop_last())
    } else if path.len() >= 2 && path.last() == '.' && path[path.len() - 2] == '/' {
        trim_path_end(path.drop_last())
    } else {
        path
    }
}

/// The last component of a `/`-separated path, if it names something: not
/// the root, `.` or `..`.
pub open spec fn file_name(path: Seq<char>) -> Option<Seq<char>> {
    let t = trim_path_end(path);
    let name = t.subrange(crate::text::after_last(t, '/'), t.len() as int);
    if name.len() == 0 || name == "."@ || name == ".."@ {
        None
    } else {
        Some(name)
    }
}

/// The characters of the path, trimmed at its end.
fn trimmed_path_chars(path: &str) -> (r: Vec<char>)
    ensures
        r@ == trim_path_end(path@),
{
    let chars = str_chars(path);
    let mut n: usize = chars.len();
    assert(chars@.subrange(0, n as int) =~= chars@);
    while (n > 1 && chars[n - 1] == '/') || (n >= 2 && chars[n - 1] == '.' && chars[n - 2] == '/')
        invariant
            n <= chars@.len(),
            chars@ == path@,
            trim_path_end(chars@.subrange(0, n as int)) == trim_path_end(path@),
        decreases n,
    {
        let ghost prev = chars@.subrange(0, n as int);
        assert(prev.drop_last() =~= chars@.subrange(0, n - 1));
        n = n - 1;
    }
    let r = char_range(chars.as_slice(), 0, n);
    r
}

/// The index where the last component of the path starts.
fn file_name_start(chars: &Vec<char>) -> (r: usize)
    ensures
        r as int == crate::text::after_last(chars@, '/'),
        r <= chars@.len(),
{
    proof {
        crate::text::lemma_after_last(chars@, '/');
    }
    chars_after_last(chars.as_slice(), '/')
}

/// The last component of a path.
pub fn path_file_name(path: &str) -> (r: Option<String>)
    ensures
        match file_name(path@) {
            Some(n) => r matches Some(s) && s@ == n,
            None => r is None,
        },
{
    let chars = trimmed_path_chars(path);
    let start = file_name_start(&chars);
    let name = char_range(chars.as_slice(), start, chars.len());
    let text = string_from_chars(name.as_slice());
    if name.len() == 0 || str_eq(text.as_str(), ".") || str_eq(text.as_str(), "..") {
        None
    } else {
        Some(text)
    }
}

/// The path with its last component replaced.
pub open spec fn with_file_name(path: Seq<char>, name: Seq<char>) -> Seq<char> {
    let t = trim_path_end(path);
    t.subrange(0, crate::text::after_last(t, '/')) + name
}

/// The name of the same device under the other macOS prefix: `tty.` for
/// `cu.` and back.
pub open spec fn paired_name(name: Seq<char>) -> Option<Seq<char>> {
    if crate::text::has_prefix(name, "tty."@) {
        Some("cu."@ + name.subrange(4, name.len() as int))
    } else if crate::text::has_prefix(name, "cu."@) {
        Some("tty."@ + name.subrange(3, name.len() as int))
    } else {
        None
    }
}

/// The path of the paired `tty.`/`cu.` device.
pub fn paired_tty_cu_path(path: &str) -> (r: Option<String>)
    ensures
        match file_name(path@) {
            Some(n) => match paired_name(n) {
                Some(p) => r matches Some(s) && s@ == with_file_name(path@, p),
                None => r is None,
            },
            None => r is None,
        },
{
    let name = match path_file_name(path) {
        Some(n) => n,
        None => {
            return None;
        },
    };
    let name_chars = str_chars(name.as_str());
    let mut paired: Vec<char> = Vec::new();
    proof {
        reveal_strlit("tty.");
        reveal_strlit("cu.");
    }
    if str_starts_with(name.as_str(), "tty.") {
        paired.push('c');
        paired.push('u');
        paired.push('.');
        let rest = char_range(name_chars.as_slice(), 4, name_chars.len());
        paired.append(&mut rest.clone());
        assert(paired@ =~= "cu."@ + name@.subrange(4, name@.len() as int));
    } else if str_starts_with(name.as_str(), "cu.") {
        paired.push('t');
        paired.push('t');
        paired.push('y');
        paired.push('.');
        let rest = char_range(name_chars.as_slice(), 3, name_chars.len());
        paired.append(&mut rest.clone());
        assert(paired@ =~= "tty."@ + name@.subrange(3, name@.len() as int));
    } else {
        return None;
    }
    let chars = trimmed_path_chars(path);
    let start = file_name_start(&chars);
    let mut out = char_range(chars.as_slice(), 0, start);
    out.append(&mut paired);
    Some(string_from_chars(out.as_slice()))
}

/// Which USB serial name fragment the file name of the path holds.
pub open spec fn usb_fragment(path: Seq<char>) -> Option<Seq<char>> {
    match file_name(path) {
        Some(n) => if crate::text::contains_chars(n, "usbmodem"@) {
            Some("usbmodem"@)
        } else if crate::text::contains_chars(n, "usbserial"@) {
            Some("usbserial"@)
        } else {
            None
        },
        None => None,
    }
}

/// The USB serial name fragment of the port's file name, if any.
pub fn usbmodem_fragment(path: &str) -> (r: Option<&'static str>)
    ensures
        match usb_fragment(path@) {
            Some(f) => r matches Some(s) && s@ == f,
            None => r is None,
        },
{
    let name = match path_file_name(path) {
        Some(n) => n,
        None => {
            return None;
        },
    };
    if str_contains(name.as_str(), "usbmodem") {
        Some("usbmodem")
    } else if str_contains(name.as_str(), "usbserial") {
        Some("usbserial")
    } else {
        None
    }
}

/// Whether the file name of the path begins with `prefix`.
pub fn requested_file_name_starts_with(path: &str, prefix: &str) -> (r: bool)
    ensures
        r == (file_name(path@) is Some && crate::text::has_prefix(file_name(path@)->Some_0, prefix@)),
{
    match path_file_name(path) {
        Some(n) => str_starts_with(n.as_str(), prefix),
        None => false,
    }
}

/// Appends `path` unless it is already present.
pub fn push_unique(paths: &mut Vec<String>, path: String)
    ensures
        (exists|i: int| 0 <= i < old(paths)@.len() && old(paths)@[i]@ == path@) ==> final(paths)@ == old(paths)@,
        !(exists|i: int| 0 <= i < old(paths)@.len() && old(paths)@[i]@ == path@) ==> final(paths)@ == old(paths)@.push(path),
{
    let mut i: usize = 0;
    while i < paths.len()
        invariant
            i <= paths@.len(),
            paths@ == old(paths)@,
            forall|k: int| 0 <= k < i ==> paths@[k]@ != path@,
        decreases paths@.len() - i,
    {
        if paths[i] == path {
            return;
        }
        i = i + 1;
    }
    paths.push(path);
}

// ---------------------------------------------------------------------
// Passthrough keys

/// A terminal key as passthrough input sees it.
#[derive(Clone, Copy, Debug, PartialEq, Eq, Structural)]
pub enum TerminalKeyCode {
    Char(char),
    Enter,
    Backspace,
    Delete,
    Tab,
    Esc,
    Left,
    Right,
    Up,
    Down,
    Home,
    End,
    Other,
}

/// A key press with the modifiers that the interface cares about.
#[derive(Clone, Copy, Debug, PartialEq, Eq, Structural)]
pub struct TerminalKey {
    pub code: TerminalKeyCode,
    pub control: bool,
    pub alt: bool,
    pub shift: bool,
    pub super_key: bool,
}

/// The bytes that the Enter key sends under a newline policy.
pub open spec fn newline_seq(policy: u32) -> Seq<u8> {
    if policy == NEWLINE_POLICY_LF {
        seq![10u8]
    } else if policy == NEWLINE_POLICY_CR {
        seq![13u8]
    } else if policy == NEWLINE_POLICY_CRLF {
        seq![13u8, 10u8]
    } else {
        seq![13u8]
    }
}

pub fn newline_bytes(policy: u32) -> (r: Vec<u8>)
    ensures
        r@ == newline_seq(policy),
{
    let mut out: Vec<u8> = Vec::new();
    if policy == NEWLINE_POLICY_LF {
        out.push(10);
    } else if policy == NEWLINE_POLICY_CRLF {
        out.push(13);
        out.push(10);
    } else {
        out.push(13);
    }
    assert(out@ =~= newline_seq(policy));
    out
}

/// The control byte that Ctrl with a character sends: letters of either
/// case and `[ \ ] ^ _`.
pub open spec fn control_byte(c: char) -> Option<u8> {
    let v = c as u32;
    if 0x61 <= v && v <= 0x7a {
        Some((v - 0x60) as u8)
    } else if 0x41 <= v && v <= 0x5a {
        Some((v - 0x40) as u8)
    } else if 0x5b <= v && v <= 0x5f {
        Some((v - 0x40) as u8)
    } else {
        None
    }
}

pub fn ascii_control_byte(ch: char) -> (r: Option<u8>)
    ensures
        r == control_byte(ch),
{
    let v = ch as u32;
    let lower = if 0x41 <= v && v <= 0x5a { v + 0x20 } else { v };
    if 0x61 <= lower && lower <= 0x7a {
        let b = lower as u8;
        assert(b & 0x1f == b - 0x60) by (bit_vector)
            requires
                0x61 <= b <= 0x7a,
        ;
        Some(b & 0x1f)
    } else if 0x5b <= v && v <= 0x5f {
        let b = v as u8;
        assert(b & 0x1f == b - 0x40) by (bit_vector)
            requires
                0x5b <= b <= 0x5f,
        ;
        Some(b & 0x1f)
    } else {
        None
    }
}

/// The bytes a key sends to a passthrough channel.
pub open spec fn key_payload(key: TerminalKey, policy: PassthroughPolicy) -> Option<Seq<u8>> {
    match key.code {
        TerminalKeyCode::Char(c) => if key.control {
            match control_byte(c) {
                Some(b) => Some(seq![b]),
                None => None,
            }
        } else {
            Some(encode_scalar(c as u32))
        },
        TerminalKeyCode::Enter => Some(newline_seq(policy.input_newline_policy)),
        TerminalKeyCode::Backspace => Some(seq![0x7fu8]),
        TerminalKeyCode::Delete => Some(seq![0x1bu8, 0x5bu8, 0x33u8, 0x7eu8]),
        TerminalKeyCode::Tab => Some(seq![0x09u8]),
        TerminalKeyCode::Esc => Some(seq![0x1bu8]),
        TerminalKeyCode::Left => Some(seq![0x1bu8, 0x5bu8, 0x44u8]),
        TerminalKeyCode::Right => Some(seq![0x1bu8, 0x5bu8, 0x43u8]),
        TerminalKeyCode::Up => Some(seq![0x1bu8, 0x5bu8, 0x41u8]),
        TerminalKeyCode::Down => Some(seq![0x1bu8, 0x5bu8, 0x42u8]),
        TerminalKeyCode::Home => Some(seq![0x1bu8, 0x5bu8, 0x48u8]),
        TerminalKeyCode::End => Some(seq![0x1bu8, 0x5bu8, 0x46u8]),
        TerminalKeyCode::Other => None,
    }
}

/// Cursor and editing keys send the standard ANSI sequences, whatever the
/// modifiers and the newline policy: `ESC [ A` up, `ESC [ B` down,
/// `ESC [ C` right, `ESC [ D` left, `ESC [ H` home, `ESC [ F` end,
/// `ESC [ 3 ~` delete; backspace sends DEL and tab sends HT.
pub proof fn lemma_cursor_key_sequences(key: TerminalKey, policy: PassthroughPolicy)
    ensures
        key.code == TerminalKeyCode::Up ==> key_payload(key, policy) == Some(seq![27u8, 91u8, 65u8]),
        key.code == TerminalKeyCode::Down ==> key_payload(key, policy) == Some(seq![27u8, 91u8, 66u8]),
        key.code == TerminalKeyCode::Right ==> key_payload(key, policy) == Some(seq![27u8, 91u8, 67u8]),
        key.code == TerminalKeyCode::Left ==> key_payload(key, policy) == Some(seq![27u8, 91u8, 68u8]),
        key.code == TerminalKeyCode::Home ==> key_payload(key, policy) == Some(seq![27u8, 91u8, 72u8]),
        key.code == TerminalKeyCode::End ==> key_payload(key, policy) == Some(seq![27u8, 91u8, 70u8]),
        key.code == TerminalKeyCode::Delete ==> key_payload(key, policy) == Some(seq![27u8, 91u8, 51u8, 126u8]),
        key.code == TerminalKeyCode::Backspace ==> key_payload(key, policy) == Some(seq![127u8]),
        key.code == TerminalKeyCode::Tab ==> key_payload(key, policy) == Some(seq![9u8]),
        key.code == TerminalKeyCode::Esc ==> key_payload(key, policy) == Some(seq![27u8]),
{
}

fn escape_sequence(last: u8) -> (r: Vec<u8>)
    ensures
        r@ == seq![0x1bu8, 0x5bu8, last],
{
    let mut out: Vec<u8> = Vec::new();
    out.push(0x1b);
    out.push(0x5b);
    out.push(last);
    assert(out@ =~= seq![0x1bu8, 0x5bu8, last]);
    out
}

fn single_byte(b: u8) -> (r: Vec<u8>)
    ensures
        r@ == seq![b],
{
    let mut out: Vec<u8> = Vec::new();
    out.push(b);
    assert(out@ =~= seq![b]);
    out
}

/// The bytes a key sends to a passthrough channel, if it sends any.
pub fn passthrough_key_payload(key: TerminalKey, policy: PassthroughPolicy) -> (r: Option<Vec<u8>>)
    ensures
        match key_payload(key, policy) {
            Some(bytes) => r matches Some(v) && v@ == bytes,
            None => r is None,
        },
{
    match key.code {
        TerminalKeyCode::Char(c) => {
            if key.control {
                match ascii_control_byte(c) {
                    Some(b) => Some(single_byte(b)),
                    None => None,
                }
            } else {
                let mut out: Vec<u8> = Vec::new();
                push_char_utf8(&mut out, c);
                assert(out@ =~= encode_scalar(c as u32));
                Some(out)
            }
        },
        TerminalKeyCode::Enter => Some(newline_bytes(policy.input_newline_policy)),
        TerminalKeyCode::Backspace => Some(single_byte(0x7f)),
        TerminalKeyCode::Delete => {
            let mut out = escape_sequence(0x33);
            out.push(0x7e);
            assert(out@ =~= seq![0x1bu8, 0x5bu8, 0x33u8, 0x7eu8]);
            Some(out)
        },
        TerminalKeyCode::Tab => Some(single_byte(0x09)),
        TerminalKeyCode::Esc => Some(single_byte(0x1b)),
        TerminalKeyCode::Left => Some(escape_sequence(0x44)),
        TerminalKeyCode::Right => Some(escape_sequence(0x43)),
        TerminalKeyCode::Up => Some(escape_sequence(0x41)),
        TerminalKeyCode::Down => Some(escape_sequence(0x42)),
        TerminalKeyCode::Home => Some(escape_sequence(0x48)),
        TerminalKeyCode::End => Some(escape_sequence(0x46)),
        TerminalKeyCode::Other => None,
    }
}

/// Whether the key leaves passthrough: `Ctrl-]` in any of the forms a
/// terminal reports it.
pub fn is_passthrough_exit_key(key: TerminalKey) -> (r: bool)
    ensures
        r == (key.code == TerminalKeyCode::Char('\u{1d}') || (key.control && (key.code == TerminalKeyCode::Char(']')
            || key.code == TerminalKeyCode::Char('}')))),
{
    match key.code {
        TerminalKeyCode::Char(c) => c == '\u{1d}' || (key.control && (c == ']' || c == '}')),
        _ => false,
    }
}

/// Whether the key is the `x` that ends an escape-then-x exit.
pub fn is_passthrough_escape_exit_suffix(key: TerminalKey) -> (r: bool)
    ensures
        r == (key.code == TerminalKeyCode::Char('x') || key.code == TerminalKeyCode::Char('X')),
{
    match key.code {
        TerminalKeyCode::Char(c) => c == 'x' || c == 'X',
        _ => false,
    }
}

/// Whether the key is `Alt-x`.
pub fn is_passthrough_meta_exit_key(key: TerminalKey) -> (r: bool)
    ensures
        r == (key.alt && (key.code == TerminalKeyCode::Char('x') || key.code == TerminalKeyCode::Char('X'))),
{
    key.alt && is_passthrough_escape_exit_suffix(key)
}

// ---------------------------------------------------------------------
// Generic enhanced providers of this host

/// The registry of the generic enhanced providers this host has.
pub fn generic_enhanced_registry() -> (r: Result<ProviderRegistry, BuiltInProviderError>)
    ensures
        r matches Ok(reg) && reg.well_formed()
            && reg.registrations() == seq![(crate::generic_enhanced::virtual_serial_view(), crate::generic_enhanced::VIRTUAL_SERIAL_PROVIDER_KEY@)],
{
    let mut registry = ProviderRegistry::new();
    proof {
        crate::registry::lemma_first_with_id_prefix(
            crate::registry::registered_capabilities(registry.registrations()),
            crate::generic_enhanced::virtual_serial_view().id,
            0,
        );
    }
    match register_virtual_serial_provider(&mut registry) {
        Ok(()) => {},
        Err(e) => {
            return Err(e);
        },
    }
    assert(registry.registrations() =~= seq![(crate::generic_enhanced::virtual_serial_view(), crate::generic_enhanced::VIRTUAL_SERIAL_PROVIDER_KEY@)]);
    Ok(registry)
}

/// Whether this host provides virtual serial endpoints.
pub fn host_supports_virtual_serial_provider() -> (r: bool)
    ensures
        r,
{
    let registry = match generic_enhanced_registry() {
        Ok(reg) => reg,
        Err(_) => {
            return false;
        },
    };
    let capability_id = match latest_virtual_serial_capability_id() {
        Ok(id) => id,
        Err(_) => {
            return false;
        },
    };
    proof {
        let reg = (crate::generic_enhanced::virtual_serial_view(), crate::generic_enhanced::VIRTUAL_SERIAL_PROVIDER_KEY@);
        crate::registry::lemma_register_then_resolve(Seq::empty(), reg, reg.0.id);
        assert(Seq::<crate::registry::RegistrationView>::empty().push(reg) =~= registry.registrations());
    }
    registry.supports(&capability_id)
}

/// How often a backend without readiness events polls, in milliseconds.
pub const COMPAT_POLL_INTERVAL_MS: u64 = 10;

/// How long a polling backend waits before looking again: until the
/// deadline, at most one poll interval; not at all once the deadline has
/// passed. Instants are milliseconds on one clock.
pub fn compat_wait_duration(deadline: Option<u64>, now: u64) -> (r: Option<u64>)
    ensures
        r == match deadline {
            Some(d) => if now >= d {
                None::<u64>
            } else {
                Some(if d - now < COMPAT_POLL_INTERVAL_MS { (d - now) as u64 } else { COMPAT_POLL_INTERVAL_MS })
            },
            None => Some(COMPAT_POLL_INTERVAL_MS),
        },
{
    match deadline {
        Some(d) => {
            if now >= d {
                None
            } else {
                let left = d - now;
                Some(if left < COMPAT_POLL_INTERVAL_MS { left } else { COMPAT_POLL_INTERVAL_MS })
            }
        },
        None => Some(COMPAT_POLL_INTERVAL_MS),
    }
}

} // verus!
