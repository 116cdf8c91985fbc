//! The command line of the host tool: subcommands, options, and how the
//! configuration fills in what the options leave out.
use vstd::prelude::*;
use crate::frame::DEFAULT_MAX_PAYLOAD_LEN;
use crate::interactive::{
    is_default_host_config, HostConfig, InteractiveBackendMode, SerialConfig, SerialFlowControl, SerialParity, SerialProfile,
    SerialProfileOverrides, VirtualSerialConfig,
};
use crate::text::{parse_decimal, push_str, str_eq};

verus! {

pub const USAGE: &'static str = "usage:\n  wiremux listen [--port <path>] [--baud 115200] [--data-bits 8] [--stop-bits 1] [--parity none|odd|even] [--flow-control none|software|hardware] [--max-payload bytes] [--reconnect-delay-ms 500] [--channel id] [--line text] [--send-channel id]\n  wiremux send [--port <path>] --channel <id> --line <text> [--baud 115200] [--data-bits 8] [--stop-bits 1] [--parity none|odd|even] [--flow-control none|software|hardware] [--max-payload bytes]\n  wiremux passthrough [--port <path>] --channel <id> [--baud 115200] [--data-bits 8] [--stop-bits 1] [--parity none|odd|even] [--flow-control none|software|hardware] [--max-payload bytes] [--interactive-backend auto|compat|mio]\n  wiremux tui [--port <path>] [--baud 115200] [--data-bits 8] [--stop-bits 1] [--parity none|odd|even] [--flow-control none|software|hardware] [--max-payload bytes] [--reconnect-delay-ms 500] [--interactive-backend auto|compat|mio] [--tui-fps 60|120]";

pub const DEFAULT_RECONNECT_DELAY_MS: u64 = 500;

/// How to run the terminal interface.
#[derive(Debug, Clone)]
pub struct TuiArgs {
    pub serial: SerialProfile,
    /// Where the configuration is stored; the program fills it in.
    pub config_path: Option<String>,
    pub max_payload_len: usize,
    pub reconnect_delay_ms: u64,
    pub interactive_backend: InteractiveBackendMode,
    pub tui_fps: Option<u16>,
    pub virtual_serial: VirtualSerialConfig,
    pub virtual_serial_supported: bool,
}

/// How to listen to the device.
#[derive(Debug)]
pub struct ListenArgs {
    pub serial: SerialProfile,
    pub max_payload_len: usize,
    pub reconnect_delay_ms: u64,
    pub channel: Option<u32>,
    pub send_channel: Option<u8>,
    pub line: Option<String>,
}

/// A line to send to a channel.
#[derive(Debug)]
pub struct SendArgs {
    pub serial: SerialProfile,
    pub max_payload_len: usize,
    pub channel: u8,
    pub line: String,
}

/// A channel to attach the terminal to.
#[derive(Debug)]
pub struct PassthroughArgs {
    pub serial: SerialProfile,
    pub max_payload_len: usize,
    pub channel: u8,
    pub interactive_backend: InteractiveBackendMode,
}

/// What the command line asks for.
#[derive(Debug)]
pub enum CliCommand {
    Listen(ListenArgs),
    Send(SendArgs),
    Passthrough(PassthroughArgs),
    Tui(TuiArgs),
}

/// The options read so far.
pub struct OptionState {
    pub port: Option<Seq<char>>,
    pub baud: Option<u32>,
    pub data_bits: Option<u8>,
    pub stop_bits: Option<u8>,
    pub parity: Option<SerialParity>,
    pub flow_control: Option<SerialFlowControl>,
    pub max_payload_len: usize,
    pub reconnect_delay_ms: u64,
    pub channel: Option<u8>,
    pub send_channel: Option<u8>,
    pub line: Option<Seq<char>>,
    pub backend: InteractiveBackendMode,
    pub tui_fps: Option<u16>,
}

/// The options before any is read.
pub open spec fn initial_options() -> OptionState {
    OptionState {
        port: None,
        baud: None,
        data_bits: None,
        stop_bits: None,
        parity: None,
        flow_control: None,
        max_payload_len: DEFAULT_MAX_PAYLOAD_LEN,
        reconnect_delay_ms: DEFAULT_RECONNECT_DELAY_MS,
        channel: None,
        send_channel: None,
        line: None,
        backend: InteractiveBackendMode::Auto,
        tui_fps: None,
    }
}

/// How reading the options ended.
pub enum OptionsOutcome {
    Help,
    Failed(Seq<char>),
    Parsed(OptionState),
}

/// A channel id as `--channel` and `--send-channel` take it.
pub open spec fn channel_value(v: Seq<char>) -> Result<u8, Seq<char>> {
    match crate::text::parse_unsigned(v, 0xffff) {
        None => Err("invalid --channel value: "@ + v),
        Some(n) => if n <= 255 {
            Ok(n as u8)
        } else {
            Err("invalid --channel value: "@ + v + "; must be 0..255"@)
        },
    }
}

/// Reading the options from `i` on.
pub open spec fn parse_options(args: Seq<Seq<char>>, i: int, st: OptionState) -> OptionsOutcome
    decreases args.len() - i,
{
    if i < 0 || i >= args.len() {
        OptionsOutcome::Parsed(st)
    } else {
        let a = args[i];
        let has_value = i + 1 < args.len();
        let v = args[i + 1];
        if a == "--port"@ {
            if !has_value { OptionsOutcome::Failed("--port requires a value"@) }
            else { parse_options(args, i + 2, OptionState { port: Some(v), ..st }) }
        } else if a == "--baud"@ {
            if !has_value { OptionsOutcome::Failed("--baud requires a value"@) }
            else { match crate::text::parse_unsigned(v, 0xffff_ffff) {
                None => OptionsOutcome::Failed("invalid --baud value: "@ + v),
                Some(n) => parse_options(args, i + 2, OptionState { baud: Some(n as u32), ..st }),
            } }
        } else if a == "--data-bits"@ {
            if !has_value { OptionsOutcome::Failed("--data-bits requires a value"@) }
            else { match crate::text::parse_unsigned(v, 0xff) {
                None => OptionsOutcome::Failed("invalid --data-bits value: "@ + v),
                Some(n) => parse_options(args, i + 2, OptionState { data_bits: Some(n as u8), ..st }),
            } }
        } else if a == "--stop-bits"@ {
            if !has_value { OptionsOutcome::Failed("--stop-bits requires a value"@) }
            else { match crate::text::parse_unsigned(v, 0xff) {
                None => OptionsOutcome::Failed("invalid --stop-bits value: "@ + v),
                Some(n) => parse_options(args, i + 2, OptionState { stop_bits: Some(n as u8), ..st }),
            } }
        } else if a == "--parity"@ {
            if !has_value { OptionsOutcome::Failed("--parity requires a value"@) }
            else { match SerialParity::parsed(v) {
                None => OptionsOutcome::Failed("invalid --parity value: "@ + v + "; expected none, odd, or even"@),
                Some(p) => parse_options(args, i + 2, OptionState { parity: Some(p), ..st }),
            } }
        } else if a == "--flow-control"@ {
            if !has_value { OptionsOutcome::Failed("--flow-control requires a value"@) }
            else { match SerialFlowControl::parsed(v) {
                None => OptionsOutcome::Failed("invalid --flow-control value: "@ + v + "; expected none, software, or hardware"@),
                Some(f) => parse_options(args, i + 2, OptionState { flow_control: Some(f), ..st }),
            } }
        } else if a == "--max-payload"@ {
            if !has_value { OptionsOutcome::Failed("--max-payload requires a value"@) }
            else { match crate::text::parse_unsigned(v, usize::MAX as nat) {
                None => OptionsOutcome::Failed("invalid --max-payload value: "@ + v),
                Some(n) => parse_options(args, i + 2, OptionState { max_payload_len: n as usize, ..st }),
            } }
        } else if a == "--reconnect-delay-ms"@ {
            if !has_value { OptionsOutcome::Failed("--reconnect-delay-ms requires a value"@) }
            else { match crate::text::parse_unsigned(v, u64::MAX as nat) {
                None => OptionsOutcome::Failed("invalid --reconnect-delay-ms value: "@ + v),
                Some(n) => parse_options(args, i + 2, OptionState { reconnect_delay_ms: n as u64, ..st }),
            } }
        } else if a == "--interactive-backend"@ {
            if !has_value { OptionsOutcome::Failed("--interactive-backend requires a value"@) }
            else { match InteractiveBackendMode::parsed(v) {
                None => OptionsOutcome::Failed("invalid --interactive-backend value: "@ + v + "; expected auto, compat, or mio"@),
                Some(b) => parse_options(args, i + 2, OptionState { backend: b, ..st }),
            } }
        } else if a == "--tui-fps"@ {
            if !has_value { OptionsOutcome::Failed("--tui-fps requires a value"@) }
            else { match crate::text::parse_unsigned(v, 0xffff) {
                None => OptionsOutcome::Failed("invalid --tui-fps value: "@ + v),
                Some(n) => if n == 60 || n == 120 {
                    parse_options(args, i + 2, OptionState { tui_fps: Some(n as u16), ..st })
                } else {
                    OptionsOutcome::Failed("invalid --tui-fps value: "@ + v + "; expected 60 or 120"@)
                },
            } }
        } else if a == "--channel"@ {
            if !has_value { OptionsOutcome::Failed("--channel requires a value"@) }
            else { match channel_value(v) {
                Err(m) => OptionsOutcome::Failed(m),
                Ok(c) => parse_options(args, i + 2, OptionState { channel: Some(c), ..st }),
            } }
        } else if a == "--send-channel"@ {
            if !has_value { OptionsOutcome::Failed("--send-channel requires a value"@) }
            else { match channel_value(v) {
                Err(m) => OptionsOutcome::Failed(m),
                Ok(c) => parse_options(args, i + 2, OptionState { send_channel: Some(c), ..st }),
            } }
        } else if a == "--line"@ {
            if !has_value { OptionsOutcome::Failed("--line requires a value"@) }
            else { parse_options(args, i + 2, OptionState { line: Some(v), ..st }) }
        } else if a == "-h"@ || a == "--help"@ {
            OptionsOutcome::Help
        } else {
            OptionsOutcome::Failed("unknown argument: "@ + a + "\n"@ + USAGE@)
        }
    }
}

/// The subcommands.
pub enum CommandKind {
    Listen,
    Send,
    Passthrough,
    Tui,
}

/// The subcommand that the first argument names, and where options
/// start; `None` for a help request.
pub open spec fn command_of(args: Seq<Seq<char>>) -> Option<(CommandKind, int)> {
    if args.len() == 0 {
        Some((CommandKind::Listen, 0))
    } else if args[0] == "listen"@ {
        Some((CommandKind::Listen, 1))
    } else if args[0] == "send"@ {
        Some((CommandKind::Send, 1))
    } else if args[0] == "passthrough"@ || args[0] == "attach"@ {
        Some((CommandKind::Passthrough, 1))
    } else if args[0] == "tui"@ {
        Some((CommandKind::Tui, 1))
    } else if args[0] == "-h"@ || args[0] == "--help"@ {
        None
    } else {
        Some((CommandKind::Listen, 0))
    }
}

/// Whether this host provides virtual serial endpoints.
pub fn host_supports_virtual_serial() -> (r: bool)
    ensures
        r,
{
    crate::interactive::host_supports_virtual_serial_provider()
}

/// Whether virtual serial is on when the configuration does not say.
pub fn default_virtual_serial_enabled_for_host() -> (r: bool)
    ensures
        r,
{
    host_supports_virtual_serial()
}

/// The configuration as this host applies it: virtual serial is on unless
/// the configuration turned it off.
fn config_for_host_mode(config: HostConfig) -> (r: HostConfig)
    ensures
        r.serial == config.serial,
        r.virtual_serial.enabled == (if config.virtual_serial_configured { config.virtual_serial.enabled } else { true }),
        r.virtual_serial.export == config.virtual_serial.export,
        r.virtual_serial.name_template == config.virtual_serial.name_template,
        r.virtual_serial_configured == config.virtual_serial_configured,
{
    let mut config = config;
    if !host_supports_virtual_serial() {
        config.virtual_serial.enabled = false;
    } else if !config.virtual_serial_configured {
        config.virtual_serial.enabled = default_virtual_serial_enabled_for_host();
    }
    config
}

/// The channel id of `--channel` or `--send-channel`.
pub fn parse_channel(value: &str) -> (r: Result<u8, String>)
    ensures
        match channel_value(value@) {
            Ok(c) => r == Ok::<u8, String>(c),
            Err(m) => r matches Err(e) && e@ == m,
        },
{
    match parse_decimal(value, 0xffff) {
        None => {
            let mut msg = "invalid --channel value: ".to_owned();
            push_str(&mut msg, value);
            Err(msg)
        },
        Some(n) => {
            if n <= 255 {
                Ok(n as u8)
            } else {
                let mut msg = "invalid --channel value: ".to_owned();
                push_str(&mut msg, value);
                push_str(&mut msg, "; must be 0..255");
                Err(msg)
            }
        },
    }
}

/// The usage text.
pub fn usage() -> (r: String)
    ensures
        r@ == USAGE@,
{
    USAGE.to_owned()
}

fn message_with(prefix: &str, value: &str) -> (r: String)
    ensures
        r@ == prefix@ + value@,
{
    let mut msg = prefix.to_owned();
    push_str(&mut msg, value);
    msg
}

fn message_with_value(prefix: &str, value: &str, suffix: &str) -> (r: String)
    ensures
        r@ == prefix@ + value@ + suffix@,
{
    let mut msg = prefix.to_owned();
    push_str(&mut msg, value);
    push_str(&mut msg, suffix);
    msg
}

/// The views of the arguments.
pub open spec fn args_view(args: Seq<String>) -> Seq<Seq<char>> {
    args.map_values(|s: String| s@)
}

/// The options as the exec state holds them.
pub open spec fn state_of(
    overrides: SerialProfileOverrides,
    max_payload_len: usize,
    reconnect_delay_ms: u64,
    channel: Option<u8>,
    send_channel: Option<u8>,
    line: Option<String>,
    backend: InteractiveBackendMode,
    tui_fps: Option<u16>,
) -> OptionState {
    OptionState {
        port: match overrides.port { Some(p) => Some(p@), None => None },
        baud: overrides.baud,
        data_bits: overrides.data_bits,
        stop_bits: overrides.stop_bits,
        parity: overrides.parity,
        flow_control: overrides.flow_control,
        max_payload_len,
        reconnect_delay_ms,
        channel,
        send_channel,
        line: match line { Some(l) => Some(l@), None => None },
        backend,
        tui_fps,
    }
}

/// Whether a resolved profile carries what the options and the
/// configuration say.
pub open spec fn profile_matches(p: SerialProfile, st: OptionState, c: SerialConfig) -> bool {
    &&& p.port@ == match st.port { Some(x) => x, None => c.port->Some_0@ }
    &&& p.baud == crate::interactive::or_config(st.baud, c.baud)
    &&& p.data_bits == crate::interactive::or_config(st.data_bits, c.data_bits)
    &&& p.stop_bits == crate::interactive::or_config(st.stop_bits, c.stop_bits)
    &&& p.parity == crate::interactive::or_config(st.parity, c.parity)
    &&& p.flow_control == crate::interactive::or_config(st.flow_control, c.flow_control)
}

/// Why the serial profile cannot be resolved, if it cannot.
pub open spec fn profile_failure(st: OptionState, c: SerialConfig) -> Option<Seq<char>> {
    if st.port is None && c.port is None {
        Some(crate::interactive::MISSING_PORT_MESSAGE@)
    } else {
        crate::interactive::profile_error(
            crate::interactive::or_config(st.baud, c.baud),
            crate::interactive::or_config(st.data_bits, c.data_bits),
            crate::interactive::or_config(st.stop_bits, c.stop_bits),
        )
    }
}

/// Why the subcommand refuses the options, if it does.
pub open spec fn command_failure(kind: CommandKind, st: OptionState) -> Option<Seq<char>> {
    match kind {
        CommandKind::Listen => if st.tui_fps is Some || st.backend != InteractiveBackendMode::Auto {
            Some("listen does not accept --tui-fps or --interactive-backend\n"@ + USAGE@)
        } else {
            None
        },
        CommandKind::Send => if st.tui_fps is Some || st.backend != InteractiveBackendMode::Auto
            || st.reconnect_delay_ms != DEFAULT_RECONNECT_DELAY_MS {
            Some("send does not accept --tui-fps, --interactive-backend, or --reconnect-delay-ms\n"@ + USAGE@)
        } else if st.channel is None {
            Some("send requires --channel <id>"@)
        } else if st.line is None {
            Some("send requires --line <text>"@)
        } else {
            None
        },
        CommandKind::Passthrough => if st.send_channel is Some || st.line is Some || st.tui_fps is Some {
            Some("passthrough does not accept --send-channel, --line, or --tui-fps\n"@ + USAGE@)
        } else if st.channel is None {
            Some("passthrough requires --channel <id>"@)
        } else {
            None
        },
        CommandKind::Tui => if st.channel is Some || st.send_channel is Some || st.line is Some {
            Some("tui does not accept --channel, --send-channel, or --line\n"@ + USAGE@)
        } else {
            None
        },
    }
}

/// Whether the command carries what the options and configuration say.
pub open spec fn command_matches(cmd: CliCommand, kind: CommandKind, st: OptionState, config: HostConfig) -> bool {
    match (cmd, kind) {
        (CliCommand::Listen(a), CommandKind::Listen) => profile_matches(a.serial, st, config.serial)
            && a.max_payload_len == st.max_payload_len && a.reconnect_delay_ms == st.reconnect_delay_ms
            && a.channel == (match st.channel { Some(c) => Some(c as u32), None => None })
            && a.send_channel == (match st.line {
                Some(_) => Some(match st.send_channel { Some(s) => s, None => match st.channel { Some(c) => c, None => 1u8 } }),
                None => None,
            })
            && (match a.line { Some(l) => st.line == Some(l@), None => st.line is None }),
        (CliCommand::Send(a), CommandKind::Send) => profile_matches(a.serial, st, config.serial)
            && a.max_payload_len == st.max_payload_len && Some(a.channel) == st.channel && st.line == Some(a.line@),
        (CliCommand::Passthrough(a), CommandKind::Passthrough) => profile_matches(a.serial, st, config.serial)
            && a.max_payload_len == st.max_payload_len && Some(a.channel) == st.channel
            && a.interactive_backend == st.backend,
        (CliCommand::Tui(a), CommandKind::Tui) => profile_matches(a.serial, st, config.serial)
            && a.config_path is None
            && a.max_payload_len == st.max_payload_len && a.reconnect_delay_ms == st.reconnect_delay_ms
            && a.interactive_backend == st.backend && a.tui_fps == st.tui_fps
            && a.virtual_serial.enabled == (if config.virtual_serial_configured { config.virtual_serial.enabled } else { true })
            && a.virtual_serial.export == config.virtual_serial.export
            && a.virtual_serial.name_template == config.virtual_serial.name_template
            && a.virtual_serial_supported,
        _ => false,
    }
}

/// What parsing the command line gives, given the configuration.
pub open spec fn parse_outcome(args: Seq<Seq<char>>, config: HostConfig, r: Result<Option<CliCommand>, String>) -> bool {
    match command_of(args) {
        None => r matches Ok(None),
        Some((kind, start)) => match parse_options(args, start, initial_options()) {
            OptionsOutcome::Help => r matches Ok(None),
            OptionsOutcome::Failed(m) => r matches Err(e) && e@ == m,
            OptionsOutcome::Parsed(st) => match profile_failure(st, config.serial) {
                Some(m) => r matches Err(e) && e@ == m,
                None => match command_failure(kind, st) {
                    Some(m) => r matches Err(e) && e@ == m,
                    None => r matches Ok(Some(cmd)) && command_matches(cmd, kind, st, config),
                },
            },
        },
    }
}

fn option_value(args: &Vec<String>, i: usize) -> (r: Option<&String>)
    ensures
        i + 1 < args@.len() ==> (r matches Some(v) && v@ == args@[i + 1]@),
        !(i + 1 < args@.len()) ==> r is None,
{
    if i < args.len() && args.len() - i > 1 {
        Some(&args[i + 1])
    } else {
        None
    }
}

/// Parses the command line with the given configuration.
#[verifier::rlimit(60)]
pub fn parse_args_with_config(args: Vec<String>, config: HostConfig) -> (r: Result<Option<CliCommand>, String>)
    ensures
        parse_outcome(args_view(args@), config, r),
{
    let ghost av = args_view(args@);
    let config = config_for_host_mode(config);
    let ghost given = config;
    proof {
        reveal_strlit("listen");
        reveal_strlit("send");
        reveal_strlit("passthrough");
        reveal_strlit("attach");
        reveal_strlit("tui");
        reveal_strlit("-h");
        reveal_strlit("--help");
        reveal_strlit("");
        assert(""@ =~= Seq::<char>::empty());
    }
    let mut i: usize = 0;
    let mut kind = CommandKind::Listen;
    if args.len() > 0 {
        assert(av[0] == args@[0]@);
        let first = args[0].as_str();
        if str_eq(first, "listen") {
            i = 1;
        } else if str_eq(first, "send") {
            kind = CommandKind::Send;
            i = 1;
        } else if str_eq(first, "passthrough") || str_eq(first, "attach") {
            kind = CommandKind::Passthrough;
            i = 1;
        } else if str_eq(first, "tui") {
            kind = CommandKind::Tui;
            i = 1;
        } else if str_eq(first, "-h") || str_eq(first, "--help") {
            return Ok(None);
        }
    }
    let mut overrides = SerialProfileOverrides::none();
    let mut max_payload_len: usize = DEFAULT_MAX_PAYLOAD_LEN;
    let mut reconnect_delay_ms: u64 = DEFAULT_RECONNECT_DELAY_MS;
    let mut channel: Option<u8> = None;
    let mut send_channel: Option<u8> = None;
    let mut line: Option<String> = None;
    let mut interactive_backend = InteractiveBackendMode::Auto;
    let mut tui_fps: Option<u16> = None;
    let ghost start = i as int;
    assert(state_of(overrides, max_payload_len, reconnect_delay_ms, channel, send_channel, line, interactive_backend, tui_fps)
        == initial_options());
    while i < args.len()
        invariant
            i <= args@.len(),
            av == args_view(args@),
            command_of(av) == Some((kind, start)),
            parse_options(av, start, initial_options()) == parse_options(
                av,
                i as int,
                state_of(overrides, max_payload_len, reconnect_delay_ms, channel, send_channel, line, interactive_backend, tui_fps),
            ),
        decreases args@.len() - i,
    {
        let ghost st = state_of(overrides, max_payload_len, reconnect_delay_ms, channel, send_channel, line, interactive_backend, tui_fps);
        let arg = args[i].as_str();
        assert(av[i as int] == arg@);
        let value = option_value(&args, i);
        proof {
            if i + 1 < args@.len() {
                assert(av[i + 1] == args@[i + 1]@);
            }
        }
        if str_eq(arg, "--port") {
            match value {
                None => {
                    return Err("--port requires a value".to_owned());
                },
                Some(v) => {
                    overrides.port = Some(v.clone());
                },
            }
        } else if str_eq(arg, "--baud") {
            match value {
                None => {
                    return Err("--baud requires a value".to_owned());
                },
                Some(v) => match parse_decimal(v.as_str(), 0xffff_ffff) {
                    None => {
                        return Err(message_with("invalid --baud value: ", v.as_str()));
                    },
                    Some(n) => {
                        overrides.baud = Some(n as u32);
                    },
                },
            }
        } else if str_eq(arg, "--data-bits") {
            match value {
                None => {
                    return Err("--data-bits requires a value".to_owned());
                },
                Some(v) => match parse_decimal(v.as_str(), 0xff) {
                    None => {
                        return Err(message_with("invalid --data-bits value: ", v.as_str()));
                    },
                    Some(n) => {
                        overrides.data_bits = Some(n as u8);
                    },
                },
            }
        } else if str_eq(arg, "--stop-bits") {
            match value {
                None => {
                    return Err("--stop-bits requires a value".to_owned());
                },
                Some(v) => match parse_decimal(v.as_str(), 0xff) {
                    None => {
                        return Err(message_with("invalid --stop-bits value: ", v.as_str()));
                    },
                    Some(n) => {
                        overrides.stop_bits = Some(n as u8);
                    },
                },
            }
        } else if str_eq(arg, "--parity") {
            match value {
                None => {
                    return Err("--parity requires a value".to_owned());
                },
                Some(v) => match SerialParity::parse(v.as_str()) {
                    None => {
                        return Err(message_with_value("invalid --parity value: ", v.as_str(), "; expected none, odd, or even"));
                    },
                    Some(p) => {
                        overrides.parity = Some(p);
                    },
                },
            }
        } else if str_eq(arg, "--flow-control") {
            match value {
                None => {
                    return Err("--flow-control requires a value".to_owned());
                },
                Some(v) => match SerialFlowControl::parse(v.as_str()) {
                    None => {
                        return Err(message_with_value(
                            "invalid --flow-control value: ",
                            v.as_str(),
                            "; expected none, software, or hardware",
                        ));
                    },
                    Some(f) => {
                        overrides.flow_control = Some(f);
                    },
                },
            }
        } else if str_eq(arg, "--max-payload") {
            match value {
                None => {
                    return Err("--max-payload requires a value".to_owned());
                },
                Some(v) => match parse_decimal(v.as_str(), usize::MAX as u64) {
                    None => {
                        return Err(message_with("invalid --max-payload value: ", v.as_str()));
                    },
                    Some(n) => {
                        max_payload_len = n as usize;
                    },
                },
            }
        } else if str_eq(arg, "--reconnect-delay-ms") {
            match value {
                None => {
                    return Err("--reconnect-delay-ms requires a value".to_owned());
                },
                Some(v) => match parse_decimal(v.as_str(), u64::MAX) {
                    None => {
                        return Err(message_with("invalid --reconnect-delay-ms value: ", v.as_str()));
                    },
                    Some(n) => {
                        reconnect_delay_ms = n;
                    },
                },
            }
        } else if str_eq(arg, "--interactive-backend") {
            match value {
                None => {
                    return Err("--interactive-backend requires a value".to_owned());
                },
                Some(v) => match InteractiveBackendMode::parse(v.as_str()) {
                    None => {
                        return Err(message_with_value(
                            "invalid --interactive-backend value: ",
                            v.as_str(),
                            "; expected auto, compat, or mio",
                        ));
                    },
                    Some(b) => {
                        interactive_backend = b;
                    },
                },
            }
        } else if str_eq(arg, "--tui-fps") {
            match value {
                None => {
                    return Err("--tui-fps requires a value".to_owned());
                },
                Some(v) => match parse_decimal(v.as_str(), 0xffff) {
                    None => {
                        return Err(message_with("invalid --tui-fps value: ", v.as_str()));
                    },
                    Some(n) => {
                        if !(n == 60 || n == 120) {
                            return Err(message_with_value("invalid --tui-fps value: ", v.as_str(), "; expected 60 or 120"));
                        }
                        tui_fps = Some(n as u16);
                    },
                },
            }
        } else if str_eq(arg, "--channel") {
            match value {
                None => {
                    return Err("--channel requires a value".to_owned());
                },
                Some(v) => match parse_channel(v.as_str()) {
                    Err(e) => {
                        return Err(e);
                    },
                    Ok(c) => {
                        channel = Some(c);
                    },
                },
            }
        } else if str_eq(arg, "--send-channel") {
            match value {
                None => {
                    return Err("--send-channel requires a value".to_owned());
                },
                Some(v) => match parse_channel(v.as_str()) {
                    Err(e) => {
                        return Err(e);
                    },
                    Ok(c) => {
                        send_channel = Some(c);
                    },
                },
            }
        } else if str_eq(arg, "--line") {
            match value {
                None => {
                    return Err("--line requires a value".to_owned());
                },
                Some(v) => {
                    line = Some(v.clone());
                },
            }
        } else if str_eq(arg, "-h") || str_eq(arg, "--help") {
            return Ok(None);
        } else {
            let mut msg = message_with_value("unknown argument: ", arg, "\n");
            push_str(&mut msg, USAGE);
            return Err(msg);
        }
        i = i + 2;
    }
    let ghost st = state_of(overrides, max_payload_len, reconnect_delay_ms, channel, send_channel, line, interactive_backend, tui_fps);
    assert(parse_options(av, i as int, st) == OptionsOutcome::Parsed(st));
    let serial = match config.serial.resolve_profile(overrides) {
        Ok(p) => p,
        Err(e) => {
            return Err(e);
        },
    };
    match kind {
        CommandKind::Listen => {
            if tui_fps.is_some() || interactive_backend != InteractiveBackendMode::Auto {
                return Err(message_with("listen does not accept --tui-fps or --interactive-backend\n", USAGE));
            }
            let send = match &line {
                Some(_) => Some(match send_channel {
                    Some(s) => s,
                    None => match channel {
                        Some(c) => c,
                        None => 1,
                    },
                }),
                None => None,
            };
            Ok(Some(CliCommand::Listen(ListenArgs {
                serial,
                max_payload_len,
                reconnect_delay_ms,
                channel: match channel {
                    Some(c) => Some(c as u32),
                    None => None,
                },
                send_channel: send,
                line,
            })))
        },
        CommandKind::Send => {
            if tui_fps.is_some() || interactive_backend != InteractiveBackendMode::Auto
                || reconnect_delay_ms != DEFAULT_RECONNECT_DELAY_MS {
                return Err(message_with("send does not accept --tui-fps, --interactive-backend, or --reconnect-delay-ms\n", USAGE));
            }
            let c = match channel {
                Some(c) => c,
                None => {
                    return Err("send requires --channel <id>".to_owned());
                },
            };
            let l = match line {
                Some(l) => l,
                None => {
                    return Err("send requires --line <text>".to_owned());
                },
            };
            Ok(Some(CliCommand::Send(SendArgs { serial, max_payload_len, channel: c, line: l })))
        },
        CommandKind::Passthrough => {
            if send_channel.is_some() || line.is_some() || tui_fps.is_some() {
                return Err(message_with("passthrough does not accept --send-channel, --line, or --tui-fps\n", USAGE));
            }
            let c = match channel {
                Some(c) => c,
                None => {
                    return Err("passthrough requires --channel <id>".to_owned());
                },
            };
            Ok(Some(CliCommand::Passthrough(PassthroughArgs {
                serial,
                max_payload_len,
                channel: c,
                interactive_backend,
            })))
        },
        CommandKind::Tui => {
            if channel.is_some() || send_channel.is_some() || line.is_some() {
                return Err(message_with("tui does not accept --channel, --send-channel, or --line\n", USAGE));
            }
            let supported = host_supports_virtual_serial();
            Ok(Some(CliCommand::Tui(TuiArgs {
                serial,
                config_path: None,
                max_payload_len,
                reconnect_delay_ms,
                interactive_backend,
                tui_fps,
                virtual_serial: config.virtual_serial,
                virtual_serial_supported: supported,
            })))
        },
    }
}

/// Whether the arguments ask for help anywhere.
pub open spec fn asks_help(args: Seq<Seq<char>>) -> bool {
    exists|i: int| 0 <= i < args.len() && (args[i] == "-h"@ || args[i] == "--help"@)
}

/// Whether the arguments ask for help anywhere; then the configuration is
/// not used, and need not be loaded.
pub fn asks_for_help(args: &Vec<String>) -> (r: bool)
    ensures
        r == asks_help(args_view(args@)),
{
    let ghost av = args_view(args@);
    let mut i: usize = 0;
    let mut help = false;
    while i < args.len()
        invariant
            i <= args@.len(),
            av == args_view(args@),
            help == exists|k: int| 0 <= k < i && (av[k] == "-h"@ || av[k] == "--help"@),
        decreases args@.len() - i,
    {
        assert(av[i as int] == args@[i as int]@);
        if str_eq(args[i].as_str(), "-h") || str_eq(args[i].as_str(), "--help") {
            help = true;
        }
        i = i + 1;
    }
    help
}

/// Parses the command line; the configuration, as the program loaded it,
/// is used unless help is asked for anywhere.
pub fn parse_args(args: Vec<String>, loaded_config: Result<HostConfig, String>) -> (r: Result<Option<CliCommand>, String>)
    ensures
        asks_help(args_view(args@)) ==> exists|c: HostConfig| #[trigger] parse_outcome(args_view(args@), c, r)
            && is_default_host_config(c),
        !asks_help(args_view(args@)) ==> match loaded_config {
            Ok(c) => parse_outcome(args_view(args@), c, r),
            Err(m) => r matches Err(e) && e@ == m@,
        },
{
    let help = asks_for_help(&args);
    if help {
        let c = HostConfig::default();
        let r = parse_args_with_config(args, c);
        return r;
    }
    match loaded_config {
        Ok(c) => parse_args_with_config(args, c),
        Err(m) => Err(m),
    }
}

} // verus!
