use wiremux::args::{parse_args, parse_args_with_config, parse_channel, usage, CliCommand};
use wiremux::display::{sanitize_port_for_filename, write_event, DisplayOutput};
use wiremux::envelope::{MuxEnvelope, DIRECTION_OUTPUT, PAYLOAD_KIND_TEXT};
use wiremux::frame::DEFAULT_MAX_PAYLOAD_LEN;
use wiremux::host_session::{printable_payload, BatchSummary, HostEvent};
use wiremux::interactive::{
    is_passthrough_exit_key, is_passthrough_meta_exit_key, paired_tty_cu_path,
    passthrough_key_payload, requested_file_name_starts_with, usbmodem_fragment, HostConfig,
    InteractiveBackendMode, TerminalKey, TerminalKeyCode,
};
use wiremux::manifest::{ChannelDescriptor, DeviceManifest};

fn output_envelope(channel_id: u32, payload: &[u8]) -> MuxEnvelope {
    MuxEnvelope {
        channel_id,
        direction: DIRECTION_OUTPUT,
        sequence: 1,
        timestamp_us: 10,
        kind: PAYLOAD_KIND_TEXT,
        payload_type: String::new(),
        payload: payload.to_vec(),
        flags: 0,
    }
}

fn manifest_with_channel_name(channel_id: u32, name: &str) -> DeviceManifest {
    DeviceManifest {
        device_name: String::new(),
        firmware_version: String::new(),
        protocol_version: 1,
        max_channels: 8,
        channels: vec![ChannelDescriptor {
            channel_id,
            name: name.to_string(),
            description: String::new(),
            directions: Vec::new(),
            payload_kinds: Vec::new(),
            payload_types: Vec::new(),
            flags: 0,
            default_payload_kind: 0,
            interaction_modes: Vec::new(),
            default_interaction_mode: 0,
            passthrough_policy: Default::default(),
        }],
        native_endianness: 0,
        max_payload_len: 512,
        transport: String::new(),
        feature_flags: 0,
        sdk_name: String::new(),
        sdk_version: String::new(),
    }
}

fn args(values: &[&str]) -> Vec<String> {
    values.iter().map(|v| v.to_string()).collect()
}

fn parse_test_args(values: &[&str]) -> Result<Option<CliCommand>, String> {
    parse_args_with_config(args(values), HostConfig::default())
}

fn key(code: TerminalKeyCode, control: bool, alt: bool) -> TerminalKey {
    TerminalKey { code, control, alt, shift: false, super_key: false }
}

#[test]
fn parses_required_port_with_defaults() {
    let command = parse_test_args(&["--port", "/dev/tty.usbmodem2101"])
        .expect("args parse")
        .expect("valid args");
    let CliCommand::Listen(args) = command else {
        panic!("expected listen command");
    };

    assert_eq!(args.serial.port, "/dev/tty.usbmodem2101");
    assert_eq!(args.serial.baud, 115_200);
    assert_eq!(args.serial.data_bits, 8);
    assert_eq!(args.serial.stop_bits, 1);
    assert_eq!(args.max_payload_len, DEFAULT_MAX_PAYLOAD_LEN);
    assert_eq!(args.reconnect_delay_ms, 500);
    assert_eq!(args.channel, None);
    assert_eq!(args.send_channel, None);
    assert_eq!(args.line, None);
}

#[test]
fn resolves_serial_profile_from_config_when_port_is_omitted() {
    let mut config = HostConfig::default();
    config.serial.port = Some("/dev/cu.configured".to_string());
    config.serial.baud = 460_800;

    let command = parse_args_with_config(args(&["tui"]), config)
        .expect("args parse")
        .expect("valid args");
    let CliCommand::Tui(args) = command else {
        panic!("expected tui command");
    };

    assert_eq!(args.serial.port, "/dev/cu.configured");
    assert_eq!(args.serial.baud, 460_800);
}

#[test]
fn parses_listen_subcommand_and_overrides() {
    let command = parse_test_args(&[
        "listen",
        "--port",
        "/tmp/capture.bin",
        "--baud",
        "921600",
        "--data-bits",
        "7",
        "--stop-bits",
        "2",
        "--parity",
        "even",
        "--flow-control",
        "hardware",
        "--max-payload",
        "4096",
        "--reconnect-delay-ms",
        "100",
        "--channel",
        "3",
        "--line",
        "help",
    ])
    .expect("args parse")
    .expect("valid args");
    let CliCommand::Listen(args) = command else {
        panic!("expected listen command");
    };

    assert_eq!(args.serial.port, "/tmp/capture.bin");
    assert_eq!(args.serial.baud, 921_600);
    assert_eq!(args.serial.data_bits, 7);
    assert_eq!(args.serial.stop_bits, 2);
    assert_eq!(args.serial.parity.label(), "even");
    assert_eq!(args.serial.flow_control.label(), "hardware");
    assert_eq!(args.max_payload_len, 4096);
    assert_eq!(args.reconnect_delay_ms, 100);
    assert_eq!(args.channel, Some(3));
    assert_eq!(args.send_channel, Some(3));
    assert_eq!(args.line, Some("help".to_string()));
}

#[test]
fn parses_listen_line_without_filter_as_console_input() {
    let command = parse_test_args(&["listen", "--port", "/dev/cu.usbmodem2101", "--line", "mux_log"])
        .expect("args parse")
        .expect("valid args");
    let CliCommand::Listen(args) = command else {
        panic!("expected listen command");
    };

    assert_eq!(args.channel, None);
    assert_eq!(args.send_channel, Some(1));
    assert_eq!(args.line, Some("mux_log".to_string()));
}

#[test]
fn parses_listen_line_with_explicit_send_channel() {
    let command = parse_test_args(&[
        "listen",
        "--port",
        "/dev/cu.usbmodem2101",
        "--channel",
        "2",
        "--send-channel",
        "1",
        "--line",
        "mux_log",
    ])
    .expect("args parse")
    .expect("valid args");
    let CliCommand::Listen(args) = command else {
        panic!("expected listen command");
    };

    assert_eq!(args.channel, Some(2));
    assert_eq!(args.send_channel, Some(1));
    assert_eq!(args.line, Some("mux_log".to_string()));
}

#[test]
fn parses_send_subcommand() {
    let command = parse_test_args(&["send", "--port", "/dev/cu.usbmodem2101", "--channel", "1", "--line", "help"])
        .expect("args parse")
        .expect("valid args");
    let CliCommand::Send(args) = command else {
        panic!("expected send command");
    };

    assert_eq!(args.serial.port, "/dev/cu.usbmodem2101");
    assert_eq!(args.channel, 1);
    assert_eq!(args.line, "help");
}

#[test]
fn parses_tui_subcommand() {
    let command = parse_test_args(&["tui", "--port", "/dev/cu.usbmodem2101", "--baud", "921600"])
        .expect("args parse")
        .expect("valid args");
    let CliCommand::Tui(args) = command else {
        panic!("expected tui command");
    };

    assert_eq!(args.serial.port, "/dev/cu.usbmodem2101");
    assert_eq!(args.serial.baud, 921_600);
    assert_eq!(args.max_payload_len, DEFAULT_MAX_PAYLOAD_LEN);
    assert_eq!(args.interactive_backend, InteractiveBackendMode::Auto);
    assert_eq!(args.tui_fps, None);
}

#[test]
fn parses_tui_interactive_backend_and_fps() {
    let command = parse_test_args(&[
        "tui",
        "--port",
        "/dev/cu.usbmodem2101",
        "--interactive-backend",
        "compat",
        "--tui-fps",
        "120",
    ])
    .expect("args parse")
    .expect("valid args");
    let CliCommand::Tui(args) = command else {
        panic!("expected tui command");
    };

    assert_eq!(args.interactive_backend, InteractiveBackendMode::Compat);
    assert_eq!(args.tui_fps, Some(120));
}

#[test]
fn parses_passthrough_subcommand() {
    let command = parse_test_args(&["passthrough", "--port", "/dev/cu.usbmodem2101", "--channel", "1"])
        .expect("args parse")
        .expect("valid args");
    let CliCommand::Passthrough(args) = command else {
        panic!("expected passthrough command");
    };

    assert_eq!(args.serial.port, "/dev/cu.usbmodem2101");
    assert_eq!(args.channel, 1);
    assert_eq!(args.interactive_backend, InteractiveBackendMode::Auto);
}

#[test]
fn parses_passthrough_interactive_backend() {
    let command = parse_test_args(&[
        "passthrough",
        "--port",
        "/dev/cu.usbmodem2101",
        "--channel",
        "1",
        "--interactive-backend",
        "mio",
    ])
    .expect("args parse")
    .expect("valid args");
    let CliCommand::Passthrough(args) = command else {
        panic!("expected passthrough command");
    };

    assert_eq!(args.interactive_backend, InteractiveBackendMode::Mio);
}

#[test]
fn rejects_invalid_tui_fps() {
    let err = parse_test_args(&["tui", "--port", "/dev/cu.usbmodem2101", "--tui-fps", "144"])
        .expect_err("invalid fps");

    assert!(err.contains("invalid --tui-fps value"));
}

#[test]
fn rejects_invalid_interactive_backend() {
    let err = parse_test_args(&["tui", "--port", "/dev/cu.usbmodem2101", "--interactive-backend", "fast"])
        .expect_err("invalid backend");

    assert!(err.contains("invalid --interactive-backend value"));
}

#[test]
fn rejects_tui_channel_filter_args() {
    let err = parse_test_args(&["tui", "--port", "/dev/cu.usbmodem2101", "--channel", "1"])
        .expect_err("invalid tui args");

    assert!(err.contains("tui does not accept"));
}

#[test]
fn requires_port() {
    let err = parse_test_args(&["--baud", "115200"]).expect_err("missing port");

    assert!(err.contains("serial port is required"));
}

#[test]
fn rejects_invalid_baud() {
    let err = parse_test_args(&["--port", "/tmp/fake", "--baud", "fast"]).expect_err("invalid baud");

    assert!(err.contains("invalid --baud value"));
}

#[test]
fn rejects_invalid_channel() {
    let err = parse_test_args(&["send", "--port", "/tmp/fake", "--channel", "300", "--line", "help"])
        .expect_err("invalid channel");

    assert!(err.contains("invalid --channel value"));
}

#[test]
fn rejects_missing_send_line() {
    let err = parse_test_args(&["send", "--port", "/tmp/fake", "--channel", "1"]).expect_err("missing line");

    assert!(err.contains("send requires --line"));
}

#[test]
fn help_is_not_an_error() {
    assert!(parse_test_args(&["--help"]).expect("help parses").is_none());
}

#[test]
fn parse_args_reports_config_error_only_when_needed() {
    let failed: Result<HostConfig, String> = Err("bad config".to_string());
    assert!(parse_args(args(&["--help"]), failed.clone()).expect("help").is_none());
    let err = parse_args(args(&["tui"]), failed).expect_err("config error");
    assert!(err.contains("bad config"));
    assert!(usage().contains("wiremux"));
    assert_eq!(parse_channel("7"), Ok(7));
    assert!(parse_channel("256").is_err());
}

#[test]
fn prints_utf8_payload_with_escape_sequences() {
    assert_eq!(printable_payload(b"hello\n"), "hello\\n");
}

#[test]
fn prints_binary_payload_as_hex() {
    assert_eq!(printable_payload(&[0xff, 0x00, 0x10]), "ff 00 10");
}

#[test]
fn filtered_display_writes_raw_payload_and_preserves_newlines() {
    let mut display = DisplayOutput::new(Vec::new(), Some(1));

    display.write_record(&output_envelope(1, b"line1\r\nline2\rline3\n"));
    display.write_record(&output_envelope(2, b"hidden\n"));

    assert_eq!(display.out, b"line1\r\nline2\rline3\n");
}

#[test]
fn unfiltered_display_prefixes_record_once_and_preserves_payload_newlines() {
    let mut display = DisplayOutput::new(Vec::new(), None);

    display.write_record(&output_envelope(3, b"line1\r\nline2\n"));

    assert_eq!(display.out, b"ch3> line1\r\nline2\n");
}

#[test]
fn unfiltered_display_uses_manifest_channel_names() {
    let mut display = DisplayOutput::new(Vec::new(), None);
    let manifest = manifest_with_channel_name(4, "🚗🎒😄🔥");
    display.update_manifest(&manifest);

    display.write_record(&output_envelope(4, "你好 UTF-8 😄\n".as_bytes()));

    assert_eq!(
        String::from_utf8(display.out).expect("utf8 output"),
        "ch4(🚗🎒😄)> 你好 UTF-8 😄\n"
    );
}

#[test]
fn unfiltered_display_ignores_empty_manifest_channel_names() {
    let mut display = DisplayOutput::new(Vec::new(), None);
    let manifest = manifest_with_channel_name(4, "\n\r");
    display.update_manifest(&manifest);

    display.write_record(&output_envelope(4, b"plain\n"));

    assert_eq!(display.out, b"ch4> plain\n");
}

#[test]
fn unfiltered_display_marks_channel_switch_after_partial_line() {
    let mut display = DisplayOutput::new(Vec::new(), None);

    display.write_record(&output_envelope(1, b"booting"));
    display.write_record(&output_envelope(2, b"sensor ready\n"));

    assert_eq!(
        display.out,
        b"ch1> booting\nwiremux> continued after partial ch1 line\nch2> sensor ready\n"
    );
}

#[test]
fn unfiltered_display_switches_channels_without_marker_after_newline() {
    let mut display = DisplayOutput::new(Vec::new(), None);

    display.write_record(&output_envelope(1, b"ready\n"));
    display.write_record(&output_envelope(2, b"sensor ready\n"));

    assert_eq!(display.out, b"ch1> ready\nch2> sensor ready\n");
}

#[test]
fn display_flush_hands_out_written_bytes() {
    let mut display = DisplayOutput::new(Vec::new(), None);
    display.write_terminal(b"boot\n");
    assert_eq!(display.flush(), b"boot\n".to_vec());
    assert!(display.out.is_empty());
}

#[test]
fn sanitizes_port_for_diagnostics_filename() {
    assert_eq!(sanitize_port_for_filename("/dev/cu.usbmodem2101"), "dev_cu.usbmodem2101");
    assert_eq!(sanitize_port_for_filename("/"), "port");
}

#[test]
fn diagnostics_sanitizes_port_for_diagnostics_filename() {
    assert_eq!(sanitize_port_for_filename("/dev/cu.usbmodem2101"), "dev_cu.usbmodem2101");
    assert_eq!(sanitize_port_for_filename("/"), "port");
}

#[test]
fn batch_event_writes_payloads_to_display_and_summary_to_diagnostics() {
    let records = vec![output_envelope(3, b"alpha\n"), output_envelope(2, b"beta\n")];
    let mut display = DisplayOutput::new(Vec::new(), None);
    let mut diagnostics = String::new();

    for event in [
        HostEvent::Record(records[0].clone()),
        HostEvent::Record(records[1].clone()),
        HostEvent::BatchSummary(BatchSummary {
            compression: 0,
            encoded_bytes: 0,
            raw_bytes: 0,
            record_count: records.len(),
        }),
    ] {
        write_event(&mut display, &mut diagnostics, event);
    }

    assert_eq!(display.out, b"ch3> alpha\nch2> beta\n");
    assert!(diagnostics.contains("[wiremux] batch records=2 compression=0"));
    assert!(diagnostics.contains("[wiremux] ch=3"));
    assert!(diagnostics.contains("[wiremux] ch=2"));
}

#[test]
fn listen_manifest_event_updates_labels_without_displaying_payload() {
    let record = output_envelope(4, "demo 😄\n".as_bytes());
    let mut display = DisplayOutput::new(Vec::new(), None);
    let mut diagnostics = String::new();

    write_event(&mut display, &mut diagnostics, HostEvent::Manifest(manifest_with_channel_name(4, "🚗🎒😄")));
    assert!(display.out.is_empty());

    write_event(&mut display, &mut diagnostics, HostEvent::Record(record));

    assert_eq!(String::from_utf8(display.out).expect("utf8 output"), "ch4(🚗🎒😄)> demo 😄\n");
    assert!(diagnostics.contains("manifest received: 1 channels"));
}

#[test]
fn maps_tty_and_cu_port_pairs() {
    assert_eq!(paired_tty_cu_path("/dev/tty.usbmodem2101"), Some("/dev/cu.usbmodem2101".to_string()));
    assert_eq!(paired_tty_cu_path("/dev/cu.usbmodem2101"), Some("/dev/tty.usbmodem2101".to_string()));
}

#[test]
fn detects_tty_prefix() {
    assert!(requested_file_name_starts_with("/dev/tty.usbmodem2101", "tty."));
    assert!(!requested_file_name_starts_with("/dev/cu.usbmodem2101", "tty."));
}

#[test]
fn detects_supported_usb_serial_fragments() {
    assert_eq!(usbmodem_fragment("/dev/tty.usbmodem2101"), Some("usbmodem"));
    assert_eq!(usbmodem_fragment("/dev/cu.usbserial-0001"), Some("usbserial"));
    assert_eq!(usbmodem_fragment("/tmp/file"), None);
}

#[test]
fn passthrough_key_payload_maps_terminal_keys() {
    assert_eq!(
        passthrough_key_payload(key(TerminalKeyCode::Char('a'), false, false), Default::default()),
        Some(vec![b'a'])
    );
    assert_eq!(
        passthrough_key_payload(key(TerminalKeyCode::Char('c'), true, false), Default::default()),
        Some(vec![0x03])
    );
    assert_eq!(
        passthrough_key_payload(key(TerminalKeyCode::Enter, false, false), Default::default()),
        Some(vec![b'\r'])
    );
}

#[test]
fn passthrough_exit_key_accepts_crossterm_control_variants() {
    assert!(is_passthrough_exit_key(key(TerminalKeyCode::Char(']'), true, false)));
    assert!(is_passthrough_exit_key(key(TerminalKeyCode::Char('\u{1d}'), false, false)));
    assert!(!is_passthrough_exit_key(key(TerminalKeyCode::Char(']'), false, false)));
}

#[test]
fn passthrough_meta_exit_key_accepts_alt_x_variant() {
    assert!(is_passthrough_meta_exit_key(key(TerminalKeyCode::Char('x'), false, true)));
    assert!(is_passthrough_meta_exit_key(TerminalKey { code: TerminalKeyCode::Char('X'), control: false, alt: true, shift: true, super_key: false }));
    assert!(!is_passthrough_meta_exit_key(key(TerminalKeyCode::Char('x'), false, false)));
}

// Commands with every option spelled out, and the errors for bad values.

#[test]
fn main_parses_listen_subcommand_and_overrides() {
    let command = parse_test_args(&[
        "listen",
        "--port",
        "/tmp/capture.bin",
        "--baud",
        "921600",
        "--max-payload",
        "4096",
        "--reconnect-delay-ms",
        "100",
        "--channel",
        "3",
        "--line",
        "help",
    ])
    .expect("args parse")
    .expect("valid args");
    let CliCommand::Listen(args) = command else {
        panic!("expected listen command");
    };

    assert_eq!(args.serial.port, "/tmp/capture.bin");
    assert_eq!(args.serial.baud, 921_600);
    assert_eq!(args.max_payload_len, 4096);
    assert_eq!(args.reconnect_delay_ms, 100);
    assert_eq!(args.channel, Some(3));
    assert_eq!(args.send_channel, Some(3));
    assert_eq!(args.line, Some("help".to_string()));
}

#[test]
fn main_parses_listen_line_without_filter_as_console_input() {
    let command = parse_test_args(&["listen", "--port", "/dev/cu.usbmodem2101", "--line", "mux_log"])
        .expect("args parse")
        .expect("valid args");
    let CliCommand::Listen(args) = command else {
        panic!("expected listen command");
    };

    assert_eq!(args.channel, None);
    assert_eq!(args.send_channel, Some(1));
    assert_eq!(args.line, Some("mux_log".to_string()));
}

#[test]
fn main_parses_listen_line_with_explicit_send_channel() {
    let command = parse_test_args(&[
        "listen",
        "--port",
        "/dev/cu.usbmodem2101",
        "--channel",
        "2",
        "--send-channel",
        "1",
        "--line",
        "mux_log",
    ])
    .expect("args parse")
    .expect("valid args");
    let CliCommand::Listen(args) = command else {
        panic!("expected listen command");
    };

    assert_eq!(args.channel, Some(2));
    assert_eq!(args.send_channel, Some(1));
    assert_eq!(args.line, Some("mux_log".to_string()));
}

#[test]
fn main_parses_send_subcommand() {
    let command = parse_test_args(&["send", "--port", "/dev/cu.usbmodem2101", "--channel", "1", "--line", "help"])
        .expect("args parse")
        .expect("valid args");
    let CliCommand::Send(args) = command else {
        panic!("expected send command");
    };

    assert_eq!(args.serial.port, "/dev/cu.usbmodem2101");
    assert_eq!(args.channel, 1);
    assert_eq!(args.line, "help");
}

#[test]
fn main_parses_passthrough_subcommand() {
    let command = parse_test_args(&["passthrough", "--port", "/dev/cu.usbmodem2101", "--channel", "1"])
        .expect("args parse")
        .expect("valid args");
    let CliCommand::Passthrough(args) = command else {
        panic!("expected passthrough command");
    };

    assert_eq!(args.serial.port, "/dev/cu.usbmodem2101");
    assert_eq!(args.channel, 1);
}

#[test]
fn main_rejects_tui_channel_filter_args() {
    let err = parse_test_args(&["tui", "--port", "/dev/cu.usbmodem2101", "--channel", "1"])
        .expect_err("invalid tui args");

    assert!(err.contains("tui does not accept"));
}

#[test]
fn main_rejects_invalid_baud() {
    let err = parse_test_args(&["--port", "/tmp/fake", "--baud", "fast"]).expect_err("invalid baud");

    assert!(err.contains("invalid --baud value"));
}

#[test]
fn main_rejects_invalid_channel() {
    let err = parse_test_args(&["send", "--port", "/tmp/fake", "--channel", "300", "--line", "help"])
        .expect_err("invalid channel");

    assert!(err.contains("invalid --channel value"));
}

#[test]
fn main_rejects_missing_send_line() {
    let err = parse_test_args(&["send", "--port", "/tmp/fake", "--channel", "1"]).expect_err("missing line");

    assert!(err.contains("send requires --line"));
}

#[test]
fn main_help_is_not_an_error() {
    assert!(parse_test_args(&["--help"]).expect("help parses").is_none());
}

#[test]
fn main_prints_utf8_payload_with_escape_sequences() {
    assert_eq!(printable_payload(b"hello\n"), "hello\\n");
}

#[test]
fn main_prints_binary_payload_as_hex() {
    assert_eq!(printable_payload(&[0xff, 0x00, 0x10]), "ff 00 10");
}

#[test]
fn main_sanitizes_port_for_diagnostics_filename() {
    assert_eq!(sanitize_port_for_filename("/dev/cu.usbmodem2101"), "dev_cu.usbmodem2101");
    assert_eq!(sanitize_port_for_filename("/"), "port");
}

#[test]
fn main_maps_tty_and_cu_port_pairs() {
    assert_eq!(paired_tty_cu_path("/dev/tty.usbmodem2101"), Some("/dev/cu.usbmodem2101".to_string()));
    assert_eq!(paired_tty_cu_path("/dev/cu.usbmodem2101"), Some("/dev/tty.usbmodem2101".to_string()));
}

#[test]
fn main_detects_tty_prefix() {
    assert!(requested_file_name_starts_with("/dev/tty.usbmodem2101", "tty."));
    assert!(!requested_file_name_starts_with("/dev/cu.usbmodem2101", "tty."));
}

#[test]
fn main_detects_supported_usb_serial_fragments() {
    assert_eq!(usbmodem_fragment("/dev/tty.usbmodem2101"), Some("usbmodem"));
    assert_eq!(usbmodem_fragment("/dev/cu.usbserial-0001"), Some("usbserial"));
    assert_eq!(usbmodem_fragment("/tmp/file"), None);
}

#[test]
fn main_parses_required_port_with_defaults() {
    let command = parse_test_args(&["--port", "/dev/tty.usbmodem2101"])
        .expect("args parse")
        .expect("valid args");
    let CliCommand::Listen(args) = command else {
        panic!("expected listen command");
    };

    assert_eq!(args.serial.port, "/dev/tty.usbmodem2101");
    assert_eq!(args.serial.baud, 115_200);
    assert_eq!(args.serial.data_bits, 8);
    assert_eq!(args.serial.stop_bits, 1);
    assert_eq!(args.max_payload_len, DEFAULT_MAX_PAYLOAD_LEN);
    assert_eq!(args.reconnect_delay_ms, 500);
    assert_eq!(args.channel, None);
    assert_eq!(args.send_channel, None);
    assert_eq!(args.line, None);
}

#[test]
fn main_parses_tui_subcommand() {
    let command = parse_test_args(&["tui", "--port", "/dev/cu.usbmodem2101", "--baud", "921600"])
        .expect("args parse")
        .expect("valid args");
    let CliCommand::Tui(args) = command else {
        panic!("expected tui command");
    };

    assert_eq!(args.serial.port, "/dev/cu.usbmodem2101");
    assert_eq!(args.serial.baud, 921_600);
    assert_eq!(args.max_payload_len, DEFAULT_MAX_PAYLOAD_LEN);
    assert_eq!(args.interactive_backend, InteractiveBackendMode::Auto);
    assert_eq!(args.tui_fps, None);
}

#[test]
fn main_filtered_display_writes_raw_payload_and_preserves_newlines() {
    let mut display = DisplayOutput::new(Vec::new(), Some(1));

    display.write_record(&output_envelope(1, b"line1\r\nline2\rline3\n"));
    display.write_record(&output_envelope(2, b"hidden\n"));

    assert_eq!(display.out, b"line1\r\nline2\rline3\n");
}

#[test]
fn main_unfiltered_display_prefixes_record_once_and_preserves_payload_newlines() {
    let mut display = DisplayOutput::new(Vec::new(), None);

    display.write_record(&output_envelope(3, b"line1\r\nline2\n"));

    assert_eq!(display.out, b"ch3> line1\r\nline2\n");
}

#[test]
fn main_unfiltered_display_uses_manifest_channel_names() {
    let mut display = DisplayOutput::new(Vec::new(), None);
    let manifest = manifest_with_channel_name(4, "🚗🎒😄🔥");
    display.update_manifest(&manifest);

    display.write_record(&output_envelope(4, "你好 UTF-8 😄\n".as_bytes()));

    assert_eq!(
        String::from_utf8(display.out).expect("utf8 output"),
        "ch4(🚗🎒😄)> 你好 UTF-8 😄\n"
    );
}

#[test]
fn main_unfiltered_display_ignores_empty_manifest_channel_names() {
    let mut display = DisplayOutput::new(Vec::new(), None);
    let manifest = manifest_with_channel_name(4, "\n\r");
    display.update_manifest(&manifest);

    display.write_record(&output_envelope(4, b"plain\n"));

    assert_eq!(display.out, b"ch4> plain\n");
}

#[test]
fn main_unfiltered_display_marks_channel_switch_after_partial_line() {
    let mut display = DisplayOutput::new(Vec::new(), None);

    display.write_record(&output_envelope(1, b"booting"));
    display.write_record(&output_envelope(2, b"sensor ready\n"));

    assert_eq!(
        display.out,
        b"ch1> booting\nwiremux> continued after partial ch1 line\nch2> sensor ready\n"
    );
}

#[test]
fn main_unfiltered_display_switches_channels_without_marker_after_newline() {
    let mut display = DisplayOutput::new(Vec::new(), None);

    display.write_record(&output_envelope(1, b"ready\n"));
    display.write_record(&output_envelope(2, b"sensor ready\n"));

    assert_eq!(display.out, b"ch1> ready\nch2> sensor ready\n");
}

#[test]
fn main_batch_event_writes_payloads_to_display_and_summary_to_diagnostics() {
    let records = vec![output_envelope(3, b"alpha\n"), output_envelope(2, b"beta\n")];
    let mut display = DisplayOutput::new(Vec::new(), None);
    let mut diagnostics = String::new();

    for event in [
        HostEvent::Record(records[0].clone()),
        HostEvent::Record(records[1].clone()),
        HostEvent::BatchSummary(BatchSummary {
            compression: 0,
            encoded_bytes: 0,
            raw_bytes: 0,
            record_count: records.len(),
        }),
    ] {
        write_event(&mut display, &mut diagnostics, event);
    }

    assert_eq!(display.out, b"ch3> alpha\nch2> beta\n");
    assert!(diagnostics.contains("[wiremux] batch records=2 compression=0"));
    assert!(diagnostics.contains("[wiremux] ch=3"));
    assert!(diagnostics.contains("[wiremux] ch=2"));
}

#[test]
fn main_listen_manifest_event_updates_labels_without_displaying_payload() {
    let record = output_envelope(4, "demo 😄\n".as_bytes());
    let mut display = DisplayOutput::new(Vec::new(), None);
    let mut diagnostics = String::new();

    write_event(&mut display, &mut diagnostics, HostEvent::Manifest(manifest_with_channel_name(4, "🚗🎒😄")));
    assert!(display.out.is_empty());

    write_event(&mut display, &mut diagnostics, HostEvent::Record(record));

    assert_eq!(String::from_utf8(display.out).expect("utf8 output"), "ch4(🚗🎒😄)> demo 😄\n");
    assert!(diagnostics.contains("manifest received: 1 channels"));
}

#[test]
fn main_passthrough_key_payload_maps_terminal_keys() {
    assert_eq!(
        passthrough_key_payload(key(TerminalKeyCode::Char('a'), false, false), Default::default()),
        Some(vec![b'a'])
    );
    assert_eq!(
        passthrough_key_payload(key(TerminalKeyCode::Char('c'), true, false), Default::default()),
        Some(vec![0x03])
    );
    assert_eq!(
        passthrough_key_payload(key(TerminalKeyCode::Enter, false, false), Default::default()),
        Some(vec![b'\r'])
    );
}

#[test]
fn main_passthrough_exit_key_accepts_crossterm_control_variants() {
    assert!(is_passthrough_exit_key(key(TerminalKeyCode::Char(']'), true, false)));
    assert!(is_passthrough_exit_key(key(TerminalKeyCode::Char('\u{1d}'), false, false)));
    assert!(!is_passthrough_exit_key(key(TerminalKeyCode::Char(']'), false, false)));
}

#[test]
fn main_passthrough_meta_exit_key_accepts_alt_x_variant() {
    assert!(is_passthrough_meta_exit_key(key(TerminalKeyCode::Char('x'), false, true)));
    assert!(is_passthrough_meta_exit_key(TerminalKey { code: TerminalKeyCode::Char('X'), control: false, alt: true, shift: true, super_key: false }));
    assert!(!is_passthrough_meta_exit_key(key(TerminalKeyCode::Char('x'), false, false)));
}
