use wiremux::envelope::{MuxEnvelope, DIRECTION_INPUT, DIRECTION_OUTPUT, PAYLOAD_KIND_TEXT};
use wiremux::generic_enhanced::latest_virtual_serial_capability_id;
use wiremux::interactive::{
    generic_enhanced_registry, host_supports_virtual_serial_provider, is_passthrough_exit_key,
    is_passthrough_meta_exit_key, newline_bytes, paired_tty_cu_path, passthrough_key_payload, path_file_name,
    requested_file_name_starts_with, usbmodem_fragment, HostConfig, InteractiveBackendMode,
    SerialConfig, SerialFlowControl, SerialParity, SerialProfile, SerialProfileOverrides,
    TerminalKey, TerminalKeyCode, VirtualSerialConfig, VirtualSerialExport,
};
use wiremux::manifest::{
    ChannelDescriptor, DeviceManifest, PassthroughPolicy, CHANNEL_INTERACTION_PASSTHROUGH,
    NEWLINE_POLICY_CRLF, NEWLINE_POLICY_LF,
};
use wiremux::virtual_serial::{
    source_port_virtual_serial_name_part, terminal_text_output_bytes, virtual_serial_name,
    virtual_serial_record_delimited_output, EndpointBackend, VirtualSerialBroker,
    VirtualSerialEndpoint, VirtualSerialInputEvent, VirtualSerialInputOwner,
};

fn key(code: TerminalKeyCode, control: bool, alt: bool) -> TerminalKey {
    TerminalKey { code, control, alt, shift: false, super_key: false }
}

#[test]
fn serial_config_resolves_profile_with_defaults_and_overrides() {
    let config = HostConfig {
        serial: SerialConfig {
            port: Some("/dev/tty.usbserial-a".to_string()),
            baud: 115_200,
            data_bits: 8,
            stop_bits: 1,
            parity: SerialParity::NoParity,
            flow_control: SerialFlowControl::NoFlowControl,
        },
        ..Default::default()
    };

    let profile = config
        .serial
        .resolve_profile(SerialProfileOverrides {
            baud: Some(921_600),
            data_bits: Some(7),
            parity: Some(SerialParity::Even),
            ..Default::default()
        })
        .expect("profile resolves");

    assert_eq!(profile.port, "/dev/tty.usbserial-a");
    assert_eq!(profile.baud, 921_600);
    assert_eq!(profile.data_bits, 7);
    assert_eq!(profile.stop_bits, 1);
    assert_eq!(profile.parity, SerialParity::Even);
    assert_eq!(profile.flow_control, SerialFlowControl::NoFlowControl);
}

#[test]
fn serial_config_rejects_missing_port_and_invalid_options() {
    let missing = SerialConfig::default()
        .resolve_profile(SerialProfileOverrides::default())
        .expect_err("missing port should fail");
    assert!(missing.contains("serial port is required"));

    let invalid = SerialConfig {
        port: Some("/dev/tty.usbserial-a".to_string()),
        data_bits: 9,
        ..Default::default()
    }
    .resolve_profile(SerialProfileOverrides::default())
    .expect_err("invalid data bits should fail");
    assert!(invalid.contains("invalid data bits"));
}

#[test]
fn serial_profile_rejects_zero_baud_and_bad_stop_bits() {
    let base = SerialProfile {
        port: "/dev/tty.usbserial-a".to_string(),
        baud: 115_200,
        data_bits: 8,
        stop_bits: 1,
        parity: SerialParity::NoParity,
        flow_control: SerialFlowControl::NoFlowControl,
    };
    assert_eq!(base.validate(), Ok(()));
    let zero = SerialProfile { baud: 0, ..base.clone() };
    assert!(zero.validate().is_err());
    let stop = SerialProfile { stop_bits: 3, ..base.clone() };
    assert!(stop.validate().is_err());
    assert_eq!(base.summary(), "/dev/tty.usbserial-a 115200 8N1 flow=none");
}

#[test]
fn serial_settings_words_parse_back() {
    for parity in [SerialParity::NoParity, SerialParity::Odd, SerialParity::Even] {
        assert_eq!(SerialParity::parse(parity.label()), Some(parity));
    }
    for flow in [
        SerialFlowControl::NoFlowControl,
        SerialFlowControl::Software,
        SerialFlowControl::Hardware,
    ] {
        assert_eq!(SerialFlowControl::parse(flow.label()), Some(flow));
    }
    assert_eq!(SerialParity::parse("bogus"), None);
    assert_eq!(InteractiveBackendMode::parse("auto"), Some(InteractiveBackendMode::Auto));
    assert_eq!(InteractiveBackendMode::parse("nope"), None);
}

#[test]
fn host_config_from_profile_marks_virtual_serial_configured() {
    let profile = SerialProfile {
        port: "/dev/tty.usbserial-a".to_string(),
        baud: 921_600,
        data_bits: 7,
        stop_bits: 2,
        parity: SerialParity::Even,
        flow_control: SerialFlowControl::Hardware,
    };
    let config = HostConfig::from_serial_profile(&profile);
    assert_eq!(config.serial.port, Some("/dev/tty.usbserial-a".to_string()));
    assert_eq!(config.serial.baud, 921_600);
    assert!(config.virtual_serial.enabled);
    assert_eq!(config.virtual_serial.export, VirtualSerialExport::AllManifestChannels);
    let profile_again = config
        .serial
        .resolve_profile(SerialProfileOverrides::default())
        .expect("resolves");
    assert_eq!(profile_again, profile);
}

#[test]
fn virtual_serial_text_output_maps_lf_to_crlf() {
    let mut previous_was_cr = false;

    assert_eq!(
        terminal_text_output_bytes(b"one\ntwo\r\nthree\r", &mut previous_was_cr, false),
        b"one\r\ntwo\r\nthree\r"
    );
    assert!(previous_was_cr);

    assert_eq!(
        terminal_text_output_bytes(b"\nfour\n", &mut previous_was_cr, false),
        b"\nfour\r\n"
    );
    assert!(!previous_was_cr);
}

#[test]
fn generic_enhanced_registry_matches_virtual_serial_feature_support() {
    let registry = generic_enhanced_registry().expect("registry");
    let id = latest_virtual_serial_capability_id().expect("id");
    assert_eq!(host_supports_virtual_serial_provider(), registry.supports(&id));
    assert!(host_supports_virtual_serial_provider());
}

#[test]
fn virtual_serial_text_output_appends_record_break_for_line_channels() {
    let mut previous_was_cr = false;

    assert_eq!(
        terminal_text_output_bytes(b"stress record", &mut previous_was_cr, true),
        b"stress record\r\n"
    );
    assert!(!previous_was_cr);

    assert_eq!(
        terminal_text_output_bytes(b"already ended\n", &mut previous_was_cr, true),
        b"already ended\r\n"
    );
    assert!(!previous_was_cr);

    assert_eq!(
        terminal_text_output_bytes(b"carriage\r", &mut previous_was_cr, true),
        b"carriage\r"
    );
    assert!(previous_was_cr);
}

#[test]
fn virtual_serial_text_output_preserves_passthrough_stream_boundaries() {
    let mut previous_was_cr = false;

    assert_eq!(
        terminal_text_output_bytes(b"partial", &mut previous_was_cr, false),
        b"partial"
    );
    assert!(!previous_was_cr);
}

fn test_channel_descriptor(
    channel_id: u32,
    interaction_modes: Vec<u32>,
    default_interaction_mode: u32,
) -> ChannelDescriptor {
    ChannelDescriptor {
        channel_id,
        name: "test".to_string(),
        description: String::new(),
        directions: vec![DIRECTION_OUTPUT],
        payload_kinds: Vec::new(),
        payload_types: Vec::new(),
        flags: 0,
        default_payload_kind: 0,
        interaction_modes,
        default_interaction_mode,
        passthrough_policy: Default::default(),
    }
}

fn test_manifest(channels: Vec<ChannelDescriptor>) -> DeviceManifest {
    DeviceManifest {
        device_name: "esp-wiremux".to_string(),
        firmware_version: String::new(),
        protocol_version: 0,
        max_channels: 0,
        channels,
        native_endianness: 0,
        max_payload_len: 0,
        transport: String::new(),
        feature_flags: 0,
        sdk_name: String::new(),
        sdk_version: String::new(),
    }
}

#[test]
fn virtual_serial_uses_record_delimiters_only_for_non_passthrough_channels() {
    let line_channel = test_channel_descriptor(1, Vec::new(), 0);
    assert!(virtual_serial_record_delimited_output(&line_channel));

    let passthrough_channel = test_channel_descriptor(1, vec![CHANNEL_INTERACTION_PASSTHROUGH], 0);
    assert!(!virtual_serial_record_delimited_output(&passthrough_channel));

    let default_passthrough_channel =
        test_channel_descriptor(1, Vec::new(), CHANNEL_INTERACTION_PASSTHROUGH);
    assert!(!virtual_serial_record_delimited_output(&default_passthrough_channel));
}

#[test]
fn virtual_serial_name_uses_source_port_and_channel_fallbacks() {
    let manifest = test_manifest(Vec::new());
    let named = ChannelDescriptor {
        name: "telemetry".to_string(),
        ..test_channel_descriptor(3, Vec::new(), 0)
    };
    let emoji = ChannelDescriptor {
        channel_id: 4,
        name: "🚗🎒😄".to_string(),
        ..test_channel_descriptor(4, Vec::new(), 0)
    };

    assert_eq!(
        source_port_virtual_serial_name_part("/dev/tty.HUAWEIFreeClip2345"),
        "HUAWEIFreeClip2"
    );
    assert_eq!(
        virtual_serial_name(
            "wiremux-{device}-{channel}",
            &manifest,
            &named,
            Some("/dev/tty.usbmodem41301"),
        ),
        "wiremux-usbmodem41301-telemetry"
    );
    assert_eq!(
        virtual_serial_name(
            "wiremux-{device}-{channel}",
            &manifest,
            &emoji,
            Some("/dev/tty.usbmodem41301"),
        ),
        "wiremux-usbmodem41301-ch4"
    );
}

#[test]
fn virtual_serial_name_falls_back_to_device_and_channel_id() {
    let manifest = test_manifest(Vec::new());
    let named = ChannelDescriptor {
        name: "telemetry".to_string(),
        ..test_channel_descriptor(3, Vec::new(), 0)
    };
    assert_eq!(
        virtual_serial_name("wiremux-{device}-{channel_id}", &manifest, &named, None),
        "wiremux-esp-wiremux-3"
    );
}

fn active_endpoint(channel_id: u32, name: &str, input_capable: bool, owner: VirtualSerialInputOwner) -> VirtualSerialEndpoint {
    VirtualSerialEndpoint {
        channel_id,
        name: name.to_string(),
        input_capable,
        input_owner: owner,
        output_record_delimited: true,
        output_previous_was_cr: false,
        output_pending: Vec::new(),
        output_dropped_bytes: 0,
        backend: EndpointBackend::Active {
            path: "/dev/tty.wiremux-test".to_string(),
            real_path: "/dev/ttys999".to_string(),
        },
    }
}

#[test]
fn virtual_serial_sync_reuses_matching_endpoint() {
    let mut broker = VirtualSerialBroker::with_source_port(
        VirtualSerialConfig::default(),
        "/dev/tty.usbmodem41301".to_string(),
    );
    let mut endpoint = active_endpoint(
        3,
        "wiremux-usbmodem41301-telemetry",
        true,
        VirtualSerialInputOwner::VirtualSerial,
    );
    endpoint.output_pending = b"pending".to_vec();
    broker.adopt_endpoint(endpoint);
    let manifest = test_manifest(vec![ChannelDescriptor {
        channel_id: 3,
        name: "telemetry".to_string(),
        description: String::new(),
        directions: vec![DIRECTION_INPUT, DIRECTION_OUTPUT],
        payload_kinds: Vec::new(),
        payload_types: Vec::new(),
        flags: 0,
        default_payload_kind: 0,
        interaction_modes: Vec::new(),
        default_interaction_mode: 0,
        passthrough_policy: Default::default(),
    }]);

    broker.sync_manifest(&manifest);

    assert_eq!(broker.endpoints().len(), 1);
    assert_eq!(
        broker.input_owner(3),
        Some(VirtualSerialInputOwner::VirtualSerial)
    );
    assert_eq!(broker.endpoints()[0].output_pending, b"pending");
    assert_eq!(
        broker.endpoint_path_for_channel(3),
        Some("/dev/tty.wiremux-test".to_string())
    );
}

#[test]
fn virtual_serial_output_backpressure_is_queued() {
    let mut endpoint = active_endpoint(1, "console", false, VirtualSerialInputOwner::Host);
    let mut device: Vec<u8> = Vec::new();

    endpoint.enqueue_output(b"abcdef");
    // The device takes three bytes.
    device.extend_from_slice(&endpoint.output_pending[..3]);
    endpoint.output_written(3);
    assert_eq!(device, b"abc");
    assert_eq!(endpoint.output_pending, b"def");

    // A poll on which the device takes nothing keeps the queue.
    endpoint.output_written(0);
    assert_eq!(endpoint.output_pending, b"def");

    // A later writable poll drains it.
    device.extend_from_slice(&endpoint.output_pending[..3]);
    endpoint.output_written(3);
    assert_eq!(device, b"abcdef");
    assert!(endpoint.output_pending.is_empty());
}

#[test]
fn virtual_serial_new_channel_endpoint_waits_for_host_to_open_it() {
    let mut broker = VirtualSerialBroker::with_source_port(
        VirtualSerialConfig::default(),
        "/dev/tty.usbmodem41301".to_string(),
    );
    let mut channel = test_channel_descriptor(2, Vec::new(), 0);
    channel.name = "console".to_string();
    channel.directions = vec![DIRECTION_INPUT, DIRECTION_OUTPUT];
    broker.sync_manifest(&test_manifest(vec![channel]));

    assert_eq!(broker.endpoints().len(), 1);
    assert_eq!(broker.endpoints()[0].name, "wiremux-usbmodem41301-console");
    assert_eq!(broker.endpoints()[0].backend, EndpointBackend::Opening);
    assert_eq!(broker.endpoint_path_for_channel(2), None);
    assert_eq!(broker.summary(), "virtual serial 0/1 endpoints");
}

#[test]
fn virtual_serial_toggle_input_owner_twice_restores_owner() {
    let mut broker = VirtualSerialBroker::new(VirtualSerialConfig::default());
    broker.adopt_endpoint(active_endpoint(5, "x", true, VirtualSerialInputOwner::Host));
    assert_eq!(broker.toggle_input_owner(5), Some(VirtualSerialInputOwner::VirtualSerial));
    assert_eq!(broker.toggle_input_owner(5), Some(VirtualSerialInputOwner::Host));
    assert_eq!(broker.toggle_input_owner(6), None);
}

#[test]
fn virtual_serial_input_is_forwarded_only_when_endpoint_owns_it() {
    let mut broker = VirtualSerialBroker::new(VirtualSerialConfig::default());
    broker.adopt_endpoint(active_endpoint(1, "a", true, VirtualSerialInputOwner::VirtualSerial));
    broker.adopt_endpoint(active_endpoint(2, "b", true, VirtualSerialInputOwner::Host));
    broker.adopt_endpoint(active_endpoint(3, "c", false, VirtualSerialInputOwner::VirtualSerial));
    broker.adopt_endpoint(active_endpoint(300, "d", true, VirtualSerialInputOwner::VirtualSerial));

    let events = broker.poll_input(&[
        (0, b"hi".to_vec()),
        (1, b"xy".to_vec()),
        (2, b"z".to_vec()),
        (3, b"big".to_vec()),
    ]);
    assert_eq!(
        events,
        vec![
            VirtualSerialInputEvent::Forward { channel_id: 1, payload: b"hi".to_vec() },
            VirtualSerialInputEvent::Discarded { channel_id: 2, reason: "host owns input".to_string(), bytes: 2 },
            VirtualSerialInputEvent::Discarded { channel_id: 3, reason: "channel is output-only".to_string(), bytes: 1 },
            VirtualSerialInputEvent::Discarded {
                channel_id: 300,
                reason: "channel id exceeds host input frame range".to_string(),
                bytes: 3,
            },
        ]
    );

    broker.set_enabled(false, None);
    assert!(broker.poll_input(&[]).is_empty());
}

#[test]
fn virtual_serial_write_output_queues_text_for_terminal() {
    let mut broker = VirtualSerialBroker::new(VirtualSerialConfig::default());
    broker.adopt_endpoint(active_endpoint(1, "a", true, VirtualSerialInputOwner::VirtualSerial));
    let envelope = MuxEnvelope {
        channel_id: 1,
        direction: DIRECTION_OUTPUT,
        sequence: 0,
        timestamp_us: 0,
        kind: PAYLOAD_KIND_TEXT,
        payload_type: String::new(),
        payload: b"line\n".to_vec(),
        flags: 0,
    };
    broker.write_output(&envelope);
    assert_eq!(broker.endpoints()[0].output_pending, b"line\r\n");
}

#[test]
fn lib_maps_tty_and_cu_port_pairs() {
    assert_eq!(
        paired_tty_cu_path("/dev/tty.usbmodem2101"),
        Some("/dev/cu.usbmodem2101".to_string())
    );
    assert_eq!(
        paired_tty_cu_path("/dev/cu.usbmodem2101"),
        Some("/dev/tty.usbmodem2101".to_string())
    );
    assert_eq!(paired_tty_cu_path("/dev/ttyUSB0"), None);
}

#[test]
fn detects_tty_prefix_and_usb_serial_fragments() {
    assert!(requested_file_name_starts_with("/dev/tty.usbmodem2101", "tty."));
    assert!(!requested_file_name_starts_with("/dev/cu.usbmodem2101", "tty."));
    assert_eq!(usbmodem_fragment("/dev/tty.usbmodem2101"), Some("usbmodem"));
    assert_eq!(usbmodem_fragment("/dev/cu.usbserial-0001"), Some("usbserial"));
    assert_eq!(usbmodem_fragment("/tmp/file"), None);
}

#[test]
fn lib_passthrough_key_payload_maps_terminal_keys() {
    assert_eq!(
        passthrough_key_payload(key(TerminalKeyCode::Char('a'), false, false), Default::default()),
        Some(vec![b'a'])
    );
    assert_eq!(
        passthrough_key_payload(key(TerminalKeyCode::Char('c'), true, false), Default::default()),
        Some(vec![0x03])
    );
    assert_eq!(
        passthrough_key_payload(key(TerminalKeyCode::Enter, false, false), Default::default()),
        Some(vec![b'\r'])
    );
}

#[test]
fn passthrough_enter_follows_newline_policy() {
    let lf = PassthroughPolicy { input_newline_policy: NEWLINE_POLICY_LF };
    let crlf = PassthroughPolicy { input_newline_policy: NEWLINE_POLICY_CRLF };
    assert_eq!(passthrough_key_payload(key(TerminalKeyCode::Enter, false, false), lf), Some(vec![b'\n']));
    assert_eq!(passthrough_key_payload(key(TerminalKeyCode::Enter, false, false), crlf), Some(vec![b'\r', b'\n']));
    assert_eq!(newline_bytes(0), vec![b'\r']);
    assert_eq!(passthrough_key_payload(key(TerminalKeyCode::Up, false, false), lf), Some(b"\x1b[A".to_vec()));
}

#[test]
fn passthrough_exit_keys_accept_control_and_alt_variants() {
    assert!(is_passthrough_exit_key(key(TerminalKeyCode::Char(']'), true, false)));
    assert!(is_passthrough_exit_key(key(TerminalKeyCode::Char('\u{1d}'), false, false)));
    assert!(!is_passthrough_exit_key(key(TerminalKeyCode::Char(']'), false, false)));
    assert!(is_passthrough_meta_exit_key(key(TerminalKeyCode::Char('x'), false, true)));
    assert!(is_passthrough_meta_exit_key(TerminalKey { code: TerminalKeyCode::Char('X'), control: false, alt: true, shift: true, super_key: false }));
}

#[test]
fn file_names_ignore_trailing_separators_and_dots() {
    assert_eq!(path_file_name("/dev/tty.usbmodem2101/"), Some("tty.usbmodem2101".to_string()));
    assert_eq!(path_file_name("/dev/tty.usbmodem2101/."), Some("tty.usbmodem2101".to_string()));
    assert_eq!(path_file_name("/"), None);
    assert_eq!(path_file_name("."), None);
    assert_eq!(path_file_name("/dev/.."), None);
    assert_eq!(paired_tty_cu_path("/dev/tty.usbmodem2101/"), Some("/dev/cu.usbmodem2101".to_string()));
    assert!(requested_file_name_starts_with("/dev/tty.usbmodem2101//", "tty."));
}
