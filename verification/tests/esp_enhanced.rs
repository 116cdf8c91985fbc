use wiremux::envelope::{MuxEnvelope, DIRECTION_OUTPUT, PAYLOAD_KIND_TEXT};
use wiremux::esp_enhanced::{
    esp32_bootloader_steps, esp32_hard_reset_steps, ResetStep,
    change_baud_rate, esp32_bootloader_reset_mode, is_espressif_manifest, is_flash_command,
    Esp32BootloaderResetMode, EspressifEnhancedHost, EsptoolSlipClassifier, SlipFrameReader,
    ESPTOOL_CHANGE_BAUDRATE, ESPTOOL_FLASH_DATA, ESPTOOL_SYNC, ESPTOOL_SYNC_PREFIX, SLIP_END,
    SLIP_ESC, SLIP_ESC_END, SLIP_ESC_ESC,
};
use wiremux::manifest::DeviceManifest;

fn slip_frame(payload: &[u8]) -> Vec<u8> {
    let mut out = vec![SLIP_END];
    for byte in payload {
        match *byte {
            SLIP_END => out.extend_from_slice(&[SLIP_ESC, SLIP_ESC_END]),
            SLIP_ESC => out.extend_from_slice(&[SLIP_ESC, SLIP_ESC_ESC]),
            value => out.push(value),
        }
    }
    out.push(SLIP_END);
    out
}

fn sync_payload() -> Vec<u8> {
    let mut payload = vec![0x00, ESPTOOL_SYNC, 36, 0, 0, 0, 0, 0];
    payload.extend_from_slice(&ESPTOOL_SYNC_PREFIX);
    payload.extend_from_slice(&[0x55; 32]);
    payload
}

fn manifest(device_name: &str, sdk_name: &str) -> DeviceManifest {
    DeviceManifest {
        device_name: device_name.to_string(),
        sdk_name: sdk_name.to_string(),
        firmware_version: String::new(),
        protocol_version: 0,
        max_channels: 0,
        channels: Vec::new(),
        native_endianness: 0,
        max_payload_len: 0,
        transport: String::new(),
        feature_flags: 0,
        sdk_version: String::new(),
    }
}

#[test]
fn classifier_accepts_complete_esptool_sync_frame() {
    let mut classifier = EsptoolSlipClassifier::new();
    let commands = classifier.feed(&slip_frame(&sync_payload()));
    assert_eq!(commands.len(), 1);
    assert_eq!(commands[0].opcode, ESPTOOL_SYNC);
    assert_eq!(&commands[0].payload[..ESPTOOL_SYNC_PREFIX.len()], &ESPTOOL_SYNC_PREFIX[..]);
}

#[test]
fn classifier_rejects_plain_terminal_text() {
    let mut classifier = EsptoolSlipClassifier::new();
    let commands = classifier.feed(b"help\r\n");
    assert!(commands.is_empty());
}

#[test]
fn classifier_rejects_sync_command_without_magic_payload() {
    let mut payload = vec![0x00, ESPTOOL_SYNC, 4, 0, 0, 0, 0, 0];
    payload.extend_from_slice(&[1, 2, 3, 4]);
    let mut classifier = EsptoolSlipClassifier::new();
    let commands = classifier.feed(&slip_frame(&payload));
    assert!(commands.is_empty());
}

#[test]
fn classifier_extracts_change_baud_rate() {
    let mut payload = vec![0x00, ESPTOOL_CHANGE_BAUDRATE, 8, 0, 0, 0, 0, 0];
    payload.extend_from_slice(&460_800u32.to_le_bytes());
    payload.extend_from_slice(&115_200u32.to_le_bytes());
    let mut classifier = EsptoolSlipClassifier::new();
    let commands = classifier.feed(&slip_frame(&payload));

    assert_eq!(commands.len(), 1);
    assert_eq!(change_baud_rate(&commands[0]), Some(460_800));
}

#[test]
fn slip_frame_reader_waits_for_complete_frame() {
    let frame = slip_frame(&[0x01, 0x02, SLIP_END, SLIP_ESC]);
    let split = frame.len() - 1;
    let mut reader = SlipFrameReader::default();

    assert!(reader.feed(&frame[..split]).is_empty());
    assert_eq!(reader.feed(&frame[split..]), vec![vec![0x01, 0x02, SLIP_END, SLIP_ESC]]);
}

#[test]
fn slip_frame_reader_decodes_frames_fed_byte_by_byte() {
    let payloads: Vec<Vec<u8>> = vec![vec![SLIP_ESC, 7, SLIP_END], vec![9, 9]];
    let mut stream = Vec::new();
    for p in &payloads {
        stream.extend(slip_frame(p));
    }
    let mut reader = SlipFrameReader::default();
    let mut frames = Vec::new();
    for byte in stream {
        frames.extend(reader.feed(&[byte]));
    }
    assert_eq!(frames, payloads);
}

#[test]
fn usbmodem_source_port_uses_usb_jtag_reset() {
    assert_eq!(
        esp32_bootloader_reset_mode(Some("/dev/cu.usbmodem41301")),
        Esp32BootloaderResetMode::UsbJtagSerial
    );
    assert_eq!(
        esp32_bootloader_reset_mode(Some("/dev/cu.usbserial-0001")),
        Esp32BootloaderResetMode::UsbToSerialBridge
    );
    assert_eq!(esp32_bootloader_reset_mode(None), Esp32BootloaderResetMode::UsbToSerialBridge);
}

#[test]
fn espressif_manifest_matches_current_sdk_name() {
    assert!(is_espressif_manifest(&manifest("esp-wiremux", "esp-wiremux")));
    assert!(is_espressif_manifest(&manifest("board", "Espressif IDF")));
    assert!(!is_espressif_manifest(&manifest("board", "zephyr")));
}

#[test]
fn flash_commands_are_recognised() {
    assert!(is_flash_command(ESPTOOL_FLASH_DATA));
    assert!(!is_flash_command(ESPTOOL_SYNC));
}

#[test]
fn host_opens_endpoint_for_espressif_device_and_mirrors_text() {
    let mut host = EspressifEnhancedHost::new();
    assert!(!host.should_poll());
    assert!(host.sync_manifest(&manifest("esp-wiremux", "esp-wiremux")));
    assert_eq!(host.endpoint_opened("/dev/ttys010".to_string()), "esp enhanced tty /dev/ttys010");
    assert!(!host.sync_manifest(&manifest("esp-wiremux", "esp-wiremux")));
    let envelope = MuxEnvelope {
        channel_id: 1,
        direction: DIRECTION_OUTPUT,
        sequence: 0,
        timestamp_us: 0,
        kind: PAYLOAD_KIND_TEXT,
        payload_type: String::new(),
        payload: b"boot\n".to_vec(),
        flags: 0,
    };
    assert_eq!(host.mirror_mux_output(&envelope), Some(b"ch1> boot\r\n".to_vec()));
    assert!(!host.sync_manifest(&manifest("board", "zephyr")));
    assert_eq!(host.summary(), "esp-enhanced unavailable");
}

fn monitoring_host(port: &str) -> EspressifEnhancedHost {
    let mut host = EspressifEnhancedHost::new();
    host.set_source_port(port.to_string());
    host.set_monitor_baud(115_200);
    assert!(host.sync_manifest(&manifest("esp-wiremux", "esp-wiremux")));
    host.endpoint_opened("/dev/ttys010".to_string());
    host
}

#[test]
fn sync_request_enters_raw_bridge_and_replays_held_input() {
    let mut host = monitoring_host("/dev/cu.usbmodem41301");
    let frame = slip_frame(&sync_payload());
    let (head, tail) = frame.split_at(5);

    let step = host.endpoint_input(head);
    assert!(step.start_pending_timer);
    assert!(step.serial_write.is_empty());
    assert!(!host.is_raw_bridge_active());

    let step = host.endpoint_input(tail);
    assert!(host.is_raw_bridge_active());
    assert_eq!(step.enter_bootloader, Some(Esp32BootloaderResetMode::UsbJtagSerial));
    assert_eq!(step.serial_write, frame);
    assert!(step.reset_host_session);
    assert_eq!(
        step.diagnostics,
        vec![format!(
            "[wiremux] esp_enhanced esptool sync detected; entering raw bridge reset_mode=UsbJtagSerial replay_bytes={}",
            frame.len()
        )]
    );
    assert_eq!(host.summary(), "esp-enhanced raw bridge /dev/ttys010");
}

#[test]
fn raw_bridge_notes_flash_and_applies_baud_after_answer() {
    let mut host = monitoring_host("/dev/cu.usbserial-1");
    host.endpoint_input(&slip_frame(&sync_payload()));
    let mut payload = vec![0x00, ESPTOOL_CHANGE_BAUDRATE, 8, 0, 0, 0, 0, 0];
    payload.extend_from_slice(&460_800u32.to_le_bytes());
    payload.extend_from_slice(&115_200u32.to_le_bytes());
    let step = host.endpoint_input(&slip_frame(&payload));
    assert_eq!(step.serial_write, slip_frame(&payload));
    assert_eq!(step.diagnostics, vec!["[wiremux] esp_enhanced change-baud command detected baud=460800".to_string()]);
    let flash = slip_frame(&[0x00, ESPTOOL_FLASH_DATA, 0, 0, 0, 0, 0, 0]);
    host.endpoint_input(&flash);
    assert_eq!(host.summary(), "esp-enhanced flashing /dev/ttys010");

    let step = host.write_raw_serial_output(&[SLIP_END, 1]).expect("raw bridge");
    assert_eq!(step.set_baud, None);
    let step = host.write_raw_serial_output(&[2, SLIP_END]).expect("raw bridge");
    assert_eq!(step.set_baud, Some(460_800));

    let step = host.endpoint_closed(false);
    assert_eq!(step.hard_reset, Some(Esp32BootloaderResetMode::UsbToSerialBridge));
    assert_eq!(step.set_baud, Some(115_200));
    assert_eq!(
        step.diagnostics,
        vec![
            "[wiremux] esp_enhanced raw bridge client closed".to_string(),
            "[wiremux] esp_enhanced raw bridge finished flash; hard resetting reset_mode=UsbToSerialBridge".to_string(),
            "[wiremux] esp_enhanced restoring monitor baud=115200".to_string(),
        ]
    );
    assert!(!host.is_raw_bridge_active());
    assert_eq!(host.summary(), "esp-enhanced monitor /dev/ttys010");
}

#[test]
fn held_input_is_dropped_on_overflow_and_timeout() {
    let mut host = monitoring_host("/dev/cu.usbserial-1");
    let step = host.endpoint_input(b"AT\r\n");
    assert!(step.start_pending_timer);
    let step = host.expire_pending();
    assert!(step.dirty);
    assert_eq!(step.diagnostics, vec!["[wiremux] esp_enhanced pending input timed out bytes=4".to_string()]);
    assert!(host.expire_pending().diagnostics.is_empty());

    let big = vec![b'a'; 70_000];
    let step = host.endpoint_input(&big);
    assert_eq!(step.diagnostics, vec!["[wiremux] esp_enhanced pending input overflow bytes=70000".to_string()]);
    assert!(!step.start_pending_timer);
    assert!(host.write_raw_serial_output(b"x").is_none());
    assert!(host.endpoint_closed(true).diagnostics.is_empty());
}

#[test]
fn reset_sequences_drive_modem_lines_in_order() {
    assert_eq!(
        esp32_bootloader_steps(Esp32BootloaderResetMode::UsbToSerialBridge),
        vec![
            ResetStep::Dtr(false),
            ResetStep::Rts(true),
            ResetStep::SleepMs(100),
            ResetStep::Dtr(true),
            ResetStep::Rts(false),
            ResetStep::SleepMs(50),
            ResetStep::Dtr(false),
        ]
    );
    assert_eq!(esp32_bootloader_steps(Esp32BootloaderResetMode::UsbJtagSerial).len(), 12);
    assert_eq!(
        esp32_hard_reset_steps(Esp32BootloaderResetMode::UsbJtagSerial),
        vec![ResetStep::Rts(true), ResetStep::SleepMs(200), ResetStep::Rts(false), ResetStep::SleepMs(200)]
    );
}
