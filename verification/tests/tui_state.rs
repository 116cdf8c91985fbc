use wiremux::envelope::{MuxEnvelope, DIRECTION_INPUT, DIRECTION_OUTPUT};
use wiremux::host_session::{BatchSummary, HostCrcError, HostEvent};
use wiremux::interactive::{TerminalKey, TerminalKeyCode};
use wiremux::manifest::{ChannelDescriptor, DeviceManifest, CHANNEL_INTERACTION_PASSTHROUGH};
use wiremux::tui::{max_scroll_offset, visible_window, OutputArea};
use wiremux::tui_state::{App, InputState, TuiAction, WHEEL_SCROLL_LINES};

fn output_area_for_content(width: u16, height: u16) -> OutputArea {
    OutputArea::new(0, 0, width.saturating_add(2), height.saturating_add(2))
}

fn key(code: TerminalKeyCode) -> TerminalKey {
    TerminalKey { code, control: false, alt: false, shift: false, super_key: false }
}

fn press(app: &mut App, key: TerminalKey) -> Vec<TuiAction> {
    app.handle_key(key, false, false, false, false)
}

fn manifest_with_channel(
    channel_id: u32,
    directions: Vec<u32>,
    interaction_modes: Vec<u32>,
    default_interaction_mode: u32,
) -> DeviceManifest {
    DeviceManifest {
        device_name: String::new(),
        firmware_version: String::new(),
        protocol_version: 2,
        max_channels: 8,
        channels: vec![ChannelDescriptor {
            channel_id,
            name: "console".to_string(),
            description: String::new(),
            directions,
            payload_kinds: Vec::new(),
            payload_types: Vec::new(),
            flags: 0,
            default_payload_kind: 0,
            interaction_modes,
            default_interaction_mode,
            passthrough_policy: Default::default(),
        }],
        native_endianness: 0,
        max_payload_len: 512,
        transport: String::new(),
        feature_flags: 0,
        sdk_name: String::new(),
        sdk_version: String::new(),
    }
}

fn passthrough_manifest(channel_id: u32) -> DeviceManifest {
    manifest_with_channel(
        channel_id,
        vec![DIRECTION_INPUT],
        vec![CHANNEL_INTERACTION_PASSTHROUGH],
        CHANNEL_INTERACTION_PASSTHROUGH,
    )
}

fn line_manifest(channel_id: u32) -> DeviceManifest {
    manifest_with_channel(channel_id, vec![DIRECTION_INPUT], Vec::new(), 0)
}

fn output_only_manifest(channel_id: u32) -> DeviceManifest {
    manifest_with_channel(channel_id, vec![DIRECTION_OUTPUT], Vec::new(), 0)
}

fn app_with_lines(line_count: usize) -> App {
    let mut app = App::new("diag.log");
    for index in 0..line_count {
        app.push_line(None, &format!("line {index}\n"));
    }
    app
}

fn app_with_channel_lines(channel: u32, line_count: usize) -> App {
    let mut app = App::new("diag.log");
    for index in 0..line_count {
        app.push_line(Some(channel), &format!("line {index}\n"));
    }
    app
}

fn record(channel_id: u32, sequence: u32, payload: &[u8]) -> MuxEnvelope {
    MuxEnvelope {
        channel_id,
        direction: 2,
        sequence,
        timestamp_us: 0,
        kind: 1,
        payload_type: String::new(),
        payload: payload.to_vec(),
        flags: 0,
    }
}

fn check_status_label_uses_current_scroll_offset_while_scrolled() {
    let mut app = App::new("diag.log");
    app.status = "scrollbar: 796 lines from bottom".to_string();
    app.scroll_offset = 880;

    assert_eq!(app.status_label(), "scrollback: 880 lines from bottom");

    app.scroll_offset = 0;
    assert_eq!(app.status_label(), "scrollbar: 796 lines from bottom");
}

#[test]
fn status_label_uses_current_scroll_offset_while_scrolled() {
    check_status_label_uses_current_scroll_offset_while_scrolled();
}

fn check_mouse_wheel_scrolls() {
    let mut app = app_with_lines(10);
    let output_area = output_area_for_content(38, 4);

    app.scroll_up(output_area);
    assert_eq!(app.scroll_offset, WHEEL_SCROLL_LINES);
    assert_eq!(app.empty_enter_restore_count, 0);

    app.scroll_down(output_area);
    assert_eq!(app.scroll_offset, 0);
    assert_eq!(app.empty_enter_restore_count, 0);
}

#[test]
fn mouse_scroll_up_pauses_and_scroll_down_restores_tail_follow() {
    check_mouse_wheel_scrolls();
}

#[test]
fn lib_mouse_scroll_up_pauses_and_scroll_down_restores_tail_follow() {
    check_mouse_wheel_scrolls();
}

#[test]
fn tui_mouse_scroll_up_pauses_and_scroll_down_restores_tail_follow() {
    check_mouse_wheel_scrolls();
}

fn check_scroll_up_noop() {
    let mut app = app_with_lines(2);

    app.scroll_up(output_area_for_content(38, 4));
    assert_eq!(app.scroll_offset, 0);
}

#[test]
fn scroll_up_is_noop_when_everything_fits() {
    check_scroll_up_noop();
}

#[test]
fn lib_scroll_up_is_noop_when_everything_fits() {
    check_scroll_up_noop();
}

#[test]
fn tui_scroll_up_is_noop_when_everything_fits() {
    check_scroll_up_noop();
}

fn check_wrapped_output() {
    let mut app = App::new("diag.log");
    for index in 0..3 {
        app.push_line(None, &format!("line {index}: abcdefghijklmnopqrstuvwxyz\n"));
    }
    let output_area = output_area_for_content(16, 4);

    assert_eq!(max_scroll_offset(app.filtered_line_count(), 4), 0);
    assert!(app.max_scroll_offset(output_area) > 0);
}

#[test]
fn wrapped_output_creates_visual_scrollback_even_when_logical_lines_fit() {
    check_wrapped_output();
}

#[test]
fn lib_wrapped_output_creates_visual_scrollback_even_when_logical_lines_fit() {
    check_wrapped_output();
}

#[test]
fn tui_wrapped_output_creates_visual_scrollback_even_when_logical_lines_fit() {
    check_wrapped_output();
}

fn check_two_empty_enters() {
    let mut app = app_with_lines(10);
    app.scroll_up(output_area_for_content(38, 4));

    app.handle_empty_enter_restore();
    assert_eq!(app.scroll_offset, WHEEL_SCROLL_LINES);
    assert_eq!(app.empty_enter_restore_count, 1);

    app.handle_empty_enter_restore();
    assert_eq!(app.scroll_offset, 0);
    assert_eq!(app.empty_enter_restore_count, 0);
}

#[test]
fn two_empty_enters_restore_tail_follow() {
    check_two_empty_enters();
}

#[test]
fn lib_two_empty_enters_restore_tail_follow() {
    check_two_empty_enters();
}

#[test]
fn tui_two_empty_enters_restore_tail_follow() {
    check_two_empty_enters();
}

fn check_reset_counter() {
    let mut app = app_with_lines(10);
    app.scroll_up(output_area_for_content(38, 4));
    app.handle_empty_enter_restore();

    app.reset_empty_enter_restore();
    assert_eq!(app.scroll_offset, WHEEL_SCROLL_LINES);
    assert_eq!(app.empty_enter_restore_count, 0);
}

#[test]
fn non_empty_input_actions_reset_empty_enter_restore_counter() {
    check_reset_counter();
}

#[test]
fn lib_non_empty_input_actions_reset_empty_enter_restore_counter() {
    check_reset_counter();
}

#[test]
fn tui_non_empty_input_actions_reset_empty_enter_restore_counter() {
    check_reset_counter();
}

fn check_appended_lines_keep_view() {
    let mut app = app_with_lines(10);
    app.scroll_up(output_area_for_content(38, 4));
    let expected_window = (
        10usize.saturating_sub(4 + WHEEL_SCROLL_LINES),
        10usize.saturating_sub(WHEEL_SCROLL_LINES),
    );
    assert_eq!(visible_window(app.filtered_line_count(), 4, app.scroll_offset), expected_window);

    app.push_line(None, "new\n");
    assert_eq!(visible_window(app.filtered_line_count(), 4, app.scroll_offset), expected_window);
}

#[test]
fn appended_matching_lines_do_not_move_scrolled_view() {
    check_appended_lines_keep_view();
}

#[test]
fn lib_appended_matching_lines_do_not_move_scrolled_view() {
    check_appended_lines_keep_view();
}

#[test]
fn tui_appended_matching_lines_do_not_move_scrolled_view() {
    check_appended_lines_keep_view();
}

fn check_filtered_scroll() {
    let mut app = App::new("diag.log");
    app.push_line(Some(1), "one\n");
    app.push_line(Some(2), "two\n");
    app.push_line(Some(1), "three\n");
    app.filter = Some(1);

    assert_eq!(app.filtered_line_count(), 2);
    app.scroll_up(output_area_for_content(38, 1));
    assert_eq!(app.scroll_offset, 1);
}

#[test]
fn filtered_scroll_uses_matching_lines_only() {
    check_filtered_scroll();
}

#[test]
fn lib_filtered_scroll_uses_matching_lines_only() {
    check_filtered_scroll();
}

#[test]
fn tui_filtered_scroll_uses_matching_lines_only() {
    check_filtered_scroll();
}

fn check_channel_prefix() {
    let mut app = App::new("diag.log");
    let mut manifest = manifest_with_channel(4, Vec::new(), Vec::new(), 0);
    manifest.protocol_version = 1;
    manifest.channels[0].name = "🚗🎒😄🔥".to_string();
    app.manifest = Some(manifest);

    assert_eq!(app.channel_prefix(4), "ch4(🚗🎒😄)");
    assert_eq!(app.channel_prefix(5), "ch5");
}

#[test]
fn channel_prefix_uses_manifest_name_and_clamps_utf8() {
    check_channel_prefix();
}

#[test]
fn lib_channel_prefix_uses_manifest_name_and_clamps_utf8() {
    check_channel_prefix();
}

#[test]
fn tui_channel_prefix_uses_manifest_name_and_clamps_utf8() {
    check_channel_prefix();
}

fn check_active_input_mode() {
    let mut app = App::new("diag.log");
    app.filter = Some(1);
    app.manifest = Some(passthrough_manifest(1));

    assert!(app.active_input_is_passthrough());
}

#[test]
fn active_input_mode_uses_manifest_passthrough_metadata() {
    check_active_input_mode();
}

#[test]
fn lib_active_input_mode_uses_manifest_passthrough_metadata() {
    check_active_input_mode();
}

#[test]
fn tui_active_input_mode_uses_manifest_passthrough_metadata() {
    check_active_input_mode();
}

fn check_unfiltered_read_only() {
    let mut app = App::new("diag.log");
    app.manifest = Some(passthrough_manifest(1));

    assert_eq!(app.active_input_state(), InputState::ReadOnly);

    press(&mut app, key(TerminalKeyCode::Char('h')));

    assert!(app.input.is_empty());
    assert_eq!(app.status, "input is read-only");
}

#[test]
fn unfiltered_input_is_read_only_even_when_channel_one_supports_passthrough() {
    check_unfiltered_read_only();
}

#[test]
fn lib_unfiltered_input_is_read_only_even_when_channel_one_supports_passthrough() {
    check_unfiltered_read_only();
}

#[test]
fn tui_unfiltered_input_is_read_only_even_when_channel_one_supports_passthrough() {
    check_unfiltered_read_only();
}

fn check_output_only_read_only() {
    let mut app = App::new("diag.log");
    app.filter = Some(2);
    app.manifest = Some(output_only_manifest(2));

    assert_eq!(app.active_input_state(), InputState::ReadOnly);

    press(&mut app, key(TerminalKeyCode::Char('x')));

    assert!(app.input.is_empty());
    assert_eq!(app.status, "input is read-only");
}

#[test]
fn output_only_channel_input_is_read_only() {
    check_output_only_read_only();
}

#[test]
fn lib_output_only_channel_input_is_read_only() {
    check_output_only_read_only();
}

#[test]
fn tui_output_only_channel_input_is_read_only() {
    check_output_only_read_only();
}

fn check_line_mode() {
    let mut app = App::new("diag.log");
    app.filter = Some(1);
    app.manifest = Some(line_manifest(1));

    assert_eq!(app.active_input_state(), InputState::Line(1));
}

#[test]
fn input_channel_without_passthrough_uses_line_mode() {
    check_line_mode();
}

#[test]
fn lib_input_channel_without_passthrough_uses_line_mode() {
    check_line_mode();
}

#[test]
fn tui_input_channel_without_passthrough_uses_line_mode() {
    check_line_mode();
}

fn check_stream_until_newline() {
    let mut app = App::new("diag.log");
    app.manifest = Some(passthrough_manifest(1));

    app.push_record(&record(1, 1, b"m"));
    app.push_record(&record(1, 2, b"ux\r\n"));
    app.push_record(&record(1, 3, b"help"));

    assert_eq!(app.lines.len(), 2);
    assert_eq!(app.lines[0].text, "mux");
    assert!(app.lines[0].complete);
    assert_eq!(app.lines[1].text, "help");
    assert!(!app.lines[1].complete);
}

#[test]
fn passthrough_records_append_to_stream_line_until_newline() {
    check_stream_until_newline();
}

#[test]
fn lib_passthrough_records_append_to_stream_line_until_newline() {
    check_stream_until_newline();
}

#[test]
fn tui_passthrough_records_append_to_stream_line_until_newline() {
    check_stream_until_newline();
}

fn check_empty_newline() {
    let mut app = App::new("diag.log");
    app.manifest = Some(passthrough_manifest(1));

    app.push_record(&record(1, 1, b"\r\n"));
    assert_eq!(app.lines.len(), 1);
    assert!(app.lines[0].text.is_empty());
    assert!(app.lines[0].complete);
}

#[test]
fn passthrough_empty_newline_completes_prompt_line() {
    check_empty_newline();
}

#[test]
fn lib_passthrough_empty_newline_completes_prompt_line() {
    check_empty_newline();
}

#[test]
fn tui_passthrough_empty_newline_completes_prompt_line() {
    check_empty_newline();
}

fn check_repeated_newlines() {
    let mut app = App::new("diag.log");
    app.manifest = Some(passthrough_manifest(1));

    for sequence in 0..3 {
        app.push_record(&record(1, sequence, b"\r\n"));
    }

    assert_eq!(app.lines.len(), 3);
    assert!(app.lines.iter().all(|line| line.text.is_empty()));
    assert!(app.lines.iter().all(|line| line.complete));
}

#[test]
fn passthrough_repeated_empty_newlines_stack_prompt_history() {
    check_repeated_newlines();
}

#[test]
fn lib_passthrough_repeated_empty_newlines_stack_prompt_history() {
    check_repeated_newlines();
}

#[test]
fn tui_passthrough_repeated_empty_newlines_stack_prompt_history() {
    check_repeated_newlines();
}

fn check_backspace_echo() {
    let mut app = App::new("diag.log");
    app.manifest = Some(passthrough_manifest(1));

    app.push_record(&record(1, 1, b"hel\x08 \x08lp\r\n"));

    assert_eq!(app.lines.len(), 1);
    assert_eq!(app.lines[0].text, "help");
    assert!(app.lines[0].complete);
}

#[test]
fn passthrough_stream_applies_backspace_echo() {
    check_backspace_echo();
}

#[test]
fn lib_passthrough_stream_applies_backspace_echo() {
    check_backspace_echo();
}

#[test]
fn tui_passthrough_stream_applies_backspace_echo() {
    check_backspace_echo();
}

fn check_split_backspace() {
    let mut app = App::new("diag.log");
    app.manifest = Some(passthrough_manifest(1));

    for (sequence, payload) in [b"hel".as_slice(), b"\x08", b" ", b"\x08", b"lp\r\n"].into_iter().enumerate() {
        app.push_record(&record(1, sequence as u32, payload));
    }

    assert_eq!(app.lines.len(), 1);
    assert_eq!(app.lines[0].text, "help");
    assert!(app.lines[0].complete);
}

#[test]
fn passthrough_stream_applies_split_backspace_echo() {
    check_split_backspace();
}

#[test]
fn lib_passthrough_stream_applies_split_backspace_echo() {
    check_split_backspace();
}

#[test]
fn tui_passthrough_stream_applies_split_backspace_echo() {
    check_split_backspace();
}

fn check_interleaved() {
    let mut app = App::new("diag.log");
    app.manifest = Some(passthrough_manifest(1));

    for (sequence, payload) in [b"h".as_slice(), b"e", b"l", b"p"].into_iter().enumerate() {
        app.push_record(&record(1, sequence as u32, payload));
    }
    app.push_record(&record(3, 10, b"demo telemetry sample\n"));
    app.push_record(&record(1, 11, b"\x08 \x08"));
    app.push_record(&record(1, 12, b"p\r\n"));

    let channel_one_lines = app.lines.iter().filter(|line| line.channel == Some(1)).collect::<Vec<_>>();

    assert_eq!(channel_one_lines.len(), 1);
    assert_eq!(channel_one_lines[0].text, "help");
    assert!(channel_one_lines[0].complete);
}

#[test]
fn passthrough_stream_continues_after_interleaved_channel_records() {
    check_interleaved();
}

#[test]
fn lib_passthrough_stream_continues_after_interleaved_channel_records() {
    check_interleaved();
}

#[test]
fn tui_passthrough_stream_continues_after_interleaved_channel_records() {
    check_interleaved();
}

fn check_passthrough_input_restores_tail() {
    let mut app = app_with_channel_lines(1, 10);
    app.filter = Some(1);
    app.manifest = Some(passthrough_manifest(1));
    app.scroll_up(output_area_for_content(38, 4));
    assert!(app.scroll_offset > 0);

    press(&mut app, key(TerminalKeyCode::Char('h')));

    assert_eq!(app.scroll_offset, 0);
}

#[test]
fn passthrough_input_restores_live_tail() {
    check_passthrough_input_restores_tail();
}

#[test]
fn lib_passthrough_input_restores_live_tail() {
    check_passthrough_input_restores_tail();
}

#[test]
fn tui_passthrough_input_restores_live_tail() {
    check_passthrough_input_restores_tail();
}

fn check_passthrough_output_restores_tail() {
    let mut app = app_with_channel_lines(1, 10);
    app.filter = Some(1);
    app.manifest = Some(passthrough_manifest(1));
    app.scroll_up(output_area_for_content(38, 4));
    assert!(app.scroll_offset > 0);

    app.push_record(&record(1, 1, b"h"));

    assert_eq!(app.scroll_offset, 0);
}

#[test]
fn passthrough_output_on_active_input_channel_restores_live_tail() {
    check_passthrough_output_restores_tail();
}

#[test]
fn lib_passthrough_output_on_active_input_channel_restores_live_tail() {
    check_passthrough_output_restores_tail();
}

#[test]
fn tui_passthrough_output_on_active_input_channel_restores_live_tail() {
    check_passthrough_output_restores_tail();
}

fn check_exit_key_quits() {
    let mut app = App::new("diag.log");
    press(&mut app, TerminalKey { code: TerminalKeyCode::Char(']'), control: true, alt: false, shift: false, super_key: false });
    assert!(app.should_quit);
}

#[test]
fn passthrough_exit_key_quits_tui() {
    check_exit_key_quits();
}

#[test]
fn lib_passthrough_exit_key_quits_tui() {
    check_exit_key_quits();
}

#[test]
fn tui_passthrough_exit_key_quits_tui() {
    check_exit_key_quits();
}

fn check_meta_x() {
    let mut app = App::new("diag.log");
    press(&mut app, TerminalKey { code: TerminalKeyCode::Char('x'), control: false, alt: true, shift: false, super_key: false });
    assert!(app.should_quit);
}

#[test]
fn meta_x_quits_tui() {
    check_meta_x();
}

#[test]
fn lib_meta_x_quits_tui() {
    check_meta_x();
}

#[test]
fn tui_meta_x_quits_tui() {
    check_meta_x();
}

fn check_escape_then_x() {
    let mut app = App::new("diag.log");

    press(&mut app, key(TerminalKeyCode::Esc));
    assert!(!app.should_quit);
    assert!(app.exit_escape_pending);

    press(&mut app, key(TerminalKeyCode::Char('x')));

    assert!(app.should_quit);
}

#[test]
fn escape_then_x_quits_tui() {
    check_escape_then_x();
}

#[test]
fn lib_escape_then_x_quits_tui() {
    check_escape_then_x();
}

#[test]
fn tui_escape_then_x_quits_tui() {
    check_escape_then_x();
}

fn check_escape_timeout() {
    let mut app = App::new("diag.log");
    app.input = "help".to_string();
    app.exit_escape_pending = true;

    app.handle_exit_escape_timeout(false).expect("escape was held back");

    assert!(app.input.is_empty());
    assert!(!app.exit_escape_pending);
}

#[test]
fn escape_timeout_clears_line_input() {
    check_escape_timeout();
}

#[test]
fn lib_escape_timeout_clears_line_input() {
    check_escape_timeout();
}

#[test]
fn tui_escape_timeout_clears_line_input() {
    check_escape_timeout();
}

#[test]
fn line_input_is_sent_on_enter_when_connected() {
    let mut app = App::new("diag.log");
    app.filter = Some(1);
    app.manifest = Some(line_manifest(1));
    for c in "hi".chars() {
        assert!(app.handle_key(key(TerminalKeyCode::Char(c)), false, false, false, true).is_empty());
    }
    assert_eq!(app.input, "hi");
    let actions = app.handle_key(key(TerminalKeyCode::Enter), false, false, false, true);
    assert_eq!(actions, vec![TuiAction::SendLine { channel: 1, payload: b"hi".to_vec() }]);
    assert_eq!(app.status, "sent 2 bytes to ch1");
    assert!(app.input.is_empty());

    app.input = "x".to_string();
    assert!(app.handle_key(key(TerminalKeyCode::Enter), false, false, false, false).is_empty());
    assert_eq!(app.status, "not connected; input not sent");
}

#[test]
fn prefix_keys_choose_filters_and_settings() {
    let mut app = App::new("diag.log");
    let ctrl_b = TerminalKey { code: TerminalKeyCode::Char('b'), control: true, alt: false, shift: false, super_key: false };
    press(&mut app, ctrl_b);
    assert!(app.prefix_pending);
    press(&mut app, key(TerminalKeyCode::Char('3')));
    assert_eq!(app.filter, Some(3));
    assert_eq!(app.status, "filter: ch3");
    press(&mut app, ctrl_b);
    press(&mut app, key(TerminalKeyCode::Char('0')));
    assert_eq!(app.filter, None);
    assert_eq!(app.status, "filter: all");
    press(&mut app, ctrl_b);
    assert_eq!(press(&mut app, key(TerminalKeyCode::Char('s'))), vec![TuiAction::OpenSettings]);
    assert_eq!(app.handle_key(key(TerminalKeyCode::Char('q')), true, false, false, false), vec![TuiAction::ForwardToSettings]);
    assert_eq!(app.handle_key(key(TerminalKeyCode::Enter), false, true, true, false), vec![TuiAction::CopySelection]);
    let ctrl_c = TerminalKey { code: TerminalKeyCode::Char('c'), control: true, alt: false, shift: false, super_key: false };
    press(&mut app, ctrl_c);
    assert!(app.should_quit);
}

#[test]
fn passthrough_key_is_sent_with_escape_held_back() {
    let mut app = App::new("diag.log");
    app.filter = Some(1);
    app.manifest = Some(passthrough_manifest(1));
    assert!(app.handle_key(key(TerminalKeyCode::Esc), false, false, false, true).is_empty());
    let actions = app.handle_key(key(TerminalKeyCode::Char('a')), false, false, false, true);
    assert_eq!(
        actions,
        vec![
            TuiAction::SendPassthrough { channel: 1, payload: vec![0x1b] },
            TuiAction::SendPassthrough { channel: 1, payload: b"a".to_vec() },
        ]
    );
    assert_eq!(app.status, "passthrough sent 1 bytes to ch1");
}

#[test]
fn stream_events_update_log_and_diagnostics() {
    let mut app = App::new("diag.log");
    let mut diagnostics = String::new();
    app.handle_stream_event(&mut diagnostics, HostEvent::Terminal(b"boot\n".to_vec()));
    app.handle_stream_event(&mut diagnostics, HostEvent::Manifest(line_manifest(1)));
    app.handle_stream_event(
        &mut diagnostics,
        HostEvent::BatchSummary(BatchSummary { compression: 1, encoded_bytes: 2, raw_bytes: 3, record_count: 4 }),
    );
    app.handle_stream_event(
        &mut diagnostics,
        HostEvent::CrcError(HostCrcError { version: 1, flags: 0, payload_len: 5, expected_crc: 0xab, actual_crc: 0xcd }),
    );
    assert_eq!(app.lines[0].text, "boot");
    assert_eq!(app.lines[1].text, "wiremux> manifest received: 1 channels");
    assert_eq!(app.lines[2].text, "wiremux> crc error; details in diagnostics");
    assert!(app.manifest.is_some());
    assert!(diagnostics.contains("[wiremux] batch records=4 compression=1 encoded_bytes=2 raw_bytes=3"));
    assert!(diagnostics.contains("expected=0x000000ab actual=0x000000cd"));
    assert_eq!(app.manifest_label(), "- - api=2 channels=1 max_payload=512");
}

#[test]
fn push_line_splits_at_each_line_break_and_keeps_the_newest_lines() {
    let mut app = App::new("diag.log");
    app.push_line(Some(2), "a\r\nb\npartial");
    let texts: Vec<_> = app.lines.iter().map(|l| (l.text.as_str(), l.complete)).collect();
    assert_eq!(texts, vec![("a", true), ("", true), ("b", true), ("partial", false)]);
    for i in 0..1100 {
        app.push_line(None, &format!("{i}\n"));
    }
    assert_eq!(app.lines.len(), 1000);
    assert_eq!(app.lines[999].text, "1099");
}
