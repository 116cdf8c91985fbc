use wiremux::envelope::{MuxEnvelope, DIRECTION_INPUT};
use wiremux::manifest::{ChannelDescriptor, DeviceManifest, CHANNEL_INTERACTION_PASSTHROUGH};
use wiremux::tui::OutputArea;
use wiremux::tui_state::{App, InputState};
use wiremux::tui_view::{line_input_cursor, output_render_model, passthrough_cursor, row_text};

// The screen is split as the program splits it: the output pane takes what
// the status pane (4 rows) and the input pane (3 rows) leave.
fn output_pane(width: u16, height: u16) -> OutputArea {
    OutputArea::new(0, 0, width, height - 7)
}

fn input_pane(width: u16, height: u16) -> OutputArea {
    OutputArea::new(0, height - 3, width, 3)
}

fn manifest(channel_id: u32, interaction_modes: Vec<u32>, default_interaction_mode: u32) -> DeviceManifest {
    DeviceManifest {
        device_name: String::new(),
        firmware_version: String::new(),
        protocol_version: 2,
        max_channels: 8,
        channels: vec![ChannelDescriptor {
            channel_id,
            name: "console".to_string(),
            description: String::new(),
            directions: vec![DIRECTION_INPUT],
            payload_kinds: Vec::new(),
            payload_types: Vec::new(),
            flags: 0,
            default_payload_kind: 0,
            interaction_modes,
            default_interaction_mode,
            passthrough_policy: Default::default(),
        }],
        native_endianness: 0,
        max_payload_len: 512,
        transport: String::new(),
        feature_flags: 0,
        sdk_name: String::new(),
        sdk_version: String::new(),
    }
}

fn passthrough_app() -> App {
    let mut app = App::new("diag.log");
    app.filter = Some(1);
    app.manifest = Some(manifest(1, vec![CHANNEL_INTERACTION_PASSTHROUGH], CHANNEL_INTERACTION_PASSTHROUGH));
    app
}

fn record(sequence: u32, payload: &[u8]) -> MuxEnvelope {
    MuxEnvelope {
        channel_id: 1,
        direction: 2,
        sequence,
        timestamp_us: 0,
        kind: 1,
        payload_type: String::new(),
        payload: payload.to_vec(),
        flags: 0,
    }
}

/// The text of the visible output rows, top first, and the cursor.
fn draw(app: &App, area: OutputArea) -> (Vec<String>, Option<(u16, u16)>) {
    let model = output_render_model(app, area);
    let visible = &model.rows[model.visible_start..model.visible_end];
    let texts = visible.iter().map(row_text).collect();
    (texts, passthrough_cursor(area, visible, 1))
}

const PROMPT: &str = "ch1(console)> ";

#[test]
fn lib_render_sets_input_cursor_after_prompt_and_text() {
    let mut app = App::new("diag.log");
    app.filter = Some(1);
    app.manifest = Some(manifest(1, Vec::new(), 0));
    app.input = "help".to_string();
    let input_area = input_pane(80, 12);

    assert_eq!(app.active_input_state(), InputState::Line(1));
    assert_eq!(line_input_cursor(input_area, &app.input), Some((input_area.x + 7, input_area.y + 1)));
}

#[test]
fn lib_render_keeps_passthrough_prompt_for_empty_stream_line() {
    let mut app = passthrough_app();
    app.push_record(&record(1, b"\r\n"));

    let (rows, _) = draw(&app, output_pane(80, 10));

    assert!(rows[0].contains("ch1(console)>"));
}

#[test]
fn lib_render_sets_passthrough_cursor_in_output_pane_after_echo() {
    let mut app = passthrough_app();
    app.push_record(&record(1, b"hel"));
    let output_area = output_pane(80, 12);

    let (_, cursor) = draw(&app, output_area);

    assert_eq!(cursor, Some((output_area.x + 1 + PROMPT.len() as u16 + 3, output_area.y + 1)));
}

#[test]
fn lib_render_appends_virtual_passthrough_prompt_after_completed_output() {
    let mut app = passthrough_app();
    app.push_record(&record(1, b"available commands\n"));
    let output_area = output_pane(80, 12);

    let (rows, cursor) = draw(&app, output_area);

    assert!(rows[1].contains(PROMPT));
    assert_eq!(cursor, Some((output_area.x + 1 + PROMPT.len() as u16, output_area.y + 2)));
}

#[test]
fn lib_render_sets_passthrough_cursor_after_wrapped_completed_output() {
    let mut app = passthrough_app();
    let response = "available commands: help hello mux_log";
    app.push_record(&record(1, format!("{response}\n").as_bytes()));
    let output_area = output_pane(34, 12);
    let content_width = (output_area.width - 2) as usize;
    let wrapped_response_height = (PROMPT.len() + response.len()).div_ceil(content_width) as u16;

    let (rows, cursor) = draw(&app, output_area);

    assert_eq!(wrapped_response_height, 2);
    assert!(rows[wrapped_response_height as usize].contains(PROMPT));
    assert_eq!(
        cursor,
        Some((output_area.x + 1 + PROMPT.len() as u16, output_area.y + 1 + wrapped_response_height))
    );
}

#[test]
fn lib_render_sets_passthrough_cursor_after_wrapped_output_and_echo() {
    let mut app = passthrough_app();
    let response = "available commands: help hello mux_log";
    app.push_record(&record(1, format!("{response}\n").as_bytes()));
    app.push_record(&record(2, b"hel"));
    let output_area = output_pane(34, 12);
    let content_width = (output_area.width - 2) as usize;
    let wrapped_response_height = (PROMPT.len() + response.len()).div_ceil(content_width) as u16;

    let (rows, cursor) = draw(&app, output_area);

    assert!(rows[wrapped_response_height as usize].contains("ch1(console)> hel"));
    assert_eq!(
        cursor,
        Some((output_area.x + 1 + PROMPT.len() as u16 + 3, output_area.y + 1 + wrapped_response_height))
    );
}

#[test]
fn lib_render_keeps_passthrough_cursor_inside_output_after_wrapped_scrollback() {
    let mut app = passthrough_app();
    for sequence in 0..6 {
        app.push_record(&record(
            sequence,
            b"available commands: help hello mux_manifest mux_console_mode mux_hello mux_log mux_utf8 mux_stress mux_diag\n",
        ));
    }
    let output_area = output_pane(34, 12);

    let (_, cursor) = draw(&app, output_area);
    let (x, y) = cursor.expect("cursor position");

    assert!(app.max_scroll_offset(output_area) > 0);
    assert!(y > output_area.y);
    assert!(y < output_area.y + output_area.height - 1);
    assert!(x > output_area.x);
    assert!(x < output_area.x + output_area.width - 1);
}

#[test]
fn lib_render_appends_virtual_passthrough_prompt_after_empty_enter() {
    let mut app = passthrough_app();
    app.push_record(&record(1, b"\r\n"));
    let output_area = output_pane(80, 12);

    let (rows, cursor) = draw(&app, output_area);

    assert!(rows[0].contains(PROMPT));
    assert!(rows[1].contains(PROMPT));
    assert_eq!(cursor, Some((output_area.x + 1 + PROMPT.len() as u16, output_area.y + 2)));
}
