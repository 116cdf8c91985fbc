use wiremux::interactive::{TerminalKey, TerminalKeyCode};
use wiremux::tui::OutputArea;
use wiremux::tui_state::{App, TuiAction, WHEEL_SCROLL_LINES};
use wiremux::tui_view::{
    append_continuation_rows, append_output_rows, burst_steps, flush_wheel_run, handle_mouse_with_areas,
    line_input_cursor, normalized_selection, output_render_model, passthrough_cursor, request_copy_selection,
    selected_text_from_rows, selection_range_for_row, status_rows, BurstStep, MouseInput, MouseKind,
    RenderOutputRow, SelectionPane, SelectionPosition, SelectionState, TerminalInput, TextSelection,
    WheelDirection, advance_selection_auto_scroll,
};

fn output_area_for_content(width: u16, height: u16) -> OutputArea {
    OutputArea::new(0, 0, width.saturating_add(2), height.saturating_add(2))
}

fn app_with_lines(line_count: usize) -> App {
    let mut app = App::new("diag.log");
    for index in 0..line_count {
        app.push_line(None, &format!("line {index}\n"));
    }
    app
}

fn mouse(kind: MouseKind, column: u16, row: u16) -> MouseInput {
    MouseInput { kind, column, row }
}

fn no_status() -> OutputArea {
    OutputArea::new(0, 0, 0, 0)
}

fn handle_mouse(app: &mut App, sel: &mut SelectionState, output_area: OutputArea, event: MouseInput) {
    handle_mouse_with_areas(app, sel, output_area, no_status(), &[], event);
}

/// Runs a burst of terminal events the way the program does: wheel runs
/// scroll, keys go to the key handler, and a quit stops the burst.
fn handle_terminal_events(app: &mut App, sel: &mut SelectionState, output_area: OutputArea, events: Vec<TerminalInput>) {
    for step in burst_steps(&events) {
        match step {
            BurstStep::Wheel(direction, count) => flush_wheel_run(app, output_area, Some(direction), count),
            BurstStep::Mouse(event) => handle_mouse(app, sel, output_area, event),
            BurstStep::Key(key) => {
                let _ = app.handle_key(key, false, sel.has_selection(), sel.selection.is_some(), false);
                if app.should_quit {
                    return;
                }
            },
        }
    }
}

#[test]
fn wheel_burst_down_to_tail_then_up_uses_latest_direction() {
    let mut app = app_with_lines(10);
    let mut sel = SelectionState::new();
    let output_area = output_area_for_content(38, 4);
    app.scroll_offset = 2;

    handle_terminal_events(
        &mut app,
        &mut sel,
        output_area,
        vec![
            TerminalInput::Mouse(mouse(MouseKind::ScrollDown, 0, 0)),
            TerminalInput::Mouse(mouse(MouseKind::ScrollDown, 0, 0)),
            TerminalInput::Mouse(mouse(MouseKind::ScrollDown, 0, 0)),
            TerminalInput::Mouse(mouse(MouseKind::ScrollUp, 0, 0)),
        ],
    );

    assert_eq!(app.scroll_offset, WHEEL_SCROLL_LINES);
    assert_eq!(app.status, "scrollback paused: 1 lines from bottom");
}

#[test]
fn wheel_burst_does_not_delay_quit_key_after_tail_follow() {
    let mut app = app_with_lines(10);
    let mut sel = SelectionState::new();
    let output_area = output_area_for_content(38, 4);
    app.scroll_offset = 2;
    let mut events = Vec::new();
    for _ in 0..100 {
        events.push(TerminalInput::Mouse(mouse(MouseKind::ScrollDown, 0, 0)));
    }
    events.push(TerminalInput::Key(TerminalKey {
        code: TerminalKeyCode::Char('c'),
        control: true,
        alt: false,
        shift: false,
        super_key: false,
    }));

    handle_terminal_events(&mut app, &mut sel, output_area, events);

    assert_eq!(app.scroll_offset, 0);
    assert!(app.should_quit);
}

#[test]
fn burst_steps_group_wheel_runs() {
    let up = TerminalInput::Mouse(mouse(MouseKind::ScrollUp, 0, 0));
    let down = TerminalInput::Mouse(mouse(MouseKind::ScrollDown, 0, 0));
    let click = mouse(MouseKind::LeftDown, 3, 4);
    let key = TerminalKey { code: TerminalKeyCode::Enter, control: false, alt: false, shift: false, super_key: false };
    assert_eq!(
        burst_steps(&[down, down, up, TerminalInput::Mouse(click), up, TerminalInput::Other, TerminalInput::Key(key), down]),
        vec![
            BurstStep::Wheel(WheelDirection::Down, 2),
            BurstStep::Wheel(WheelDirection::Up, 1),
            BurstStep::Mouse(click),
            BurstStep::Wheel(WheelDirection::Up, 1),
            BurstStep::Key(key),
            BurstStep::Wheel(WheelDirection::Down, 1),
        ]
    );
    assert!(burst_steps(&[]).is_empty());
}

#[test]
fn scrollbar_drag_animates_toward_target_until_mouse_release() {
    let mut app = app_with_lines(30);
    let mut sel = SelectionState::new();
    let output_area = OutputArea::new(0, 0, 40, 12);

    handle_mouse(&mut app, &mut sel, output_area, mouse(MouseKind::LeftDown, 39, 1));
    assert!(app.dragging_scrollbar);
    assert_eq!(app.scroll_offset, 0);
    assert_eq!(app.scroll_target_offset, Some(20));

    assert!(app.advance_scroll_animation());
    assert!(app.scroll_offset > 0);
    assert!(app.scroll_offset < 20);

    handle_mouse(&mut app, &mut sel, output_area, mouse(MouseKind::LeftDrag, 20, 10));
    assert_eq!(app.scroll_target_offset, Some(0));

    while app.advance_scroll_animation() {}
    assert_eq!(app.scroll_offset, 0);

    handle_mouse(&mut app, &mut sel, output_area, mouse(MouseKind::LeftUp, 39, 10));
    assert!(!app.dragging_scrollbar);
}

#[test]
fn scrollbar_buttons_jump_without_animation_and_down_follows_appends() {
    let mut app = app_with_lines(30);
    let mut sel = SelectionState::new();
    let output_area = OutputArea::new(0, 0, 40, 12);
    let scrollbar_column = output_area.x + output_area.width - 1;
    let scrollbar_bottom_row = output_area.y + output_area.height - 1;

    handle_mouse(&mut app, &mut sel, output_area, mouse(MouseKind::LeftDown, scrollbar_column, output_area.y));
    assert_eq!(app.scroll_offset, 20);
    assert_eq!(app.scroll_target_offset, None);
    assert!(!app.dragging_scrollbar);
    assert_eq!(app.status, "scrollback paused: 20 lines from bottom");

    handle_mouse(&mut app, &mut sel, output_area, mouse(MouseKind::LeftDown, scrollbar_column, scrollbar_bottom_row));
    assert_eq!(app.scroll_offset, 0);
    assert_eq!(app.scroll_target_offset, None);
    assert!(!app.dragging_scrollbar);
    assert_eq!(app.status, "scrollback: following live output");

    app.push_line(None, "line 30\n");
    assert_eq!(app.scroll_offset, 0);
    assert_eq!(app.scroll_target_offset, None);
}

#[test]
fn output_mouse_selection_highlights_and_copies_visible_text() {
    let mut app = app_with_lines(2);
    let mut sel = SelectionState::new();
    // The output pane of an 80x12 screen: the rows above the status and
    // input panes.
    let output_area = OutputArea::new(0, 0, 80, 5);

    handle_mouse(&mut app, &mut sel, output_area, mouse(MouseKind::LeftDown, output_area.x + 1, output_area.y + 1));
    handle_mouse(&mut app, &mut sel, output_area, mouse(MouseKind::LeftDrag, output_area.x + 5, output_area.y + 1));
    handle_mouse(&mut app, &mut sel, output_area, mouse(MouseKind::LeftUp, output_area.x + 5, output_area.y + 1));

    assert!(sel.has_selection());
    request_copy_selection(&mut app, &mut sel, output_area, &[]);
    assert_eq!(sel.pending_clipboard.as_deref(), Some("line"));
    assert_eq!(app.status, "copy: selected 4 chars");

    // The selected cells are the first four of the first row.
    let selection = sel.selection.unwrap();
    assert_eq!(selection_range_for_row(Some(&selection), SelectionPane::Output, 0, 6), Some((0, 4)));
    assert_eq!(selection_range_for_row(Some(&selection), SelectionPane::Output, 1, 6), None);
}

#[test]
fn status_mouse_selection_copies_status_text() {
    let mut app = App::new("diag.log");
    let mut sel = SelectionState::new();
    let output_area = OutputArea::new(0, 0, 80, 5);
    let status_area = OutputArea::new(0, 5, 80, 4);
    let status = status_rows(&app, "compat", 60, None, "/dev/tty.usbmodem2101");

    handle_mouse_with_areas(&mut app, &mut sel, output_area, status_area, &status, mouse(MouseKind::LeftDown, status_area.x + 1, status_area.y + 1));
    handle_mouse_with_areas(&mut app, &mut sel, output_area, status_area, &status, mouse(MouseKind::LeftDrag, status_area.x + 7, status_area.y + 1));
    handle_mouse_with_areas(&mut app, &mut sel, output_area, status_area, &status, mouse(MouseKind::LeftUp, status_area.x + 7, status_area.y + 1));

    request_copy_selection(&mut app, &mut sel, output_area, &status);

    assert_eq!(sel.pending_clipboard.as_deref(), Some("filter"));
}

#[test]
fn selection_edge_drag_scrolls_output_up_and_down() {
    let mut app = app_with_lines(30);
    let mut sel = SelectionState::new();
    let output_area = OutputArea::new(0, 0, 40, 8);

    handle_mouse(&mut app, &mut sel, output_area, mouse(MouseKind::LeftDown, output_area.x + 1, output_area.y + 2));
    handle_mouse(&mut app, &mut sel, output_area, mouse(MouseKind::LeftDrag, output_area.x + 1, output_area.y + 1));
    assert_eq!(app.scroll_offset, 1);

    handle_mouse(
        &mut app,
        &mut sel,
        output_area,
        mouse(MouseKind::LeftDrag, output_area.x + 1, output_area.y + output_area.height - 2),
    );
    assert_eq!(app.scroll_offset, 0);
}

#[test]
fn selection_auto_scroll_continues_without_more_mouse_events() {
    let mut app = app_with_lines(30);
    let mut sel = SelectionState::new();
    let output_area = OutputArea::new(0, 0, 40, 8);

    handle_mouse(&mut app, &mut sel, output_area, mouse(MouseKind::LeftDown, output_area.x + 1, output_area.y + 2));
    handle_mouse(&mut app, &mut sel, output_area, mouse(MouseKind::LeftDrag, output_area.x + 1, output_area.y + 1));
    let first_offset = app.scroll_offset;
    let first_cursor = sel.selection.as_ref().expect("selection").cursor.row;

    assert!(advance_selection_auto_scroll(&mut app, &mut sel, output_area));

    assert!(app.scroll_offset > first_offset);
    assert!(sel.selection.as_ref().expect("selection").cursor.row < first_cursor);
}

#[test]
fn escape_clears_selection_before_exit_prefix() {
    let mut app = app_with_lines(2);
    let mut sel = SelectionState::new();
    sel.selection = Some(TextSelection {
        pane: SelectionPane::Output,
        anchor: SelectionPosition { row: 0, col: 0 },
        cursor: SelectionPosition { row: 0, col: 4 },
        active: false,
    });

    let actions = app.handle_key(
        TerminalKey { code: TerminalKeyCode::Esc, control: false, alt: false, shift: false, super_key: false },
        false,
        sel.has_selection(),
        sel.selection.is_some(),
        false,
    );
    assert_eq!(actions, vec![TuiAction::ClearSelection]);
    sel.clear_selection();

    assert!(sel.selection.is_none());
    assert!(!app.exit_escape_pending);
}

#[test]
fn copy_key_writes_pending_clipboard_without_clearing_selection() {
    let mut app = app_with_lines(2);
    let mut sel = SelectionState::new();
    let output_area = output_area_for_content(38, 4);
    sel.selection = Some(TextSelection {
        pane: SelectionPane::Output,
        anchor: SelectionPosition { row: 0, col: 0 },
        cursor: SelectionPosition { row: 0, col: 4 },
        active: false,
    });

    let actions = app.handle_key(
        TerminalKey { code: TerminalKeyCode::Char('C'), control: true, alt: false, shift: true, super_key: false },
        false,
        sel.has_selection(),
        sel.selection.is_some(),
        false,
    );
    assert_eq!(actions, vec![TuiAction::CopySelection]);
    request_copy_selection(&mut app, &mut sel, output_area, &[]);

    assert_eq!(sel.pending_clipboard.as_deref(), Some("line"));
    assert!(sel.selection.is_some());
}

#[test]
fn continuation_rows_wrap_at_width() {
    let mut rows = Vec::new();
    append_continuation_rows(&mut rows, Some(1), "abcdefg", 3);
    let texts: Vec<&str> = rows.iter().map(|r| r.text.as_str()).collect();
    assert_eq!(texts, vec!["abc", "def", "g"]);
    assert!(rows.iter().all(|r| r.prefix.is_none() && r.channel == Some(1)));

    let mut rows = Vec::new();
    append_continuation_rows(&mut rows, None, "", 3);
    assert_eq!(rows, vec![RenderOutputRow { channel: None, prefix: None, text: String::new() }]);
}

#[test]
fn output_rows_put_prefix_on_first_row() {
    let mut rows = Vec::new();
    append_output_rows(&mut rows, Some(2), Some("ch2> ".to_string()), "hello world", 8);
    assert_eq!(
        rows,
        vec![
            RenderOutputRow { channel: Some(2), prefix: Some("ch2> ".to_string()), text: "hel".to_string() },
            RenderOutputRow { channel: Some(2), prefix: None, text: "lo world".to_string() },
        ]
    );
    let mut rows = Vec::new();
    append_output_rows(&mut rows, Some(2), Some("ch2> ".to_string()), "hi", 4);
    assert_eq!(rows.len(), 2);
    assert_eq!(rows[0].text, "");
    assert_eq!(rows[1].text, "hi");
}

#[test]
fn render_model_counts_the_rows_scrolling_uses() {
    let app = app_with_lines(30);
    let area = OutputArea::new(0, 0, 40, 12);
    let model = output_render_model(&app, area);
    assert_eq!(model.rows.len(), app.filtered_visual_row_count(38));
    assert_eq!((model.visible_start, model.visible_end), (20, 30));
    assert_eq!(model.content_height, 10);
}

#[test]
fn selection_text_spans_rows() {
    let selection = TextSelection {
        pane: SelectionPane::Output,
        anchor: SelectionPosition { row: 1, col: 2 },
        cursor: SelectionPosition { row: 0, col: 3 },
        active: true,
    };
    assert_eq!(
        normalized_selection(&selection),
        Some((SelectionPosition { row: 0, col: 3 }, SelectionPosition { row: 1, col: 2 }))
    );
    let texts = vec!["abcdef".to_string(), "ghijkl".to_string()];
    assert_eq!(selected_text_from_rows(&selection, &texts), "def\ngh");
    let empty = TextSelection { cursor: selection.anchor, ..selection };
    assert_eq!(selected_text_from_rows(&empty, &texts), "");
}

#[test]
fn cursors_follow_prompt_and_passthrough_rows() {
    let area = OutputArea::new(0, 9, 80, 3);
    assert_eq!(line_input_cursor(area, "help"), Some((7, 10)));
    assert_eq!(line_input_cursor(OutputArea::new(0, 0, 2, 3), "help"), None);

    let rows = vec![
        RenderOutputRow { channel: Some(1), prefix: Some("ch1(console)> ".to_string()), text: "hel".to_string() },
        RenderOutputRow { channel: None, prefix: None, text: "other".to_string() },
    ];
    let output = OutputArea::new(0, 0, 80, 10);
    assert_eq!(passthrough_cursor(output, &rows, 1), Some((18, 1)));
    assert_eq!(passthrough_cursor(output, &rows, 2), Some((1, 1)));
}

#[test]
fn ctrl_shift_c_without_selection_does_not_quit() {
    let mut app = App::new("diag.log");
    let mut sel = SelectionState::new();

    let actions = app.handle_key(
        TerminalKey { code: TerminalKeyCode::Char('c'), control: true, alt: false, shift: true, super_key: false },
        false,
        sel.has_selection(),
        sel.selection.is_some(),
        false,
    );
    if actions.contains(&TuiAction::CopySelection) {
        request_copy_selection(&mut app, &mut sel, output_area_for_content(38, 4), &[]);
    }

    assert!(!app.should_quit);
    assert!(sel.pending_clipboard.is_none());
}
