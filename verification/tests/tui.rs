use wiremux::tui::{
    base64_encode, main_layout, empty_as_dash, max_scroll_offset, output_title, resolve_tui_fps,
    scrollbar_mouse_target, scrollbar_offset_from_drag_row, scrollbar_offset_from_mouse,
    scrollbar_position, visible_window, wrapped_visual_height, write_osc52_copy, OutputArea,
    ScrollbarMouseTarget,
};

#[test]
fn visible_window_follows_tail_when_offset_is_zero() {
    assert_eq!(visible_window(10, 4, 0), (6, 10));
}

#[test]
fn visible_window_moves_back_by_scroll_offset() {
    assert_eq!(visible_window(10, 4, 3), (3, 7));
}

#[test]
fn visible_window_clamps_to_oldest_lines() {
    assert_eq!(visible_window(10, 4, 50), (0, 4));
}

#[test]
fn visible_window_handles_empty_or_zero_height() {
    assert_eq!(visible_window(0, 4, 0), (0, 0));
    assert_eq!(visible_window(10, 0, 0), (0, 0));
}

#[test]
fn scrollbar_position_reaches_last_position_at_tail() {
    assert_eq!(scrollbar_position(24, 4, 0), 20);
    assert_eq!(scrollbar_position(24, 4, 11), 9);
    assert_eq!(scrollbar_position(24, 4, 20), 0);
    assert_eq!(scrollbar_position(24, 4, 50), 0);
}

#[test]
fn scrollbar_mouse_maps_top_middle_and_bottom_to_offsets() {
    let output_area = OutputArea::new(0, 0, 40, 12);

    assert_eq!(scrollbar_offset_from_mouse(output_area, 30, 10, 39, 1), Some(20));
    assert_eq!(scrollbar_offset_from_mouse(output_area, 30, 10, 39, 10), Some(0));
    assert_eq!(scrollbar_offset_from_mouse(output_area, 30, 10, 39, 5), Some(11));
}

#[test]
fn scrollbar_mouse_maps_buttons_to_extreme_offsets() {
    let output_area = OutputArea::new(0, 0, 40, 12);

    assert_eq!(scrollbar_offset_from_mouse(output_area, 30, 10, 39, 0), Some(20));
    assert_eq!(scrollbar_offset_from_mouse(output_area, 30, 10, 39, 11), Some(0));
    assert_eq!(
        scrollbar_mouse_target(output_area, 30, 10, 39, 0),
        Some(ScrollbarMouseTarget::UpButton)
    );
    assert_eq!(
        scrollbar_mouse_target(output_area, 30, 10, 39, 11),
        Some(ScrollbarMouseTarget::DownButton)
    );
}

#[test]
fn scrollbar_mouse_ignores_non_scrollbar_cells() {
    let output_area = OutputArea::new(0, 0, 40, 12);

    assert_eq!(scrollbar_offset_from_mouse(output_area, 30, 10, 38, 1), None);
    assert_eq!(scrollbar_offset_from_mouse(output_area, 30, 10, 39, 12), None);
}

#[test]
fn scrollbar_drag_row_clamps_outside_output_area() {
    let output_area = OutputArea::new(0, 10, 40, 12);

    assert_eq!(scrollbar_offset_from_drag_row(output_area, 30, 10, 0), 20);
    assert_eq!(scrollbar_offset_from_drag_row(output_area, 30, 10, 99), 0);
}

#[test]
fn scroll_limits_and_titles() {
    assert_eq!(max_scroll_offset(24, 4), 20);
    assert_eq!(max_scroll_offset(3, 4), 0);
    assert_eq!(max_scroll_offset(24, 0), 0);
    assert_eq!(output_title(0), "wiremux");
    assert_eq!(output_title(12), "wiremux - scrollback +12");
    assert_eq!(empty_as_dash(""), "-");
    assert_eq!(empty_as_dash("abc"), "abc");
}

#[test]
fn wrapped_lines_take_ceiling_rows() {
    assert_eq!(wrapped_visual_height(0, 10), 1);
    assert_eq!(wrapped_visual_height(10, 10), 1);
    assert_eq!(wrapped_visual_height(11, 10), 2);
    assert_eq!(wrapped_visual_height(5, 0), 0);
    assert_eq!(wrapped_visual_height(usize::MAX, 1), usize::MAX);
}

#[test]
fn tui_fps_prefers_override_then_ghostty() {
    assert_eq!(resolve_tui_fps(Some(30), Some("xterm-ghostty"), None), 30);
    assert_eq!(resolve_tui_fps(None, Some("xterm-ghostty"), None), 120);
    assert_eq!(resolve_tui_fps(None, Some("xterm"), Some("GhosTTY")), 120);
    assert_eq!(resolve_tui_fps(None, Some("xterm-256color"), Some("iTerm.app")), 60);
    assert_eq!(resolve_tui_fps(None, None, None), 60);
}

#[test]
fn base64_encode_handles_padding() {
    assert_eq!(base64_encode(b""), "");
    assert_eq!(base64_encode(b"f"), "Zg==");
    assert_eq!(base64_encode(b"fo"), "Zm8=");
    assert_eq!(base64_encode(b"foo"), "Zm9v");
}

#[test]
fn base64_encode_uses_full_alphabet() {
    assert_eq!(base64_encode(b"foobar"), "Zm9vYmFy");
    assert_eq!(base64_encode(&[0xfb, 0xff, 0xbf]), "+/+/");
    assert_eq!(base64_encode(&[0x00, 0x10, 0x83]), "ABCD");
}

#[test]
fn write_osc52_copy_emits_clipboard_sequence() {
    let mut output = Vec::new();

    write_osc52_copy(&mut output, "line");

    assert_eq!(String::from_utf8(output).expect("utf8"), "\x1b]52;c;bGluZQ==\x07");
}

// The same scroll arithmetic as the terminal interface crate checks it.

#[test]
fn lib_visible_window_follows_tail_when_offset_is_zero() {
    assert_eq!(visible_window(10, 4, 0), (6, 10));
}

#[test]
fn lib_visible_window_moves_back_by_scroll_offset() {
    assert_eq!(visible_window(10, 4, 3), (3, 7));
}

#[test]
fn lib_visible_window_clamps_to_oldest_lines() {
    assert_eq!(visible_window(10, 4, 50), (0, 4));
}

#[test]
fn lib_visible_window_handles_empty_or_zero_height() {
    assert_eq!(visible_window(0, 4, 0), (0, 0));
    assert_eq!(visible_window(10, 0, 0), (0, 0));
}

#[test]
fn lib_scrollbar_position_reaches_last_position_at_tail() {
    assert_eq!(scrollbar_position(24, 4, 0), 20);
    assert_eq!(scrollbar_position(24, 4, 11), 9);
    assert_eq!(scrollbar_position(24, 4, 20), 0);
    assert_eq!(scrollbar_position(24, 4, 50), 0);
}

#[test]
fn tui_visible_window_follows_tail_when_offset_is_zero() {
    assert_eq!(visible_window(10, 4, 0), (6, 10));
}

#[test]
fn tui_visible_window_moves_back_by_scroll_offset() {
    assert_eq!(visible_window(10, 4, 3), (3, 7));
}

#[test]
fn tui_visible_window_clamps_to_oldest_lines() {
    assert_eq!(visible_window(10, 4, 50), (0, 4));
}

#[test]
fn tui_visible_window_handles_empty_or_zero_height() {
    assert_eq!(visible_window(0, 4, 0), (0, 0));
    assert_eq!(visible_window(10, 0, 0), (0, 0));
}

#[test]
fn tui_scrollbar_mouse_maps_top_middle_and_bottom_to_offsets() {
    let output_area = OutputArea::new(0, 0, 40, 12);

    assert_eq!(scrollbar_offset_from_mouse(output_area, 30, 10, 39, 1), Some(20));
    assert_eq!(scrollbar_offset_from_mouse(output_area, 30, 10, 39, 10), Some(0));
    assert_eq!(scrollbar_offset_from_mouse(output_area, 30, 10, 39, 5), Some(11));
}

#[test]
fn lib_scrollbar_mouse_maps_top_middle_and_bottom_to_offsets() {
    let output_area = OutputArea::new(0, 0, 40, 12);

    assert_eq!(scrollbar_offset_from_mouse(output_area, 30, 10, 39, 1), Some(20));
    assert_eq!(scrollbar_offset_from_mouse(output_area, 30, 10, 39, 10), Some(0));
    assert_eq!(scrollbar_offset_from_mouse(output_area, 30, 10, 39, 5), Some(11));
}

#[test]
fn tui_scrollbar_mouse_ignores_non_scrollbar_cells() {
    let output_area = OutputArea::new(0, 0, 40, 12);

    assert_eq!(scrollbar_offset_from_mouse(output_area, 30, 10, 38, 1), None);
    assert_eq!(scrollbar_offset_from_mouse(output_area, 30, 10, 39, 12), None);
}

#[test]
fn lib_scrollbar_mouse_ignores_non_scrollbar_cells() {
    let output_area = OutputArea::new(0, 0, 40, 12);

    assert_eq!(scrollbar_offset_from_mouse(output_area, 30, 10, 38, 1), None);
    assert_eq!(scrollbar_offset_from_mouse(output_area, 30, 10, 39, 12), None);
}

#[test]
fn tui_scrollbar_drag_row_clamps_outside_output_area() {
    let output_area = OutputArea::new(0, 10, 40, 12);

    assert_eq!(scrollbar_offset_from_drag_row(output_area, 30, 10, 0), 20);
    assert_eq!(scrollbar_offset_from_drag_row(output_area, 30, 10, 99), 0);
}

#[test]
fn lib_scrollbar_drag_row_clamps_outside_output_area() {
    let output_area = OutputArea::new(0, 10, 40, 12);

    assert_eq!(scrollbar_offset_from_drag_row(output_area, 30, 10, 0), 20);
    assert_eq!(scrollbar_offset_from_drag_row(output_area, 30, 10, 99), 0);
}

#[test]
fn tui_scrollbar_position_reaches_last_position_at_tail() {
    // A view of 4 rows over 24 lines scrolls back at most 20 lines.
    let height = 4;
    let max_offset = 20;
    assert_eq!(scrollbar_position(max_offset + height, height, 0), 20);
    assert_eq!(scrollbar_position(max_offset + height, height, 11), 9);
    assert_eq!(scrollbar_position(max_offset + height, height, 20), 0);
    assert_eq!(scrollbar_position(max_offset + height, height, 50), 0);
}

#[test]
fn main_layout_gives_status_and_input_their_rows() {
    let panes = main_layout(80, 12);
    assert_eq!(panes.output, OutputArea::new(0, 0, 80, 5));
    assert_eq!(panes.status, OutputArea::new(0, 5, 80, 4));
    assert_eq!(panes.input, OutputArea::new(0, 9, 80, 3));

    let small = main_layout(20, 5);
    assert_eq!(small.output, OutputArea::new(0, 0, 20, 0));
    assert_eq!(small.status, OutputArea::new(0, 0, 20, 2));
    assert_eq!(small.input, OutputArea::new(0, 2, 20, 3));
}
