//! The arithmetic of the terminal interface: which lines of the output fit
//! the pane at a given scroll offset, where the scrollbar stands and what a
//! mouse on it asks for, and the clipboard sequence that copies text.
//! Drawing the panes and reading the terminal is left to the host program.
use vstd::prelude::*;
use crate::text::{str_bytes, string_from_chars, decimal_string, push_str};

verus! {

/// A rectangle of terminal cells, as the screen layout hands it out.
#[derive(Clone, Copy, Debug, PartialEq, Eq)]
pub struct OutputArea {
    pub x: u16,
    pub y: u16,
    pub width: u16,
    pub height: u16,
}

impl OutputArea {
    pub fn new(x: u16, y: u16, width: u16, height: u16) -> (r: OutputArea)
        ensures
            r == (OutputArea { x, y, width, height }),
    {
        OutputArea { x, y, width, height }
    }
}

/// The panes of the screen, top to bottom: output, status, input.
#[derive(Clone, Copy, Debug, PartialEq, Eq)]
pub struct MainPanes {
    pub output: OutputArea,
    pub status: OutputArea,
    pub input: OutputArea,
}

/// Rows of the input pane: three, or all there are.
pub open spec fn input_pane_rows(height: u16) -> int {
    if height < 3 { height as int } else { 3 }
}

/// Rows of the status pane: four of those the input pane leaves, or all.
pub open spec fn status_pane_rows(height: u16) -> int {
    if height - input_pane_rows(height) < 4 { height - input_pane_rows(height) } else { 4 }
}

/// Splits the screen: the input pane (three rows) at the bottom, the
/// status pane (four rows) above it, and the output pane takes the rest.
/// On a screen lower than seven rows the input pane keeps its rows
/// first, then the status pane, and the output pane gets none.
pub fn main_layout(width: u16, height: u16) -> (r: MainPanes)
    ensures
        r.input == (OutputArea {
            x: 0,
            y: (height - input_pane_rows(height)) as u16,
            width,
            height: input_pane_rows(height) as u16,
        }),
        r.status == (OutputArea {
            x: 0,
            y: (height - input_pane_rows(height) - status_pane_rows(height)) as u16,
            width,
            height: status_pane_rows(height) as u16,
        }),
        r.output == (OutputArea {
            x: 0,
            y: 0,
            width,
            height: (height - input_pane_rows(height) - status_pane_rows(height)) as u16,
        }),
{
    let input_height: u16 = if height < 3 { height } else { 3 };
    let rest: u16 = height - input_height;
    let status_height: u16 = if rest < 4 { rest } else { 4 };
    let output_height: u16 = rest - status_height;
    MainPanes {
        output: OutputArea { x: 0, y: 0, width, height: output_height },
        status: OutputArea { x: 0, y: output_height, width, height: status_height },
        input: OutputArea { x: 0, y: output_height + status_height, width, height: input_height },
    }
}

pub open spec fn sat_sub(a: int, b: int) -> int {
    if a > b { a - b } else { 0 }
}

pub open spec fn min_int(a: int, b: int) -> int {
    if a < b { a } else { b }
}

pub open spec fn clamp_int(v: int, lo: int, hi: int) -> int {
    if v < lo { lo } else if v > hi { hi } else { v }
}

/// How far back the view can scroll: every line above the last full pane.
pub open spec fn max_scroll(total_lines: int, output_height: int) -> int {
    if output_height == 0 { 0 } else { sat_sub(total_lines, output_height) }
}

/// The range of lines shown at a scroll offset: the pane ends `offset`
/// lines above the newest line, the offset clamped so the pane stays full.
pub open spec fn window(total_lines: int, output_height: int, scroll_offset: int) -> (int, int) {
    if output_height == 0 || total_lines == 0 {
        (0, 0)
    } else {
        let offset = min_int(scroll_offset, max_scroll(total_lines, output_height));
        let end = sat_sub(total_lines, offset);
        (sat_sub(end, output_height), end)
    }
}

pub fn max_scroll_offset(total_lines: usize, output_height: usize) -> (r: usize)
    ensures
        r == max_scroll(total_lines as int, output_height as int),
{
    if output_height == 0 {
        return 0;
    }
    total_lines.saturating_sub(output_height)
}

/// The first and one past the last line shown.
pub fn visible_window(total_lines: usize, output_height: usize, scroll_offset: usize) -> (r: (usize, usize))
    ensures
        (r.0 as int, r.1 as int) == window(total_lines as int, output_height as int, scroll_offset as int),
        r.0 <= r.1 <= total_lines,
        r.1 - r.0 <= output_height,
{
    if output_height == 0 || total_lines == 0 {
        return (0, 0);
    }
    let max = max_scroll_offset(total_lines, output_height);
    let offset = if scroll_offset < max { scroll_offset } else { max };
    let end = total_lines.saturating_sub(offset);
    let start = end.saturating_sub(output_height);
    (start, end)
}

/// Where the scrollbar thumb stands: the first line shown.
pub fn scrollbar_position(total_lines: usize, output_height: usize, scroll_offset: usize) -> (r: usize)
    ensures
        r as int == window(total_lines as int, output_height as int, scroll_offset as int).0,
{
    visible_window(total_lines, output_height, scroll_offset).0
}

/// At the live tail the thumb stands at its last position, and once the
/// view has scrolled back as far as it goes it stands at the top; a view
/// scrolled further back shows what the furthest one shows. Between those,
/// each line scrolled back moves the thumb one line up.
pub proof fn lemma_scrollbar_extremes(total_lines: nat, output_height: nat, scroll_offset: nat)
    requires
        output_height > 0,
    ensures
        window(total_lines as int, output_height as int, 0).0 == max_scroll(total_lines as int, output_height as int),
        scroll_offset >= max_scroll(total_lines as int, output_height as int)
            ==> window(total_lines as int, output_height as int, scroll_offset as int).0 == 0,
        scroll_offset >= max_scroll(total_lines as int, output_height as int)
            ==> window(total_lines as int, output_height as int, scroll_offset as int)
                == window(total_lines as int, output_height as int, max_scroll(total_lines as int, output_height as int)),
        scroll_offset <= max_scroll(total_lines as int, output_height as int)
            ==> window(total_lines as int, output_height as int, scroll_offset as int).0
                == max_scroll(total_lines as int, output_height as int) - scroll_offset,
{
}

/// What a mouse on the scrollbar column asks for.
#[derive(Clone, Copy, Debug, PartialEq, Eq)]
pub enum ScrollbarMouseTarget {
    UpButton,
    DownButton,
    Track(usize),
}

/// The scroll offset for a row of the scrollbar track: the top of the
/// track is the oldest view, the bottom the live tail, rows outside the
/// track taken as its nearest end, rounded to the nearest offset.
pub open spec fn drag_offset(area: OutputArea, total_lines: int, output_height: int, row: int) -> int {
    let max = max_scroll(total_lines, output_height);
    let track_len = sat_sub(area.height as int, 2);
    if max == 0 || output_height == 0 || track_len <= 1 {
        0
    } else {
        let first = min_int(area.y + 1, 65535);
        let last = min_int(first + track_len - 1, 65535);
        let track_row = clamp_int(row, first, last) - first;
        let position = (track_row * max + (track_len - 1) / 2) / (track_len - 1);
        sat_sub(max, position)
    }
}

proof fn lemma_position_bound(track_row: int, max: int, d: int)
    requires
        0 <= track_row <= d,
        d >= 1,
        max >= 0,
    ensures
        0 <= (track_row * max + d / 2) / d <= max,
{
    assert(track_row * max <= d * max) by (nonlinear_arith)
        requires 0 <= track_row <= d, max >= 0;
    assert(0 <= track_row * max) by (nonlinear_arith)
        requires 0 <= track_row, max >= 0;
    assert((track_row * max + d / 2) / d <= max) by (nonlinear_arith)
        requires track_row * max <= d * max, 0 <= d / 2 < d, d >= 1, max >= 0;
    assert(0 <= (track_row * max + d / 2) / d) by (nonlinear_arith)
        requires 0 <= track_row * max, 0 <= d / 2, d >= 1;
}

pub fn scrollbar_offset_from_drag_row(output_area: OutputArea, total_lines: usize, output_height: usize, row: u16) -> (r: usize)
    ensures
        r as int == drag_offset(output_area, total_lines as int, output_height as int, row as int),
        r <= max_scroll(total_lines as int, output_height as int),
{
    let max_offset = max_scroll_offset(total_lines, output_height);
    if max_offset == 0 || output_height == 0 {
        return 0;
    }
    let track_len = output_area.height.saturating_sub(2);
    if track_len <= 1 {
        return 0;
    }
    let first_track_row = output_area.y.saturating_add(1);
    let last_track_row = first_track_row.saturating_add(track_len - 1);
    let clamped_row = if row < first_track_row {
        first_track_row
    } else if row > last_track_row {
        last_track_row
    } else {
        row
    };
    let track_row = (clamped_row - first_track_row) as u128;
    let d = (track_len - 1) as u128;
    proof {
        lemma_position_bound(track_row as int, max_offset as int, d as int);
        assert(track_row * (max_offset as u128) <= d * (max_offset as u128)) by (nonlinear_arith)
            requires track_row <= d, max_offset >= 0;
        assert(d * (max_offset as u128) <= 65535 * 0xffff_ffff_ffff_ffffu128) by (nonlinear_arith)
            requires d <= 65535, max_offset <= 0xffff_ffff_ffff_ffffu64;
    }
    let position = (track_row * (max_offset as u128) + d / 2) / d;
    let position = position as usize;
    max_offset.saturating_sub(position)
}

pub open spec fn mouse_target(area: OutputArea, total_lines: int, output_height: int, column: int, row: int) -> Option<ScrollbarMouseTarget> {
    let scrollbar_column = area.x + area.width - 1;
    let row_end = area.y + area.height;
    if area.width == 0 || area.height == 0 {
        None
    } else if column != scrollbar_column || row < area.y || row >= row_end {
        None
    } else if row == area.y {
        Some(ScrollbarMouseTarget::UpButton)
    } else if area.height > 1 && row == row_end - 1 {
        Some(ScrollbarMouseTarget::DownButton)
    } else {
        Some(ScrollbarMouseTarget::Track(drag_offset(area, total_lines, output_height, row) as usize))
    }
}

/// What a mouse cell asks of the scrollbar: its top cell is the button that
/// scrolls up, its bottom cell the one that scrolls down, the cells between
/// are the track. The area must lie on the screen, whose cells have `u16`
/// coordinates.
pub fn scrollbar_mouse_target(output_area: OutputArea, total_lines: usize, output_height: usize, column: u16, row: u16) -> (r: Option<ScrollbarMouseTarget>)
    requires
        output_area.x + output_area.width <= 65535,
        output_area.y + output_area.height <= 65535,
    ensures
        r == mouse_target(output_area, total_lines as int, output_height as int, column as int, row as int),
{
    if output_area.width == 0 || output_area.height == 0 {
        return None;
    }
    let scrollbar_column = output_area.x + output_area.width - 1;
    let row_end = output_area.y + output_area.height;
    if column != scrollbar_column || row < output_area.y || row >= row_end {
        return None;
    }
    if row == output_area.y {
        return Some(ScrollbarMouseTarget::UpButton);
    }
    if output_area.height > 1 && row == row_end - 1 {
        return Some(ScrollbarMouseTarget::DownButton);
    }
    Some(ScrollbarMouseTarget::Track(scrollbar_offset_from_drag_row(output_area, total_lines, output_height, row)))
}

/// The scroll offset a mouse on the scrollbar asks for: the up button the
/// oldest view, the down button the live tail, the track the offset of its
/// row; `None` off the scrollbar.
pub fn scrollbar_offset_from_mouse(output_area: OutputArea, total_lines: usize, output_height: usize, column: u16, row: u16) -> (r: Option<usize>)
    requires
        output_area.x + output_area.width <= 65535,
        output_area.y + output_area.height <= 65535,
    ensures
        r == (match mouse_target(output_area, total_lines as int, output_height as int, column as int, row as int) {
            None => None,
            Some(ScrollbarMouseTarget::UpButton) => Some(max_scroll(total_lines as int, output_height as int) as usize),
            Some(ScrollbarMouseTarget::DownButton) => Some(0usize),
            Some(ScrollbarMouseTarget::Track(offset)) => Some(offset),
        }),
{
    match scrollbar_mouse_target(output_area, total_lines, output_height, column, row) {
        None => None,
        Some(ScrollbarMouseTarget::UpButton) => Some(max_scroll_offset(total_lines, output_height)),
        Some(ScrollbarMouseTarget::DownButton) => Some(0),
        Some(ScrollbarMouseTarget::Track(offset)) => Some(offset),
    }
}

/// How many screen rows a line of `width` cells takes in a pane
/// `content_width` cells wide; an empty line still takes one.
pub open spec fn visual_height(width: int, content_width: int) -> int {
    if content_width == 0 {
        0
    } else {
        let w = if width < 1 { 1 } else { width };
        (w + content_width - 1) / content_width
    }
}

pub fn wrapped_visual_height(width: usize, content_width: usize) -> (r: usize)
    ensures
        r as int == visual_height(width as int, content_width as int),
{
    if content_width == 0 {
        return 0;
    }
    let w = if width < 1 { 1 } else { width };
    let q = w / content_width;
    proof {
        if w % content_width != 0 {
            let wi = w as int;
            let c = content_width as int;
            assert(c != 1);
            let qi = q as int;
            assert(qi * c <= wi) by (nonlinear_arith)
                requires qi == wi / c, c >= 1, wi >= 0;
            assert(qi < wi) by (nonlinear_arith)
                requires qi * c <= wi, c >= 2, wi >= 1, qi >= 0;
        }
    }
    let r = if w % content_width == 0 { q } else { q + 1 };
    proof {
        let wi = w as int;
        let c = content_width as int;
        assert(wi == c * (wi / c) + wi % c) by (nonlinear_arith)
            requires c > 0;
        assert(0 <= wi % c < c) by (nonlinear_arith)
            requires c > 0;
        if wi % c == 0 {
            assert((wi + c - 1) / c == wi / c) by (nonlinear_arith)
                requires c > 0, wi == c * (wi / c), 0 <= c - 1 < c;
        } else {
            assert((wi + c - 1) / c == wi / c + 1) by (nonlinear_arith)
                requires c > 0, wi == c * (wi / c) + wi % c, 0 < wi % c < c;
        }
    }
    r
}

/// The title of the output pane: the program's name, and how far back the
/// view stands when it does not follow the live tail.
pub open spec fn output_title_chars(scroll_offset: nat) -> Seq<char> {
    if scroll_offset == 0 {
        seq!['w', 'i', 'r', 'e', 'm', 'u', 'x']
    } else {
        seq!['w', 'i', 'r', 'e', 'm', 'u', 'x', ' ', '-', ' ', 's', 'c', 'r', 'o', 'l', 'l', 'b', 'a', 'c', 'k', ' ', '+']
            + crate::text::decimal_chars(scroll_offset)
    }
}

pub fn output_title(scroll_offset: usize) -> (r: String)
    ensures
        r@ == output_title_chars(scroll_offset as nat),
{
    let name: Vec<char> = vec!['w', 'i', 'r', 'e', 'm', 'u', 'x'];
    let mut title = string_from_chars(name.as_slice());
    if scroll_offset != 0 {
        let rest: Vec<char> = vec![' ', '-', ' ', 's', 'c', 'r', 'o', 'l', 'l', 'b', 'a', 'c', 'k', ' ', '+'];
        let rest_str = string_from_chars(rest.as_slice());
        push_str(&mut title, rest_str.as_str());
        let digits = decimal_string(scroll_offset as u64);
        push_str(&mut title, digits.as_str());
        assert(title@ =~= output_title_chars(scroll_offset as nat));
    } else {
        assert(title@ =~= output_title_chars(scroll_offset as nat));
    }
    title
}

/// A dash in place of an empty value.
pub fn empty_as_dash(value: &str) -> (r: String)
    ensures
        value@.len() == 0 ==> r@ == seq!['-'],
        value@.len() > 0 ==> r@ == value@,
{
    if value.unicode_len() == 0 {
        let dash: Vec<char> = vec!['-'];
        string_from_chars(dash.as_slice())
    } else {
        let mut out = String::new();
        push_str(&mut out, value);
        assert(out@ =~= value@);
        out
    }
}

/// The frame rate of the interface: the one asked for, else 120 in the
/// Ghostty terminal (named by `TERM` or `TERM_PROGRAM`), else 60.
pub open spec fn tui_fps(override_fps: Option<u16>, term: Option<Seq<char>>, term_program: Option<Seq<char>>) -> u16 {
    match override_fps {
        Some(fps) => fps,
        None => {
            if (term matches Some(t) && t == seq!['x', 't', 'e', 'r', 'm', '-', 'g', 'h', 'o', 's', 't', 't', 'y'])
                || (term_program matches Some(p) && crate::esp_enhanced::ascii_lowercase(p) == seq!['g', 'h', 'o', 's', 't', 't', 'y'])
            {
                120
            } else {
                60
            }
        },
    }
}

/// The characters of an optional text.
pub open spec fn opt_chars(s: Option<&str>) -> Option<Seq<char>> {
    match s {
        Some(t) => Some(t@),
        None => None,
    }
}

pub fn resolve_tui_fps(override_fps: Option<u16>, term: Option<&str>, term_program: Option<&str>) -> (r: u16)
    ensures
        r == tui_fps(override_fps, opt_chars(term), opt_chars(term_program)),
{
    if let Some(fps) = override_fps {
        return fps;
    }
    let ghostty_term: Vec<char> = vec!['x', 't', 'e', 'r', 'm', '-', 'g', 'h', 'o', 's', 't', 't', 'y'];
    let ghostty: Vec<char> = vec!['g', 'h', 'o', 's', 't', 't', 'y'];
    let term_is = match term {
        Some(t) => {
            let chars = crate::text::str_chars(t);
            crate::text::chars_equal(chars.as_slice(), ghostty_term.as_slice())
        },
        None => false,
    };
    let program_is = match term_program {
        Some(p) => {
            let lower = crate::esp_enhanced::to_ascii_lowercase(p);
            crate::text::chars_equal(lower.as_slice(), ghostty.as_slice())
        },
        None => false,
    };
    assert(ghostty_term@ =~= seq!['x', 't', 'e', 'r', 'm', '-', 'g', 'h', 'o', 's', 't', 't', 'y']);
    assert(ghostty@ =~= seq!['g', 'h', 'o', 's', 't', 't', 'y']);
    if term_is || program_is { 120 } else { 60 }
}

// ---------------------------------------------------------------------
// Clipboard

/// The base64 digit of a six-bit value.
pub open spec fn base64_digit(v: int) -> char {
    if v < 26 {
        ((v + 65) as u8) as char
    } else if v < 52 {
        ((v - 26 + 97) as u8) as char
    } else if v < 62 {
        ((v - 52 + 48) as u8) as char
    } else if v == 62 {
        '+'
    } else {
        '/'
    }
}

/// Base64 with the standard alphabet and `=` padding: each group of three
/// bytes gives four digits, a last group of one or two bytes is padded.
pub open spec fn base64_chars(bytes: Seq<u8>) -> Seq<char>
    decreases bytes.len(),
{
    if bytes.len() == 0 {
        Seq::empty()
    } else if bytes.len() == 1 {
        let b0 = bytes[0] as int;
        seq![base64_digit(b0 / 4), base64_digit((b0 % 4) * 16), '=', '=']
    } else if bytes.len() == 2 {
        let b0 = bytes[0] as int;
        let b1 = bytes[1] as int;
        seq![base64_digit(b0 / 4), base64_digit((b0 % 4) * 16 + b1 / 16), base64_digit((b1 % 16) * 4), '=']
    } else {
        let b0 = bytes[0] as int;
        let b1 = bytes[1] as int;
        let b2 = bytes[2] as int;
        seq![base64_digit(b0 / 4), base64_digit((b0 % 4) * 16 + b1 / 16), base64_digit((b1 % 16) * 4 + b2 / 64), base64_digit(b2 % 64)]
            + base64_chars(bytes.skip(3))
    }
}

fn base64_digit_char(v: u8) -> (r: char)
    requires
        v < 64,
    ensures
        r == base64_digit(v as int),
{
    if v < 26 {
        (v + 65) as char
    } else if v < 52 {
        (v - 26 + 97) as char
    } else if v < 62 {
        (v - 52 + 48) as char
    } else if v == 62 {
        '+'
    } else {
        '/'
    }
}

fn base64_encode_chars(bytes: &[u8]) -> (r: Vec<char>)
    ensures
        r@ == base64_chars(bytes@),
{
    let mut out: Vec<char> = Vec::new();
    let mut i: usize = 0;
    assert(bytes@.skip(0) =~= bytes@);
    assert(out@ + base64_chars(bytes@.skip(0)) =~= base64_chars(bytes@));
    while i < bytes.len()
        invariant
            i <= bytes@.len(),
            out@ + base64_chars(bytes@.skip(i as int)) == base64_chars(bytes@),
        decreases bytes@.len() - i,
    {
        let ghost rest = bytes@.skip(i as int);
        let b0 = bytes[i];
        let remaining = bytes.len() - i;
        if remaining == 1 {
            out.push(base64_digit_char(b0 / 4));
            out.push(base64_digit_char((b0 % 4) * 16));
            out.push('=');
            out.push('=');
            i = i + 1;
            proof {
                assert(bytes@.skip(i as int) =~= Seq::<u8>::empty());
                assert(rest[0] == b0);
            }
        } else if remaining == 2 {
            let b1 = bytes[i + 1];
            out.push(base64_digit_char(b0 / 4));
            out.push(base64_digit_char((b0 % 4) * 16 + b1 / 16));
            out.push(base64_digit_char((b1 % 16) * 4));
            out.push('=');
            i = i + 2;
            proof {
                assert(bytes@.skip(i as int) =~= Seq::<u8>::empty());
                assert(rest[0] == b0 && rest[1] == b1);
            }
        } else {
            let b1 = bytes[i + 1];
            let b2 = bytes[i + 2];
            out.push(base64_digit_char(b0 / 4));
            out.push(base64_digit_char((b0 % 4) * 16 + b1 / 16));
            out.push(base64_digit_char((b1 % 16) * 4 + b2 / 64));
            out.push(base64_digit_char(b2 % 64));
            i = i + 3;
            proof {
                assert(rest.skip(3) =~= bytes@.skip(i as int));
                assert(rest[0] == b0 && rest[1] == b1 && rest[2] == b2);
            }
        }
        assert(out@ + base64_chars(bytes@.skip(i as int)) =~= base64_chars(bytes@));
    }
    assert(bytes@.skip(i as int) =~= Seq::<u8>::empty());
    assert(out@ + base64_chars(bytes@.skip(i as int)) =~= out@);
    out
}

pub fn base64_encode(bytes: &[u8]) -> (r: String)
    ensures
        r@ == base64_chars(bytes@),
{
    let chars = base64_encode_chars(bytes);
    string_from_chars(chars.as_slice())
}

/// The bytes of an ASCII text.
pub open spec fn ascii_bytes(s: Seq<char>) -> Seq<u8> {
    s.map_values(|c: char| c as u8)
}

/// The OSC 52 sequence that asks the terminal to put text on the system
/// clipboard: `ESC ] 52 ; c ;`, the base64 of the text's UTF-8 bytes, `BEL`.
pub open spec fn osc52_bytes(text: Seq<char>) -> Seq<u8> {
    seq![0x1bu8, 0x5du8, 0x35u8, 0x32u8, 0x3bu8, 0x63u8, 0x3bu8]
        + ascii_bytes(base64_chars(vstd::utf8::encode_utf8(text)))
        + seq![0x07u8]
}

pub fn write_osc52_copy(out: &mut Vec<u8>, text: &str)
    ensures
        final(out)@ == old(out)@ + osc52_bytes(text@),
{
    let bytes = str_bytes(text);
    let digits = base64_encode_chars(bytes.as_slice());
    let ghost start = out@;
    out.push(0x1b);
    out.push(0x5d);
    out.push(0x35);
    out.push(0x32);
    out.push(0x3b);
    out.push(0x63);
    out.push(0x3b);
    let ghost head = out@;
    let mut i: usize = 0;
    while i < digits.len()
        invariant
            i <= digits@.len(),
            out@ == head + ascii_bytes(digits@.subrange(0, i as int)),
        decreases digits@.len() - i,
    {
        proof {
            assert(ascii_bytes(digits@.subrange(0, i as int + 1))
                =~= ascii_bytes(digits@.subrange(0, i as int)).push(digits@[i as int] as u8));
        }
        out.push(digits[i] as u8);
        i = i + 1;
    }
    out.push(0x07);
    assert(digits@.subrange(0, i as int) =~= digits@);
    assert(out@ =~= old(out)@ + osc52_bytes(text@));
}

} // verus!
