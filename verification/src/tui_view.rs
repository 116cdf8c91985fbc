//! What the output pane of the terminal interface shows: its lines broken
//! into rows of the pane's width, each channel line led by its prefix; the
//! window of rows in view; and where the passthrough cursor stands.
use vstd::prelude::*;

use crate::host_session::{chars_within, char_utf8_len, without_controls};
use crate::interactive::TerminalKey;
use crate::text::{char_range, decimal_chars, push_str, str_chars, string_from_chars};
use crate::tui::{
    drag_offset, mouse_target, sat_sub, scrollbar_mouse_target, scrollbar_offset_from_drag_row, visible_window,
    visual_height, window, OutputArea, ScrollbarMouseTarget,
};
use crate::tui_state::{
    filter_text, input_text, manifest_text, status_text, input_state, last_of_channel, line_rows, lines_view, matches_filter, prefix_chars, prefix_width, rows_of,
    shows_prompt, visual_rows, App, InputState, LineView, animated_toward, content_height, content_width,
    followed_live, jumped_to_oldest, restore_reset, scrolled_down_by, scrolled_up_by, WHEEL_SCROLL_LINES,
};

verus! {

/// A row of the output pane: a channel line's first row carries the
/// channel prefix, the rows a long line wraps onto carry none.
#[derive(Clone, Debug, PartialEq, Eq)]
pub struct RenderOutputRow {
    pub channel: Option<u32>,
    pub prefix: Option<String>,
    pub text: String,
}

/// A row as values.
#[verifier::ext_equal]
pub struct RowView {
    pub channel: Option<u32>,
    pub prefix: Option<Seq<char>>,
    pub text: Seq<char>,
}

impl View for RenderOutputRow {
    type V = RowView;

    open spec fn view(&self) -> RowView {
        RowView {
            channel: self.channel,
            prefix: match self.prefix {
                Some(p) => Some(p@),
                None => None,
            },
            text: self.text@,
        }
    }
}

pub open spec fn rows_view(rows: Seq<RenderOutputRow>) -> Seq<RowView> {
    rows.map_values(|r: RenderOutputRow| r@)
}

/// Text broken into rows of `w` characters, the last one holding what is
/// left; an empty text still makes a row.
pub open spec fn continuation_rows(channel: Option<u32>, text: Seq<char>, w: nat) -> Seq<RowView>
    decreases text.len(),
{
    if w == 0 || text.len() <= w {
        seq![RowView { channel, prefix: None, text }]
    } else {
        seq![RowView { channel, prefix: None, text: text.take(w as int) }]
            + continuation_rows(channel, text.skip(w as int), w)
    }
}

/// The rows of a line: with a prefix, a first row holding the prefix and
/// as much of the text as fits beside it (none when the prefix fills the
/// row), then the rest of the text in full-width rows.
pub open spec fn line_output_rows(channel: Option<u32>, prefix: Option<Seq<char>>, text: Seq<char>, w: nat) -> Seq<RowView> {
    match prefix {
        None => continuation_rows(channel, text, w),
        Some(p) => {
            let first = sat_sub(w as int, p.len() as int);
            if first == 0 {
                seq![RowView { channel, prefix: Some(p), text: Seq::empty() }] + continuation_rows(channel, text, w)
            } else if text.len() <= first {
                seq![RowView { channel, prefix: Some(p), text }]
            } else {
                seq![RowView { channel, prefix: Some(p), text: text.take(first) }]
                    + continuation_rows(channel, text.skip(first), w)
            }
        },
    }
}

/// Appends the rows of a text without prefix.
pub fn append_continuation_rows(rows: &mut Vec<RenderOutputRow>, channel: Option<u32>, text: &str, output_width: usize)
    requires
        output_width >= 1,
    ensures
        rows_view(final(rows)@) == rows_view(old(rows)@) + continuation_rows(channel, text@, output_width as nat),
{
    let chars = str_chars(text);
    let n = chars.len();
    let w = output_width;
    let mut start: usize = 0;
    assert(chars@.skip(0) =~= chars@);
    assert(rows_view(rows@) + continuation_rows(channel, chars@.skip(0), w as nat) =~= rows_view(old(rows)@)
        + continuation_rows(channel, text@, w as nat));
    while n - start > w
        invariant
            start <= n,
            n == chars@.len(),
            chars@ == text@,
            w == output_width,
            w >= 1,
            rows_view(rows@) + continuation_rows(channel, chars@.skip(start as int), w as nat) == rows_view(old(rows)@)
                + continuation_rows(channel, text@, w as nat),
        decreases n - start,
    {
        let ghost rest = chars@.skip(start as int);
        let chunk = char_range(chars.as_slice(), start, start + w);
        let row = RenderOutputRow { channel, prefix: None, text: string_from_chars(chunk.as_slice()) };
        let ghost before = rows@;
        rows.push(row);
        proof {
            assert(rest.take(w as int) =~= chunk@);
            assert(rest.skip(w as int) =~= chars@.skip(start + w));
            assert(rows_view(rows@) =~= rows_view(before).push(row@));
            assert(continuation_rows(channel, rest, w as nat) == seq![RowView { channel, prefix: None, text: rest.take(w as int) }]
                + continuation_rows(channel, rest.skip(w as int), w as nat));
            assert(rows_view(rows@) + continuation_rows(channel, chars@.skip(start + w), w as nat) =~= rows_view(before)
                + continuation_rows(channel, rest, w as nat));
        }
        start = start + w;
    }
    let last = char_range(chars.as_slice(), start, n);
    let row = RenderOutputRow { channel, prefix: None, text: string_from_chars(last.as_slice()) };
    let ghost before = rows@;
    rows.push(row);
    proof {
        let rest = chars@.skip(start as int);
        assert(rest =~= last@);
        assert(continuation_rows(channel, rest, w as nat) == seq![RowView { channel, prefix: None, text: rest }]);
        assert(rows_view(rows@) =~= rows_view(before).push(row@));
        assert(rows_view(rows@) =~= rows_view(before) + continuation_rows(channel, rest, w as nat));
    }
}

/// Appends the rows of a line.
pub fn append_output_rows(
    rows: &mut Vec<RenderOutputRow>,
    channel: Option<u32>,
    prefix: Option<String>,
    text: &str,
    output_width: usize,
)
    requires
        output_width >= 1,
    ensures
        rows_view(final(rows)@) == rows_view(old(rows)@) + line_output_rows(
            channel,
            match prefix {
                Some(p) => Some(p@),
                None => None,
            },
            text@,
            output_width as nat,
        ),
{
    match prefix {
        None => {
            append_continuation_rows(rows, channel, text, output_width);
        },
        Some(p) => {
            let prefix_width = str_chars(p.as_str()).len();
            let first = output_width.saturating_sub(prefix_width);
            let ghost pv = p@;
            if first == 0 {
                let ghost before = rows@;
                let row = RenderOutputRow { channel, prefix: Some(p), text: String::new() };
                rows.push(row);
                proof {
                    assert(rows_view(rows@) =~= rows_view(before) + seq![RowView { channel, prefix: Some(pv), text: Seq::empty() }]);
                }
                let ghost mid = rows@;
                append_continuation_rows(rows, channel, text, output_width);
                proof {
                    assert(rows_view(rows@) =~= rows_view(before) + (seq![RowView { channel, prefix: Some(pv), text: Seq::empty() }]
                        + continuation_rows(channel, text@, output_width as nat)));
                }
            } else {
                let chars = str_chars(text);
                let n = chars.len();
                let cut = if n < first { n } else { first };
                let head = char_range(chars.as_slice(), 0, cut);
                let ghost before = rows@;
                let row = RenderOutputRow { channel, prefix: Some(p), text: string_from_chars(head.as_slice()) };
                rows.push(row);
                proof {
                    assert(rows_view(rows@) =~= rows_view(before).push(row@));
                }
                if n > first {
                    let tail = char_range(chars.as_slice(), first, n);
                    let rest = string_from_chars(tail.as_slice());
                    let ghost mid = rows@;
                    append_continuation_rows(rows, channel, rest.as_str(), output_width);
                    proof {
                        assert(head@ =~= text@.take(first as int));
                        assert(rest@ =~= text@.skip(first as int));
                        assert(rows_view(rows@) =~= rows_view(before) + (seq![RowView { channel, prefix: Some(pv), text: text@.take(first as int) }]
                            + continuation_rows(channel, text@.skip(first as int), output_width as nat)));
                    }
                } else {
                    proof {
                        assert(head@ =~= text@);
                        assert(rows_view(rows@) =~= rows_view(before) + seq![RowView { channel, prefix: Some(pv), text: text@ }]);
                    }
                }
            }
        },
    }
}

/// Text broken into rows of `w` takes as many rows as the scrolling counts
/// for it.
pub proof fn lemma_continuation_rows_len(channel: Option<u32>, text: Seq<char>, w: nat)
    requires
        w >= 1,
    ensures
        continuation_rows(channel, text, w).len() == visual_height(text.len() as int, w as int),
    decreases text.len(),
{
    let t = text.len() as int;
    let wi = w as int;
    if t <= wi {
        let x = if t < 1 { 1 } else { t };
        assert((x + wi - 1) / wi == 1) by (nonlinear_arith)
            requires 1 <= x <= wi;
    } else {
        lemma_continuation_rows_len(channel, text.skip(wi), w);
        assert((t + wi - 1) / wi == (t - wi + wi - 1) / wi + 1) by (nonlinear_arith)
            requires t > wi, wi >= 1;
    }
}

/// The rows a line is broken into are the rows the scrolling counts for
/// it: a line of `t` characters after a prefix of `p` columns in a pane `w`
/// columns wide.
pub proof fn lemma_line_output_rows_len(channel: Option<u32>, prefix: Option<Seq<char>>, text: Seq<char>, w: nat)
    requires
        w >= 1,
    ensures
        line_output_rows(channel, prefix, text, w).len() == crate::tui_state::line_rows(
            match prefix {
                Some(p) => Some(p.len() as int),
                None => None,
            },
            text.len() as int,
            w as int,
        ),
{
    lemma_continuation_rows_len(channel, text, w);
    match prefix {
        None => {},
        Some(p) => {
            let first = sat_sub(w as int, p.len() as int);
            if first > 0 && text.len() > first {
                lemma_continuation_rows_len(channel, text.skip(first), w);
            }
        },
    }
}

// ---------------------------------------------------------------------
// The pane

/// The prefix of a channel line's first row: the channel prefix and `> `.
pub open spec fn line_prefix(manifest: Option<crate::manifest::DeviceManifest>, channel: Option<u32>) -> Option<Seq<char>> {
    match channel {
        Some(c) => Some(prefix_chars(manifest, c) + "> "@),
        None => None,
    }
}

/// The rows of the lines that show under the filter.
pub open spec fn shown_rows(lines: Seq<LineView>, filter: Option<u32>, manifest: Option<crate::manifest::DeviceManifest>, w: nat) -> Seq<RowView>
    decreases lines.len(),
{
    if lines.len() == 0 {
        Seq::empty()
    } else {
        shown_rows(lines.drop_last(), filter, manifest, w) + if matches_filter(filter, lines.last().channel) {
            line_output_rows(lines.last().channel, line_prefix(manifest, lines.last().channel), lines.last().text, w)
        } else {
            Seq::empty()
        }
    }
}

/// The rows of the output pane: the lines that show, then the empty
/// prompt line of a passthrough channel when it shows one.
pub open spec fn pane_rows(
    lines: Seq<LineView>,
    filter: Option<u32>,
    manifest: Option<crate::manifest::DeviceManifest>,
    offset: usize,
    w: nat,
) -> Seq<RowView> {
    shown_rows(lines, filter, manifest, w) + match input_state(filter, manifest) {
        InputState::Passthrough(c) => if shows_prompt(lines, filter, manifest, offset) {
            line_output_rows(Some(c as u32), line_prefix(manifest, Some(c as u32)), Seq::empty(), w)
        } else {
            Seq::empty()
        },
        _ => Seq::empty(),
    }
}

/// The pane's rows for an interface state at a width, at least one
/// column.
pub open spec fn app_rows(app: App, width: int) -> Seq<RowView> {
    pane_rows(lines_view(app.lines@), app.filter, app.manifest, app.scroll_offset, if width < 1 { 1 } else { width as nat })
}

/// The rows of the output pane, with the window of them in view.
pub struct OutputRenderModel {
    pub rows: Vec<RenderOutputRow>,
    pub visible_start: usize,
    pub visible_end: usize,
    pub content_height: usize,
}

/// Whether the empty prompt line of a passthrough channel shows.
pub fn should_append_passthrough_prompt(app: &App) -> (r: bool)
    ensures
        r == shows_prompt(lines_view(app.lines@), app.filter, app.manifest, app.scroll_offset),
{
    let c8 = match app.active_input_state() {
        InputState::Passthrough(c) => c,
        _ => {
            return false;
        },
    };
    let active = c8 as u32;
    if app.scroll_offset > 0 {
        return false;
    }
    let ghost lv = lines_view(app.lines@);
    let mut i = app.lines.len();
    assert(lv.subrange(0, i as int) =~= lv);
    while i > 0
        invariant
            i <= app.lines@.len(),
            lv == lines_view(app.lines@),
            last_of_channel(lv, Some(active)) == last_of_channel(lv.subrange(0, i as int), Some(active)),
            input_state(app.filter, app.manifest) == InputState::Passthrough(c8),
            active == c8 as u32,
            app.scroll_offset == 0,
        decreases i,
    {
        let ghost sub = lv.subrange(0, i as int);
        assert(sub.drop_last() =~= lv.subrange(0, i as int - 1));
        assert(sub.last() == app.lines@[i as int - 1]@);
        if app.lines[i - 1].channel == Some(active) {
            return app.lines[i - 1].complete;
        }
        i = i - 1;
    }
    true
}

/// Appends the rows of a line of the pane.
fn append_line_rows(app: &App, rows: &mut Vec<RenderOutputRow>, channel: Option<u32>, text: &str, w: usize)
    requires
        w >= 1,
    ensures
        rows_view(final(rows)@) == rows_view(old(rows)@) + line_output_rows(channel, line_prefix(app.manifest, channel), text@, w as nat),
{
    let prefix = match channel {
        Some(c) => {
            let mut p = app.channel_prefix(c);
            push_str(&mut p, "> ");
            Some(p)
        },
        None => None,
    };
    append_output_rows(rows, channel, prefix, text, w);
}

/// The rows of the output pane at a width.
pub fn output_rows(app: &App, output_width: usize) -> (r: Vec<RenderOutputRow>)
    ensures
        rows_view(r@) == app_rows(*app, output_width as int),
{
    let w: usize = if output_width < 1 { 1 } else { output_width };
    let ghost lv = lines_view(app.lines@);
    let mut rows: Vec<RenderOutputRow> = Vec::new();
    let mut i: usize = 0;
    while i < app.lines.len()
        invariant
            i <= app.lines@.len(),
            lv == lines_view(app.lines@),
            w >= 1,
            rows_view(rows@) == shown_rows(lv.subrange(0, i as int), app.filter, app.manifest, w as nat),
        decreases app.lines@.len() - i,
    {
        let ghost sub = lv.subrange(0, i as int + 1);
        proof {
            assert(sub.drop_last() =~= lv.subrange(0, i as int));
            assert(sub.last() == app.lines@[i as int]@);
        }
        let line = &app.lines[i];
        if app.line_matches_filter(line) {
            append_line_rows(app, &mut rows, line.channel, line.text.as_str(), w);
        } else {
            assert(rows_view(rows@) =~= shown_rows(sub, app.filter, app.manifest, w as nat));
        }
        i = i + 1;
    }
    assert(lv.subrange(0, i as int) =~= lv);
    if should_append_passthrough_prompt(app) {
        match app.active_input_state() {
            InputState::Passthrough(c) => {
                append_line_rows(app, &mut rows, Some(c as u32), "", w);
                proof {
                    reveal_strlit("");
                    assert(""@ =~= Seq::<char>::empty());
                }
            },
            _ => {},
        }
    } else {
        assert(rows_view(rows@) =~= app_rows(*app, output_width as int));
    }
    rows
}

/// The pane's rows and the window of them in view, for an output area
/// with a border.
pub fn output_render_model(app: &App, output_area: OutputArea) -> (r: OutputRenderModel)
    ensures
        rows_view(r.rows@) == app_rows(*app, sat_sub(output_area.width as int, 2)),
        r.content_height as int == sat_sub(output_area.height as int, 2),
        (r.visible_start as int, r.visible_end as int) == window(r.rows@.len() as int, r.content_height as int, app.scroll_offset as int),
{
    let height = output_area.height.saturating_sub(2) as usize;
    let width = output_area.width.saturating_sub(2) as usize;
    let rows = output_rows(app, width);
    let (visible_start, visible_end) = visible_window(rows.len(), height, app.scroll_offset);
    OutputRenderModel { rows, visible_start, visible_end, content_height: height }
}

// ---------------------------------------------------------------------
// The pane's rows are the rows the scrolling counts

pub open spec fn pow10(k: nat) -> nat
    decreases k,
{
    if k == 0 { 1 } else { 10 * pow10((k - 1) as nat) }
}

proof fn lemma_decimal_len(n: nat, k: nat)
    requires
        n < pow10(k),
    ensures
        decimal_chars(n).len() <= if k == 0 { 1 } else { k },
    decreases k,
{
    if n >= 10 {
        assert(k >= 2) by {
            if k == 0 {
                assert(pow10(0) == 1);
            } else if k == 1 {
                assert(pow10(1) == 10 * pow10(0));
            }
        }
        let p = pow10((k - 1) as nat);
        assert(n / 10 < p) by (nonlinear_arith)
            requires n < 10 * p;
        lemma_decimal_len(n / 10, (k - 1) as nat);
    }
}

proof fn lemma_label_len(s: Seq<char>, max: int)
    requires
        max >= 0,
    ensures
        chars_within(s, max) <= max,
        chars_within(s, max) <= s.len(),
    decreases s.len(),
{
    if s.len() > 0 && char_utf8_len(s[0]) <= max {
        lemma_label_len(s.drop_first(), max - char_utf8_len(s[0]));
    }
}

proof fn lemma_without_controls_len(s: Seq<char>)
    ensures
        without_controls(s).len() <= s.len(),
    decreases s.len(),
{
    if s.len() > 0 {
        lemma_without_controls_len(s.drop_last());
    }
}

/// A channel prefix is short: `ch`, at most ten digits, and a label of at
/// most fifteen characters in brackets.
pub proof fn lemma_prefix_chars_short(manifest: Option<crate::manifest::DeviceManifest>, channel_id: u32)
    ensures
        prefix_chars(manifest, channel_id).len() <= 29,
{
    reveal_with_fuel(pow10, 11);
    assert(pow10(10) == 10000000000);
    lemma_decimal_len(channel_id as nat, 10);
    reveal_strlit("ch");
    reveal_strlit("(");
    reveal_strlit(")");
    match manifest {
        Some(m) => match crate::host_session::channel_position(m.channels@, channel_id) {
            Some(i) => {
                let name = m.channels@[i].name@;
                lemma_label_len(name, 15);
                lemma_without_controls_len(name.subrange(0, chars_within(name, 15) as int));
            },
            None => {},
        },
        None => {},
    }
}

proof fn lemma_shown_rows_len(lines: Seq<LineView>, filter: Option<u32>, manifest: Option<crate::manifest::DeviceManifest>, w: nat)
    requires
        w >= 1,
    ensures
        shown_rows(lines, filter, manifest, w).len() == rows_of(lines, manifest, filter, w as int),
    decreases lines.len(),
{
    if lines.len() > 0 {
        lemma_shown_rows_len(lines.drop_last(), filter, manifest, w);
        let l = lines.last();
        lemma_line_output_rows_len(l.channel, line_prefix(manifest, l.channel), l.text, w);
        match l.channel {
            Some(c) => {
                lemma_prefix_chars_short(manifest, c);
                reveal_strlit("> ");
            },
            None => {},
        }
    }
}

/// The output pane renders as many rows as the scrolling counts for it (as
/// far as `usize` counts), so the scrollbar and the view agree.
pub proof fn lemma_pane_rows_are_visual_rows(
    lines: Seq<LineView>,
    filter: Option<u32>,
    manifest: Option<crate::manifest::DeviceManifest>,
    offset: usize,
    w: nat,
)
    requires
        w >= 1,
    ensures
        ({
            let n = pane_rows(lines, filter, manifest, offset, w).len();
            (if n > usize::MAX { usize::MAX as int } else { n as int }) == visual_rows(lines, filter, manifest, offset, w as int)
        }),
{
    lemma_shown_rows_len(lines, filter, manifest, w);
    match input_state(filter, manifest) {
        InputState::Passthrough(c) => {
            lemma_prefix_chars_short(manifest, c as u32);
            reveal_strlit("> ");
            lemma_line_output_rows_len(Some(c as u32), line_prefix(manifest, Some(c as u32)), Seq::empty(), w);
        },
        _ => {},
    }
}

// ---------------------------------------------------------------------
// Text selection

/// Which pane a mouse selection is in.
#[derive(Clone, Copy, Debug, PartialEq, Eq, Structural)]
pub enum SelectionPane {
    Output,
    Status,
}

/// Which way the output pane scrolls while a selection is dragged past
/// its edge.
#[derive(Clone, Copy, Debug, PartialEq, Eq, Structural)]
pub enum SelectionAutoScroll {
    Up,
    Down,
}

/// A row of a pane's rows and a column of that row's text.
#[derive(Clone, Copy, Debug, PartialEq, Eq, Structural)]
pub struct SelectionPosition {
    pub row: usize,
    pub col: usize,
}

/// A selection from where the mouse went down (the anchor) to where it
/// is (the cursor); active while the button is held.
#[derive(Clone, Copy, Debug, PartialEq, Eq, Structural)]
pub struct TextSelection {
    pub pane: SelectionPane,
    pub anchor: SelectionPosition,
    pub cursor: SelectionPosition,
    pub active: bool,
}

impl TextSelection {
    /// An active, empty selection at a position.
    pub fn new(pane: SelectionPane, position: SelectionPosition) -> (r: Self)
        ensures
            r == (TextSelection { pane, anchor: position, cursor: position, active: true }),
    {
        TextSelection { pane, anchor: position, cursor: position, active: true }
    }
}

/// Whether a selection covers nothing.
pub fn selection_is_empty(selection: &TextSelection) -> (r: bool)
    ensures
        r == (selection.anchor == selection.cursor),
{
    selection.anchor == selection.cursor
}

/// The ends of a non-empty selection, earlier first.
pub open spec fn ordered(s: TextSelection) -> Option<(SelectionPosition, SelectionPosition)> {
    if s.anchor == s.cursor {
        None
    } else if s.anchor.row < s.cursor.row || (s.anchor.row == s.cursor.row && s.anchor.col <= s.cursor.col) {
        Some((s.anchor, s.cursor))
    } else {
        Some((s.cursor, s.anchor))
    }
}

pub fn normalized_selection(selection: &TextSelection) -> (r: Option<(SelectionPosition, SelectionPosition)>)
    ensures
        r == ordered(*selection),
{
    if selection_is_empty(selection) {
        return None;
    }
    if selection.anchor.row < selection.cursor.row
        || (selection.anchor.row == selection.cursor.row && selection.anchor.col <= selection.cursor.col)
    {
        Some((selection.anchor, selection.cursor))
    } else {
        Some((selection.cursor, selection.anchor))
    }
}

pub open spec fn min_nat(a: int, b: int) -> int {
    if a < b { a } else { b }
}

/// The columns of a row that a selection covers: from the start column on
/// its first row (else 0) to the end column on its last row (else the
/// row's end), each at most the row's length; none when that is empty.
pub open spec fn row_range(selection: Option<TextSelection>, pane: SelectionPane, row: int, len: int) -> Option<(int, int)> {
    match selection {
        None => None,
        Some(s) => if s.pane != pane {
            None
        } else {
            match ordered(s) {
                None => None,
                Some((start, end)) => if row < start.row || row > end.row {
                    None
                } else {
                    let a = if row == start.row { min_nat(start.col as int, len) } else { 0 };
                    let b = if row == end.row { min_nat(end.col as int, len) } else { len };
                    if b > a { Some((a, b)) } else { None }
                },
            }
        },
    }
}

pub fn selection_range_for_row(
    selection: Option<&TextSelection>,
    pane: SelectionPane,
    row_index: usize,
    row_len: usize,
) -> (r: Option<(usize, usize)>)
    ensures
        match row_range(match selection { Some(s) => Some(*s), None => None }, pane, row_index as int, row_len as int) {
            Some((a, b)) => r == Some((a as usize, b as usize)),
            None => r is None,
        },
{
    let selection = match selection {
        Some(s) => s,
        None => {
            return None;
        },
    };
    if selection.pane != pane {
        return None;
    }
    let (start, end) = match normalized_selection(selection) {
        Some(ends) => ends,
        None => {
            return None;
        },
    };
    if row_index < start.row || row_index > end.row {
        return None;
    }
    let start_col = if row_index == start.row {
        if start.col < row_len { start.col } else { row_len }
    } else {
        0
    };
    let end_col = if row_index == end.row {
        if end.col < row_len { end.col } else { row_len }
    } else {
        row_len
    };
    if end_col > start_col {
        Some((start_col, end_col))
    } else {
        None
    }
}

/// The text of a row: its prefix, then its text.
pub open spec fn row_chars(r: RowView) -> Seq<char> {
    match r.prefix {
        Some(p) => p + r.text,
        None => r.text,
    }
}

pub fn row_text(row: &RenderOutputRow) -> (r: String)
    ensures
        r@ == row_chars(row@),
{
    match &row.prefix {
        Some(p) => {
            let mut out = p.clone();
            push_str(&mut out, row.text.as_str());
            out
        },
        None => row.text.clone(),
    }
}

/// Lines joined with line breaks between them.
pub open spec fn join_lines(pieces: Seq<Seq<char>>) -> Seq<char>
    decreases pieces.len(),
{
    if pieces.len() == 0 {
        Seq::empty()
    } else if pieces.len() == 1 {
        pieces[0]
    } else {
        join_lines(pieces.drop_last()) + "\n"@ + pieces.last()
    }
}

/// What a selection covers of rows `from` up to `to` (inclusive) of the
/// texts: on each row the columns from the start column (first row) to
/// the end column (last row), each at most the row's length.
pub open spec fn selected_pieces(texts: Seq<Seq<char>>, start: SelectionPosition, end: SelectionPosition, to: int) -> Seq<Seq<char>>
    decreases to + 1 - start.row,
{
    if to < start.row {
        Seq::empty()
    } else {
        let len = texts[to].len() as int;
        let a = if to == start.row { min_nat(start.col as int, len) } else { 0 };
        let b = if to == end.row { min_nat(end.col as int, len) } else { len };
        selected_pieces(texts, start, end, to - 1) + if b >= a { seq![texts[to].subrange(a, b)] } else { Seq::empty() }
    }
}

/// The text a selection covers in rows of text, rows joined by line
/// breaks; empty when nothing is selected or it starts past the rows.
pub open spec fn selected_chars(selection: TextSelection, texts: Seq<Seq<char>>) -> Seq<char> {
    if texts.len() == 0 {
        Seq::empty()
    } else {
        match ordered(selection) {
            None => Seq::empty(),
            Some((start, end)) => if start.row >= texts.len() {
                Seq::empty()
            } else {
                join_lines(selected_pieces(texts, start, end, min_nat(end.row as int, texts.len() - 1)))
            },
        }
    }
}

pub open spec fn texts_view(texts: Seq<String>) -> Seq<Seq<char>> {
    texts.map_values(|t: String| t@)
}

/// The text a selection covers in rows of text.
pub fn selected_text_from_rows(selection: &TextSelection, texts: &[String]) -> (r: String)
    ensures
        r@ == selected_chars(*selection, texts_view(texts@)),
{
    let ghost tv = texts_view(texts@);
    if texts.len() == 0 {
        return String::new();
    }
    let (start, end) = match normalized_selection(selection) {
        Some(ends) => ends,
        None => {
            return String::new();
        },
    };
    if start.row >= texts.len() {
        return String::new();
    }
    let last_row = if end.row < texts.len() - 1 { end.row } else { texts.len() - 1 };
    let mut out = String::new();
    let mut count: usize = 0;
    let mut row = start.row;
    assert(selected_pieces(tv, start, end, start.row - 1) =~= Seq::<Seq<char>>::empty());
    while row <= last_row
        invariant
            start.row <= row <= last_row + 1,
            last_row < texts@.len(),
            tv == texts_view(texts@),
            count as int == selected_pieces(tv, start, end, row - 1).len(),
            out@ == join_lines(selected_pieces(tv, start, end, row - 1)),
            count <= row - start.row,
        decreases last_row + 1 - row,
    {
        let chars = str_chars(texts[row].as_str());
        let len = chars.len();
        let a = if row == start.row { if start.col < len { start.col } else { len } } else { 0 };
        let b = if row == end.row { if end.col < len { end.col } else { len } } else { len };
        let ghost prev = selected_pieces(tv, start, end, row - 1);
        assert(tv[row as int] == texts@[row as int]@);
        if b >= a {
            let piece = char_range(chars.as_slice(), a, b);
            if count > 0 {
                push_str(&mut out, "\n");
            }
            let piece_text = string_from_chars(piece.as_slice());
            push_str(&mut out, piece_text.as_str());
            proof {
                let now = selected_pieces(tv, start, end, row as int);
                assert(now =~= prev.push(tv[row as int].subrange(a as int, b as int)));
                assert(now.drop_last() =~= prev);
                if count == 0 {
                    assert(out@ =~= join_lines(now));
                } else {
                    assert(out@ =~= join_lines(now));
                }
            }
            count = count + 1;
        } else {
            assert(selected_pieces(tv, start, end, row as int) =~= prev);
        }
        row = row + 1;
    }
    out
}

/// The text a selection covers in the output pane's rows.
pub fn selected_output_text(selection: &TextSelection, rows: &[RenderOutputRow]) -> (r: String)
    ensures
        r@ == selected_chars(*selection, rows_view(rows@).map_values(|v: RowView| row_chars(v))),
{
    let mut texts: Vec<String> = Vec::new();
    let mut i: usize = 0;
    while i < rows.len()
        invariant
            i <= rows@.len(),
            texts_view(texts@) =~= rows_view(rows@).map_values(|v: RowView| row_chars(v)).subrange(0, i as int),
        decreases rows@.len() - i,
    {
        let t = row_text(&rows[i]);
        let ghost before = texts@;
        texts.push(t);
        proof {
            assert(texts_view(texts@) =~= texts_view(before).push(row_chars(rows@[i as int]@)));
            assert(rows_view(rows@)[i as int] == rows@[i as int]@);
        }
        i = i + 1;
    }
    assert(rows_view(rows@).map_values(|v: RowView| row_chars(v)).subrange(0, i as int)
        =~= rows_view(rows@).map_values(|v: RowView| row_chars(v)));
    selected_text_from_rows(selection, texts.as_slice())
}

// ---------------------------------------------------------------------
// The status pane

/// A run of status text; labels are drawn in their own colour.
#[derive(Clone, Debug, PartialEq, Eq)]
pub struct StyledSegment {
    pub text: String,
    pub label: bool,
}

/// A row of the status pane.
#[derive(Clone, Debug, PartialEq, Eq)]
pub struct StatusRow {
    pub segments: Vec<StyledSegment>,
}

pub open spec fn segments_text(segments: Seq<StyledSegment>) -> Seq<char>
    decreases segments.len(),
{
    if segments.len() == 0 {
        Seq::empty()
    } else {
        segments_text(segments.drop_last()) + segments.last().text@
    }
}

/// The text of a status row: its segments one after another.
pub fn status_row_text(row: &StatusRow) -> (r: String)
    ensures
        r@ == segments_text(row.segments@),
{
    let mut out = String::new();
    let mut i: usize = 0;
    while i < row.segments.len()
        invariant
            i <= row.segments@.len(),
            out@ == segments_text(row.segments@.subrange(0, i as int)),
        decreases row.segments@.len() - i,
    {
        proof {
            assert(row.segments@.subrange(0, i as int + 1).drop_last() =~= row.segments@.subrange(0, i as int));
        }
        push_str(&mut out, row.segments[i].text.as_str());
        i = i + 1;
    }
    assert(row.segments@.subrange(0, i as int) =~= row.segments@);
    out
}

fn segment(text: String, label: bool) -> (r: StyledSegment)
    ensures
        r.text@ == text@,
        r.label == label,
{
    StyledSegment { text, label }
}

/// The two status rows: the filter, input, backend, frame rate and status;
/// then the connected port, the configured port and the device.
pub open spec fn status_texts(app: App, backend: Seq<char>, fps: u16, connected: Option<Seq<char>>, target: Seq<char>) -> Seq<Seq<char>> {
    seq![
        "filter "@ + filter_text(app.filter) + "  "@ + "input "@ + input_text(input_state(app.filter, app.manifest)) + "  "@
            + "backend "@ + backend + "  "@ + "fps "@ + decimal_chars(fps as nat) + "  "@ + "status "@ + status_text(app),
        "conn "@ + (match connected { Some(c) => c, None => "disconnected"@ }) + "  "@ + "target "@ + target + "  "@
            + "device "@ + manifest_text(app.manifest),
    ]
}

pub fn status_rows(app: &App, backend_label: &str, target_fps: u16, connected_port: Option<&str>, target_port: &str) -> (r: Vec<StatusRow>)
    ensures
        r@.len() == 2,
        forall|i: int| 0 <= i < 2 ==> #[trigger] segments_text(r@[i].segments@) == status_texts(
            *app,
            backend_label@,
            target_fps,
            match connected_port { Some(c) => Some(c@), None => None },
            target_port@,
        )[i],
{
    let first = vec![
        segment("filter ".to_owned(), true),
        segment(app.filter_label(), false),
        segment("  ".to_owned(), false),
        segment("input ".to_owned(), true),
        segment(app.input_label(), false),
        segment("  ".to_owned(), false),
        segment("backend ".to_owned(), true),
        segment(backend_label.to_owned(), false),
        segment("  ".to_owned(), false),
        segment("fps ".to_owned(), true),
        segment(crate::text::decimal_string(target_fps as u64), false),
        segment("  ".to_owned(), false),
        segment("status ".to_owned(), true),
        segment(app.status_label(), false),
    ];
    let conn = match connected_port {
        Some(c) => c.to_owned(),
        None => "disconnected".to_owned(),
    };
    let second = vec![
        segment("conn ".to_owned(), true),
        segment(conn, false),
        segment("  ".to_owned(), false),
        segment("target ".to_owned(), true),
        segment(target_port.to_owned(), false),
        segment("  ".to_owned(), false),
        segment("device ".to_owned(), true),
        segment(app.manifest_label(), false),
    ];
    proof {
        reveal_with_fuel(segments_text, 15);
    }
    let ghost t = status_texts(*app, backend_label@, target_fps, match connected_port { Some(c) => Some(c@), None => None }, target_port@);
    assert(segments_text(first@) =~= t[0]);
    assert(segments_text(second@) =~= t[1]);
    vec![StatusRow { segments: first }, StatusRow { segments: second }]
}

/// The text a selection covers in the status rows.
pub fn selected_status_text(selection: &TextSelection, rows: &[StatusRow]) -> (r: String)
    ensures
        r@ == selected_chars(*selection, rows@.map_values(|row: StatusRow| segments_text(row.segments@))),
{
    let mut texts: Vec<String> = Vec::new();
    let mut i: usize = 0;
    while i < rows.len()
        invariant
            i <= rows@.len(),
            texts_view(texts@) =~= rows@.map_values(|row: StatusRow| segments_text(row.segments@)).subrange(0, i as int),
        decreases rows@.len() - i,
    {
        let t = status_row_text(&rows[i]);
        let ghost before = texts@;
        texts.push(t);
        proof {
            assert(texts_view(texts@) =~= texts_view(before).push(segments_text(rows@[i as int].segments@)));
        }
        i = i + 1;
    }
    assert(rows@.map_values(|row: StatusRow| segments_text(row.segments@)).subrange(0, i as int)
        =~= rows@.map_values(|row: StatusRow| segments_text(row.segments@)));
    selected_text_from_rows(selection, texts.as_slice())
}

// ---------------------------------------------------------------------
// Cursors

pub open spec fn sat16(v: int) -> int {
    if v > 65535 { 65535 } else { v }
}

/// The width of a row: its prefix and its text, in characters.
pub open spec fn row_width(r: RowView) -> int {
    let n = r.prefix.unwrap_or(Seq::empty()).len() + r.text.len();
    if n > usize::MAX { usize::MAX as int } else { n as int }
}

pub fn render_row_width(row: &RenderOutputRow) -> (r: usize)
    ensures
        r as int == row_width(row@),
{
    let prefix_width = match &row.prefix {
        Some(p) => str_chars(p.as_str()).len(),
        None => 0,
    };
    prefix_width.saturating_add(str_chars(row.text.as_str()).len())
}

/// The last of the rows that belongs to the channel.
pub open spec fn last_row_of(rows: Seq<RowView>, channel: u32) -> Option<int>
    decreases rows.len(),
{
    if rows.len() == 0 {
        None
    } else if rows.last().channel == Some(channel) {
        Some(rows.len() - 1)
    } else {
        last_row_of(rows.drop_last(), channel)
    }
}

proof fn lemma_last_row_of_bound(rows: Seq<RowView>, channel: u32)
    ensures
        last_row_of(rows, channel) matches Some(j) ==> 0 <= j < rows.len(),
    decreases rows.len(),
{
    if rows.len() > 0 {
        lemma_last_row_of_bound(rows.drop_last(), channel);
    }
}

/// Where the passthrough cursor goes: after the last row of the channel in
/// view (at most `max_offset` columns in), inside the pane's border.
pub open spec fn passthrough_cursor_at(area: OutputArea, visible: Seq<RowView>, channel: u32, max_offset: u16) -> Option<(int, int)> {
    match last_row_of(visible, channel) {
        None => None,
        Some(j) => Some((
            sat16(area.x + 1 + min_nat(row_width(visible[j]), max_offset as int)),
            sat16(area.y + 1 + min_nat(j, 65535)),
        )),
    }
}

pub fn passthrough_cursor_position(
    output_area: OutputArea,
    visible: &[RenderOutputRow],
    active_channel: u32,
    max_offset: u16,
) -> (r: Option<(u16, u16)>)
    ensures
        match passthrough_cursor_at(output_area, rows_view(visible@), active_channel, max_offset) {
            Some((x, y)) => r == Some((x as u16, y as u16)),
            None => r is None,
        },
{
    let ghost rv = rows_view(visible@);
    let mut i = visible.len();
    assert(rv.subrange(0, i as int) =~= rv);
    while i > 0
        invariant
            i <= visible@.len(),
            rv == rows_view(visible@),
            last_row_of(rv, active_channel) == last_row_of(rv.subrange(0, i as int), active_channel),
        decreases i,
    {
        let ghost sub = rv.subrange(0, i as int);
        assert(sub.drop_last() =~= rv.subrange(0, i as int - 1));
        assert(sub.last() == visible@[i as int - 1]@);
        let row = &visible[i - 1];
        if row.channel == Some(active_channel) {
            let width = render_row_width(row);
            let col: u16 = if width < max_offset as usize { width as u16 } else { max_offset };
            let line: u16 = if i - 1 < 65535 { (i - 1) as u16 } else { 65535 };
            let x = output_area.x.saturating_add(1).saturating_add(col);
            let y = output_area.y.saturating_add(1).saturating_add(line);
            return Some((x, y));
        }
        i = i - 1;
    }
    None
}

/// Where the cursor of the passthrough channel goes in the output pane:
/// after its last row in view, else the pane's first cell; nowhere in a
/// pane with no room inside its border.
pub fn passthrough_cursor(output_area: OutputArea, visible: &[RenderOutputRow], active_channel: u32) -> (r: Option<(u16, u16)>)
    ensures
        output_area.width <= 2 || output_area.height <= 2 ==> r is None,
        !(output_area.width <= 2 || output_area.height <= 2) ==> r == Some(
            match passthrough_cursor_at(output_area, rows_view(visible@), active_channel, (output_area.width - 3) as u16) {
                Some((x, y)) => (x as u16, y as u16),
                None => (sat16(output_area.x + 1) as u16, sat16(output_area.y + 1) as u16),
            },
        ),
{
    if output_area.width <= 2 || output_area.height <= 2 {
        return None;
    }
    let max_offset = output_area.width - 3;
    match passthrough_cursor_position(output_area, visible, active_channel, max_offset) {
        Some(p) => Some(p),
        None => Some((output_area.x.saturating_add(1), output_area.y.saturating_add(1))),
    }
}

/// Where the cursor of the line input goes: after the `> ` prompt and the
/// text, at most at the last column inside the border; nowhere in a pane
/// with no room inside its border.
pub fn line_input_cursor(input_area: OutputArea, input: &str) -> (r: Option<(u16, u16)>)
    ensures
        input_area.width <= 2 || input_area.height <= 2 ==> r is None,
        !(input_area.width <= 2 || input_area.height <= 2) ==> r == Some((
            sat16(input_area.x + 1 + min_nat(sat16(2 + sat16(input@.len() as int)), input_area.width - 3)) as u16,
            sat16(input_area.y + 1) as u16,
        )),
{
    if input_area.width <= 2 || input_area.height <= 2 {
        return None;
    }
    let max_offset = input_area.width - 3;
    let n = str_chars(input).len();
    let width: u16 = if n < 65535 { n as u16 } else { 65535 };
    let offset = 2u16.saturating_add(width);
    let offset = if offset < max_offset { offset } else { max_offset };
    Some((input_area.x.saturating_add(1).saturating_add(offset), input_area.y.saturating_add(1)))
}

// ---------------------------------------------------------------------
// The mouse

/// The mouse selection, where it scrolls while dragged past the output
/// pane's edge, and the text waiting to go to the clipboard.
pub struct SelectionState {
    pub selection: Option<TextSelection>,
    pub auto_scroll: Option<SelectionAutoScroll>,
    pub pending_clipboard: Option<String>,
}

impl SelectionState {
    pub fn new() -> (r: Self)
        ensures
            r.selection is None,
            r.auto_scroll is None,
            r.pending_clipboard is None,
    {
        SelectionState { selection: None, auto_scroll: None, pending_clipboard: None }
    }

    /// Drops the selection and the text waiting for the clipboard.
    pub fn clear_selection(&mut self)
        ensures
            final(self).selection is None,
            final(self).auto_scroll is None,
            final(self).pending_clipboard is None,
    {
        self.selection = None;
        self.auto_scroll = None;
        self.pending_clipboard = None;
    }

    /// Whether something is selected.
    pub fn has_selection(&self) -> (r: bool)
        ensures
            r == (self.selection matches Some(t) && t.anchor != t.cursor),
    {
        match &self.selection {
            Some(t) => !selection_is_empty(t),
            None => false,
        }
    }
}

/// Whether a cell lies inside the area's border.
pub open spec fn inside(area: OutputArea, column: int, row: int) -> bool {
    &&& area.width > 2
    &&& area.height > 2
    &&& column > area.x
    &&& column < sat_sub(sat16(area.x + area.width), 1)
    &&& row > area.y
    &&& row < sat_sub(sat16(area.y + area.height), 1)
}

/// The column of a cell counted from the first one inside the border.
pub open spec fn column_in(area: OutputArea, column: int) -> int {
    sat_sub(sat_sub(column, area.x as int), 1)
}

pub fn inside_content(area: OutputArea, column: u16, row: u16) -> (r: bool)
    ensures
        r == inside(area, column as int, row as int),
{
    area.width > 2 && area.height > 2 && column > area.x
        && column < area.x.saturating_add(area.width).saturating_sub(1) && row > area.y
        && row < area.y.saturating_add(area.height).saturating_sub(1)
}

pub fn content_col(area: OutputArea, column: u16) -> (r: usize)
    ensures
        r as int == column_in(area, column as int),
{
    column.saturating_sub(area.x).saturating_sub(1) as usize
}

/// The position in the output pane's rows of a cell: the row shown there
/// and the column, at most the row's length; none outside the pane or past
/// the last row.
pub open spec fn output_position(app: App, area: OutputArea, column: int, row: int) -> Option<SelectionPosition> {
    if !inside(area, column, row) {
        None
    } else {
        let rows = app_rows(app, sat_sub(area.width as int, 2));
        let start = window(rows.len() as int, sat_sub(area.height as int, 2), app.scroll_offset as int).0;
        let index = start + sat_sub(sat_sub(row, area.y as int), 1);
        if index >= rows.len() {
            None
        } else {
            Some(SelectionPosition {
                row: index as usize,
                col: min_nat(column_in(area, column), row_chars(rows[index]).len() as int) as usize,
            })
        }
    }
}

/// The position in the status rows of a cell.
pub open spec fn status_position(texts: Seq<Seq<char>>, area: OutputArea, column: int, row: int) -> Option<SelectionPosition> {
    if !inside(area, column, row) {
        None
    } else {
        let index = sat_sub(sat_sub(row, area.y as int), 1);
        if index >= texts.len() {
            None
        } else {
            Some(SelectionPosition {
                row: index as usize,
                col: min_nat(column_in(area, column), texts[index].len() as int) as usize,
            })
        }
    }
}

pub open spec fn status_texts_of(rows: Seq<StatusRow>) -> Seq<Seq<char>> {
    rows.map_values(|row: StatusRow| segments_text(row.segments@))
}

pub fn output_selection_position(app: &App, output_area: OutputArea, column: u16, row: u16) -> (r: Option<SelectionPosition>)
    ensures
        r == output_position(*app, output_area, column as int, row as int),
{
    if !inside_content(output_area, column, row) {
        return None;
    }
    let model = output_render_model(app, output_area);
    let visible_row = row.saturating_sub(output_area.y).saturating_sub(1) as usize;
    let index = model.visible_start.saturating_add(visible_row);
    if index >= model.rows.len() {
        return None;
    }
    let text = row_text(&model.rows[index]);
    let len = str_chars(text.as_str()).len();
    let col = content_col(output_area, column);
    proof {
        assert(rows_view(model.rows@)[index as int] == model.rows@[index as int]@);
    }
    Some(SelectionPosition { row: index, col: if col < len { col } else { len } })
}

pub fn status_selection_position(rows: &[StatusRow], status_area: OutputArea, column: u16, row: u16) -> (r: Option<SelectionPosition>)
    ensures
        r == status_position(status_texts_of(rows@), status_area, column as int, row as int),
{
    if !inside_content(status_area, column, row) {
        return None;
    }
    let index = row.saturating_sub(status_area.y).saturating_sub(1) as usize;
    if index >= rows.len() {
        return None;
    }
    let text = status_row_text(&rows[index]);
    let len = str_chars(text.as_str()).len();
    let col = content_col(status_area, column);
    Some(SelectionPosition { row: index, col: if col < len { col } else { len } })
}

/// What the mouse did.
#[derive(Clone, Copy, Debug, PartialEq, Eq, Structural)]
pub enum MouseKind {
    ScrollUp,
    ScrollDown,
    LeftDown,
    LeftDrag,
    LeftUp,
    Other,
}

/// A mouse event at a cell.
#[derive(Clone, Copy, Debug, PartialEq, Eq, Structural)]
pub struct MouseInput {
    pub kind: MouseKind,
    pub column: u16,
    pub row: u16,
}

/// Which way the wheel turned.
#[derive(Clone, Copy, Debug, PartialEq, Eq, Structural)]
pub enum WheelDirection {
    Up,
    Down,
}

pub fn mouse_wheel_direction(mouse: &MouseInput) -> (r: Option<WheelDirection>)
    ensures
        r == match mouse.kind {
            MouseKind::ScrollUp => Some(WheelDirection::Up),
            MouseKind::ScrollDown => Some(WheelDirection::Down),
            _ => None,
        },
{
    match mouse.kind {
        MouseKind::ScrollUp => Some(WheelDirection::Up),
        MouseKind::ScrollDown => Some(WheelDirection::Down),
        _ => None,
    }
}

/// Scrolls by a run of wheel turns in one direction.
pub fn flush_wheel_run(app: &mut App, output_area: OutputArea, direction: Option<WheelDirection>, count: usize)
    ensures
        match direction {
            Some(WheelDirection::Up) => scrolled_up_by(*old(app), *final(app), output_area, count),
            Some(WheelDirection::Down) => scrolled_down_by(*old(app), *final(app), output_area, count),
            None => *final(app) == *old(app),
        },
{
    match direction {
        Some(WheelDirection::Up) => app.scroll_up_by(output_area, count),
        Some(WheelDirection::Down) => app.scroll_down_by(output_area, count),
        None => {},
    }
}

/// Where a drag past the output pane's edge scrolls: up at or above the
/// first row inside the border, down at or below the last.
pub open spec fn edge_direction(area: OutputArea, row: int) -> Option<SelectionAutoScroll> {
    if area.height <= 2 {
        None
    } else if row <= sat16(area.y + 1) {
        Some(SelectionAutoScroll::Up)
    } else if row >= sat16(area.y + sat_sub(area.height as int, 2)) {
        Some(SelectionAutoScroll::Down)
    } else {
        None
    }
}

/// The interface after an edge scroll in a direction: one row, or none.
pub open spec fn edge_scrolled(a: App, b: App, area: OutputArea, direction: Option<SelectionAutoScroll>) -> bool {
    match direction {
        Some(SelectionAutoScroll::Up) => scrolled_up_by(a, b, area, 1),
        Some(SelectionAutoScroll::Down) => scrolled_down_by(a, b, area, 1),
        None => b == a,
    }
}

pub fn apply_selection_edge_scroll(app: &mut App, sel: &mut SelectionState, output_area: OutputArea, row: u16)
    ensures
        final(sel).auto_scroll == edge_direction(output_area, row as int),
        final(sel).selection == old(sel).selection,
        final(sel).pending_clipboard == old(sel).pending_clipboard,
        edge_scrolled(*old(app), *final(app), output_area, edge_direction(output_area, row as int)),
{
    if output_area.height <= 2 {
        sel.auto_scroll = None;
        return;
    }
    let top = output_area.y.saturating_add(1);
    let bottom = output_area.y.saturating_add(output_area.height - 2);
    if row <= top {
        sel.auto_scroll = Some(SelectionAutoScroll::Up);
        app.scroll_up_by(output_area, 1);
    } else if row >= bottom {
        sel.auto_scroll = Some(SelectionAutoScroll::Down);
        app.scroll_down_by(output_area, 1);
    } else {
        sel.auto_scroll = None;
    }
}

/// A selection with its cursor moved to a position, if there is both.
pub open spec fn cursor_moved(selection: Option<TextSelection>, position: Option<SelectionPosition>) -> Option<TextSelection> {
    match (selection, position) {
        (Some(t), Some(p)) => Some(TextSelection { cursor: p, ..t }),
        _ => selection,
    }
}

/// A selection once the button is released: inactive, or gone when
/// empty.
pub open spec fn finished(selection: Option<TextSelection>) -> Option<TextSelection> {
    match selection {
        Some(t) => if t.anchor == t.cursor { None } else { Some(TextSelection { active: false, ..t }) },
        None => None,
    }
}

/// Starts a selection at the cell, in the output pane or else the status
/// pane; whether one started.
pub fn start_text_selection(
    app: &App,
    sel: &mut SelectionState,
    output_area: OutputArea,
    status_area: OutputArea,
    status: &[StatusRow],
    mouse: MouseInput,
) -> (r: bool)
    ensures
        match output_position(*app, output_area, mouse.column as int, mouse.row as int) {
            Some(p) => r && final(sel).selection == Some(TextSelection { pane: SelectionPane::Output, anchor: p, cursor: p, active: true }),
            None => match status_position(status_texts_of(status@), status_area, mouse.column as int, mouse.row as int) {
                Some(p) => r && final(sel).selection == Some(TextSelection { pane: SelectionPane::Status, anchor: p, cursor: p, active: true }),
                None => !r && final(sel).selection == old(sel).selection,
            },
        },
        r ==> final(sel).auto_scroll is None,
        !r ==> final(sel).auto_scroll == old(sel).auto_scroll,
        final(sel).pending_clipboard == old(sel).pending_clipboard,
{
    match output_selection_position(app, output_area, mouse.column, mouse.row) {
        Some(p) => {
            sel.selection = Some(TextSelection::new(SelectionPane::Output, p));
            sel.auto_scroll = None;
            return true;
        },
        None => {},
    }
    match status_selection_position(status, status_area, mouse.column, mouse.row) {
        Some(p) => {
            sel.selection = Some(TextSelection::new(SelectionPane::Status, p));
            sel.auto_scroll = None;
            true
        },
        None => false,
    }
}

/// Moves the selection's cursor to the cell; a drag in the output pane
/// past its edge scrolls it first.
pub fn update_text_selection(
    app: &mut App,
    sel: &mut SelectionState,
    output_area: OutputArea,
    status_area: OutputArea,
    status: &[StatusRow],
    mouse: MouseInput,
)
    ensures
        match old(sel).selection {
            None => *final(app) == *old(app) && final(sel).selection == old(sel).selection
                && final(sel).auto_scroll == old(sel).auto_scroll,
            Some(t) => match t.pane {
                SelectionPane::Output => {
                    &&& edge_scrolled(*old(app), *final(app), output_area, edge_direction(output_area, mouse.row as int))
                    &&& final(sel).auto_scroll == edge_direction(output_area, mouse.row as int)
                    &&& final(sel).selection == cursor_moved(old(sel).selection,
                        output_position(*final(app), output_area, mouse.column as int, mouse.row as int))
                },
                SelectionPane::Status => {
                    &&& *final(app) == *old(app)
                    &&& final(sel).auto_scroll == old(sel).auto_scroll
                    &&& final(sel).selection == cursor_moved(old(sel).selection,
                        status_position(status_texts_of(status@), status_area, mouse.column as int, mouse.row as int))
                },
            },
        },
        final(sel).pending_clipboard == old(sel).pending_clipboard,
{
    let pane = match &sel.selection {
        Some(t) => t.pane,
        None => {
            return;
        },
    };
    match pane {
        SelectionPane::Output => {
            apply_selection_edge_scroll(app, sel, output_area, mouse.row);
            match output_selection_position(app, output_area, mouse.column, mouse.row) {
                Some(p) => match sel.selection {
                    Some(t) => {
                        sel.selection = Some(TextSelection { cursor: p, ..t });
                    },
                    None => {},
                },
                None => {},
            }
        },
        SelectionPane::Status => {
            match status_selection_position(status, status_area, mouse.column, mouse.row) {
                Some(p) => match sel.selection {
                    Some(t) => {
                        sel.selection = Some(TextSelection { cursor: p, ..t });
                    },
                    None => {},
                },
                None => {},
            }
        },
    }
}

/// Ends the selection when the button is released.
pub fn finish_text_selection(sel: &mut SelectionState)
    ensures
        final(sel).selection == finished(old(sel).selection),
        final(sel).auto_scroll == old(sel).auto_scroll,
        final(sel).pending_clipboard == old(sel).pending_clipboard,
{
    match sel.selection {
        Some(t) => {
            if selection_is_empty(&t) {
                sel.selection = None;
            } else {
                sel.selection = Some(TextSelection { active: false, ..t });
            }
        },
        None => {},
    }
}

/// The interface after a press on the scrollbar track: dragging, and
/// animating toward the offset.
pub open spec fn track_pressed(a: App, b: App, offset: usize, area: OutputArea) -> bool {
    let max = a.max_offset_in(area);
    let target = if offset > max { max } else { offset as int };
    &&& b.scroll_target_offset == (if target == a.scroll_offset { None } else { Some(target as usize) })
    &&& b.same_content(&a)
    &&& b.scroll_offset == a.scroll_offset
    &&& b.empty_enter_restore_count == 0
    &&& b.dragging_scrollbar
    &&& b.status == a.status
}

/// The interface after a press or release away from the scrollbar: not
/// dragging, and the count of empty Enters reset.
pub open spec fn released(a: App, b: App) -> bool {
    &&& b.same_content(&a)
    &&& b.empty_enter_restore_count == 0
    &&& b.scroll_offset == a.scroll_offset
    &&& b.scroll_target_offset == a.scroll_target_offset
    &&& !b.dragging_scrollbar
    &&& b.status == a.status
}

/// Handles a mouse event: the wheel scrolls; a press on the scrollbar's
/// buttons jumps to the oldest view or back to live output, on its track
/// starts dragging toward that offset; a press elsewhere starts a text
/// selection in the output or status pane (or drops the one there was);
/// a drag moves the scrollbar or the selection; a release ends both.
/// The areas lie on the screen, whose cells have `u16` coordinates.
pub fn handle_mouse_with_areas(
    app: &mut App,
    sel: &mut SelectionState,
    output_area: OutputArea,
    status_area: OutputArea,
    status: &[StatusRow],
    mouse: MouseInput,
)
    requires
        output_area.x + output_area.width <= 65535,
        output_area.y + output_area.height <= 65535,
    ensures
        ({
            let a = *old(app);
            let b = *final(app);
            let s0 = *old(sel);
            let s1 = *final(sel);
            let rows = a.rows_at(content_width(output_area));
            let height = content_height(output_area);
            let cleared = s1.selection is None && s1.auto_scroll is None && s1.pending_clipboard is None;
            match mouse.kind {
                MouseKind::ScrollUp => scrolled_up_by(a, b, output_area, WHEEL_SCROLL_LINES) && s1 == s0,
                MouseKind::ScrollDown => scrolled_down_by(a, b, output_area, WHEEL_SCROLL_LINES) && s1 == s0,
                MouseKind::LeftDown => match mouse_target(output_area, rows, height, mouse.column as int, mouse.row as int) {
                    Some(ScrollbarMouseTarget::UpButton) => cleared && jumped_to_oldest(a, b, output_area),
                    Some(ScrollbarMouseTarget::DownButton) => cleared && followed_live(a, b),
                    Some(ScrollbarMouseTarget::Track(offset)) => cleared && track_pressed(a, b, offset, output_area),
                    None => released(a, b) && match output_position(a, output_area, mouse.column as int, mouse.row as int) {
                        Some(p) => s1.selection == Some(TextSelection { pane: SelectionPane::Output, anchor: p, cursor: p, active: true })
                            && s1.auto_scroll is None && s1.pending_clipboard == s0.pending_clipboard,
                        None => match status_position(status_texts_of(status@), status_area, mouse.column as int, mouse.row as int) {
                            Some(p) => s1.selection == Some(TextSelection { pane: SelectionPane::Status, anchor: p, cursor: p, active: true })
                                && s1.auto_scroll is None && s1.pending_clipboard == s0.pending_clipboard,
                            None => cleared,
                        },
                    },
                },
                MouseKind::LeftDrag => if a.dragging_scrollbar {
                    animated_toward(a, b, drag_offset(output_area, rows, height, mouse.row as int) as usize, output_area) && s1 == s0
                } else {
                    &&& s1.pending_clipboard == s0.pending_clipboard
                    &&& match s0.selection {
                        None => b == a && s1.selection == s0.selection && s1.auto_scroll == s0.auto_scroll,
                        Some(t) => match t.pane {
                            SelectionPane::Output => {
                                &&& edge_scrolled(a, b, output_area, edge_direction(output_area, mouse.row as int))
                                &&& s1.auto_scroll == edge_direction(output_area, mouse.row as int)
                                &&& s1.selection == cursor_moved(s0.selection, output_position(b, output_area, mouse.column as int, mouse.row as int))
                            },
                            SelectionPane::Status => {
                                &&& b == a
                                &&& s1.auto_scroll == s0.auto_scroll
                                &&& s1.selection == cursor_moved(s0.selection,
                                    status_position(status_texts_of(status@), status_area, mouse.column as int, mouse.row as int))
                            },
                        },
                    }
                },
                MouseKind::LeftUp => released(a, b) && s1.selection == finished(s0.selection) && s1.auto_scroll is None
                    && s1.pending_clipboard == s0.pending_clipboard,
                MouseKind::Other => restore_reset(a, b) && s1 == s0,
            }
        }),
{
    match mouse.kind {
        MouseKind::ScrollUp => app.scroll_up(output_area),
        MouseKind::ScrollDown => app.scroll_down(output_area),
        MouseKind::LeftDown => {
            let height = output_area.height.saturating_sub(2) as usize;
            let width = output_area.width.saturating_sub(2) as usize;
            let total = app.filtered_visual_row_count(width);
            match scrollbar_mouse_target(output_area, total, height, mouse.column, mouse.row) {
                Some(ScrollbarMouseTarget::UpButton) => {
                    sel.clear_selection();
                    app.jump_to_oldest_visible(output_area);
                },
                Some(ScrollbarMouseTarget::DownButton) => {
                    sel.clear_selection();
                    app.restore_auto_follow();
                },
                Some(ScrollbarMouseTarget::Track(offset)) => {
                    sel.clear_selection();
                    app.dragging_scrollbar = true;
                    app.animate_to_scroll_offset(offset, output_area);
                },
                None => {
                    app.dragging_scrollbar = false;
                    if start_text_selection(app, sel, output_area, status_area, status, mouse) {
                        app.reset_empty_enter_restore();
                    } else {
                        sel.clear_selection();
                        app.reset_empty_enter_restore();
                    }
                },
            }
        },
        MouseKind::LeftDrag => {
            if app.dragging_scrollbar {
                let height = output_area.height.saturating_sub(2) as usize;
                let width = output_area.width.saturating_sub(2) as usize;
                let total = app.filtered_visual_row_count(width);
                let offset = scrollbar_offset_from_drag_row(output_area, total, height, mouse.row);
                app.animate_to_scroll_offset(offset, output_area);
            } else {
                update_text_selection(app, sel, output_area, status_area, status, mouse);
            }
        },
        MouseKind::LeftUp => {
            app.dragging_scrollbar = false;
            sel.auto_scroll = None;
            finish_text_selection(sel);
            app.reset_empty_enter_restore();
        },
        MouseKind::Other => app.reset_empty_enter_restore(),
    }
}

/// The text a selection covers: in the output pane's rows, or in the
/// status rows.
pub open spec fn selection_text(t: TextSelection, app: App, output_area: OutputArea, status: Seq<StatusRow>) -> Seq<char> {
    match t.pane {
        SelectionPane::Output => selected_chars(t, app_rows(app, sat_sub(output_area.width as int, 2)).map_values(|v: RowView| row_chars(v))),
        SelectionPane::Status => selected_chars(t, status_texts_of(status)),
    }
}

/// Takes the selected text for the clipboard and says how many
/// characters it holds; says there is no selection when nothing is
/// selected.
pub fn request_copy_selection(app: &mut App, sel: &mut SelectionState, output_area: OutputArea, status: &[StatusRow])
    ensures
        final(app).same_content(&*old(app)),
        final(app).scroll_offset == old(app).scroll_offset,
        final(app).scroll_target_offset == old(app).scroll_target_offset,
        final(app).empty_enter_restore_count == old(app).empty_enter_restore_count,
        final(app).dragging_scrollbar == old(app).dragging_scrollbar,
        final(sel).selection == old(sel).selection,
        final(sel).auto_scroll == old(sel).auto_scroll,
        match old(sel).selection {
            None => final(app).status@ == "copy: no selection"@ && final(sel).pending_clipboard == old(sel).pending_clipboard,
            Some(t) => {
                let text = selection_text(t, *old(app), output_area, status@);
                if text.len() == 0 {
                    final(app).status@ == "copy: no selection"@ && final(sel).pending_clipboard == old(sel).pending_clipboard
                } else {
                    &&& final(app).status@ == "copy: selected "@ + decimal_chars(text.len()) + " chars"@
                    &&& final(sel).pending_clipboard matches Some(c) && c@ == text
                }
            },
        },
{
    let t = match sel.selection {
        Some(t) => t,
        None => {
            app.status = "copy: no selection".to_owned();
            return;
        },
    };
    let selected = match t.pane {
        SelectionPane::Output => {
            let model = output_render_model(app, output_area);
            selected_output_text(&t, model.rows.as_slice())
        },
        SelectionPane::Status => selected_status_text(&t, status),
    };
    let n = str_chars(selected.as_str()).len();
    if n == 0 {
        app.status = "copy: no selection".to_owned();
        return;
    }
    let mut msg = "copy: selected ".to_owned();
    let d = crate::text::decimal_string(n as u64);
    push_str(&mut msg, d.as_str());
    push_str(&mut msg, " chars");
    app.status = msg;
    sel.pending_clipboard = Some(selected);
}

/// One step of scrolling while a selection is dragged past the output
/// pane's edge: scrolls a row and moves the selection's cursor along;
/// stops when the view can go no further. Whether it moved.
pub fn advance_selection_auto_scroll(app: &mut App, sel: &mut SelectionState, output_area: OutputArea) -> (r: bool)
    ensures
        match old(sel).auto_scroll {
            None => !r && *final(app) == *old(app) && final(sel).selection == old(sel).selection && final(sel).auto_scroll is None,
            Some(d) => {
                &&& edge_scrolled(*old(app), *final(app), output_area, Some(d))
                &&& r == (final(app).scroll_offset != old(app).scroll_offset)
                &&& !r ==> final(sel).auto_scroll is None && final(sel).selection == old(sel).selection
                &&& r ==> final(sel).auto_scroll == old(sel).auto_scroll && final(sel).selection == match old(sel).selection {
                    Some(t) => if t.pane == SelectionPane::Output {
                        Some(TextSelection {
                            cursor: SelectionPosition {
                                row: (match d {
                                    SelectionAutoScroll::Up => sat_sub(t.cursor.row as int, 1),
                                    SelectionAutoScroll::Down => min_nat(
                                        if t.cursor.row as int + 1 > usize::MAX { usize::MAX as int } else { t.cursor.row as int + 1 },
                                        sat_sub(final(app).rows_at(content_width(output_area)), 1),
                                    ),
                                }) as usize,
                                ..t.cursor
                            },
                            ..t
                        })
                    } else {
                        Some(t)
                    },
                    None => None,
                }
            },
        },
        final(sel).pending_clipboard == old(sel).pending_clipboard,
{
    let direction = match sel.auto_scroll {
        Some(d) => d,
        None => {
            return false;
        },
    };
    let before = app.scroll_offset;
    match direction {
        SelectionAutoScroll::Up => app.scroll_up_by(output_area, 1),
        SelectionAutoScroll::Down => app.scroll_down_by(output_area, 1),
    }
    let moved = app.scroll_offset != before;
    if moved {
        let width = output_area.width.saturating_sub(2) as usize;
        let max_row = app.filtered_visual_row_count(width).saturating_sub(1);
        match sel.selection {
            Some(t) => {
                if t.pane == SelectionPane::Output {
                    let row = match direction {
                        SelectionAutoScroll::Up => t.cursor.row.saturating_sub(1),
                        SelectionAutoScroll::Down => {
                            let up = t.cursor.row.saturating_add(1);
                            if up < max_row { up } else { max_row }
                        },
                    };
                    sel.selection = Some(TextSelection { cursor: SelectionPosition { row, ..t.cursor }, ..t });
                }
            },
            None => {},
        }
    } else {
        sel.auto_scroll = None;
    }
    moved
}

// ---------------------------------------------------------------------
// A burst of terminal events

/// A terminal event as the interface reads it.
#[derive(Clone, Copy, Debug, PartialEq, Eq, Structural)]
pub enum TerminalInput {
    Key(TerminalKey),
    Mouse(MouseInput),
    Other,
}

/// What to do for a burst of events, in order: scroll by a run of wheel
/// turns, handle a mouse event, or handle a key.
#[derive(Clone, Copy, Debug, PartialEq, Eq, Structural)]
pub enum BurstStep {
    Wheel(WheelDirection, usize),
    Mouse(MouseInput),
    Key(TerminalKey),
}

pub open spec fn wheel_of(m: MouseInput) -> Option<WheelDirection> {
    match m.kind {
        MouseKind::ScrollUp => Some(WheelDirection::Up),
        MouseKind::ScrollDown => Some(WheelDirection::Down),
        _ => None,
    }
}

pub open spec fn flushed(run: Option<(WheelDirection, usize)>) -> Seq<BurstStep> {
    match run {
        Some((d, c)) => seq![BurstStep::Wheel(d, c)],
        None => Seq::empty(),
    }
}

/// The steps for events after a run of wheel turns: turns of the wheel
/// in one direction run together; any other event ends the run.
pub open spec fn burst_from(events: Seq<TerminalInput>, run: Option<(WheelDirection, usize)>) -> Seq<BurstStep>
    decreases events.len(),
{
    if events.len() == 0 {
        flushed(run)
    } else {
        let rest = events.drop_first();
        match events[0] {
            TerminalInput::Mouse(m) => match wheel_of(m) {
                Some(d) => match run {
                    Some((d0, c)) => if d0 == d {
                        burst_from(rest, Some((d, if c < usize::MAX { (c + 1) as usize } else { usize::MAX })))
                    } else {
                        flushed(run) + burst_from(rest, Some((d, 1usize)))
                    },
                    None => burst_from(rest, Some((d, 1usize))),
                },
                None => flushed(run) + seq![BurstStep::Mouse(m)] + burst_from(rest, None),
            },
            TerminalInput::Key(k) => flushed(run) + seq![BurstStep::Key(k)] + burst_from(rest, None),
            TerminalInput::Other => flushed(run) + burst_from(rest, None),
        }
    }
}

/// The steps for a burst of terminal events.
pub fn burst_steps(events: &[TerminalInput]) -> (r: Vec<BurstStep>)
    ensures
        r@ == burst_from(events@, None),
{
    let mut out: Vec<BurstStep> = Vec::new();
    let mut run: Option<(WheelDirection, usize)> = None;
    let mut i: usize = 0;
    assert(events@.skip(0) =~= events@);
    while i < events.len()
        invariant
            i <= events@.len(),
            out@ + burst_from(events@.skip(i as int), run) == burst_from(events@, None),
        decreases events@.len() - i,
    {
        let ghost rest = events@.skip(i as int);
        assert(rest.drop_first() =~= events@.skip(i as int + 1));
        assert(rest[0] == events@[i as int]);
        let ghost before = out@;
        match events[i] {
            TerminalInput::Mouse(m) => match mouse_wheel_direction(&m) {
                Some(d) => match run {
                    Some((d0, c)) => {
                        if d0 == d {
                            run = Some((d, c.saturating_add(1)));
                        } else {
                            out.push(BurstStep::Wheel(d0, c));
                            run = Some((d, 1));
                            assert(out@ =~= before + flushed(Some((d0, c))));
                        }
                    },
                    None => {
                        run = Some((d, 1));
                    },
                },
                None => {
                    match run {
                        Some((d0, c)) => out.push(BurstStep::Wheel(d0, c)),
                        None => {},
                    }
                    let ghost flushed_out = out@;
                    assert(flushed_out =~= before + flushed(run));
                    out.push(BurstStep::Mouse(m));
                    assert(out@ =~= before + flushed(run) + seq![BurstStep::Mouse(m)]);
                    run = None;
                },
            },
            TerminalInput::Key(k) => {
                match run {
                    Some((d0, c)) => out.push(BurstStep::Wheel(d0, c)),
                    None => {},
                }
                assert(out@ =~= before + flushed(run));
                out.push(BurstStep::Key(k));
                assert(out@ =~= before + flushed(run) + seq![BurstStep::Key(k)]);
                run = None;
            },
            TerminalInput::Other => {
                match run {
                    Some((d0, c)) => out.push(BurstStep::Wheel(d0, c)),
                    None => {},
                }
                assert(out@ =~= before + flushed(run));
                run = None;
            },
        }
        i = i + 1;
    }
    assert(events@.skip(i as int) =~= Seq::<TerminalInput>::empty());
    let ghost before = out@;
    match run {
        Some((d0, c)) => out.push(BurstStep::Wheel(d0, c)),
        None => {},
    }
    assert(out@ =~= before + flushed(run));
    out
}

// ---------------------------------------------------------------------
// Timing

/// The earliest of the instants the loop waits for: the reconnect (when
/// one is pending), the end of the escape window, the next frame. Instants
/// are milliseconds on one clock.
pub open spec fn earliest(reconnect_pending: bool, reconnect_at: u64, escape_at: Option<u64>, render_at: Option<u64>) -> Option<u64> {
    let a = if reconnect_pending { Some(reconnect_at) } else { None };
    let ab = match (a, escape_at) {
        (Some(x), Some(y)) => Some(if x <= y { x } else { y }),
        (Some(x), None) => Some(x),
        (None, y) => y,
    };
    match (ab, render_at) {
        (Some(x), Some(y)) => Some(if x <= y { x } else { y }),
        (Some(x), None) => Some(x),
        (None, y) => y,
    }
}

pub fn next_deadline(reconnect_pending: bool, reconnect_at: u64, escape_at: Option<u64>, render_at: Option<u64>) -> (r: Option<u64>)
    ensures
        r == earliest(reconnect_pending, reconnect_at, escape_at, render_at),
{
    let a = if reconnect_pending { Some(reconnect_at) } else { None };
    let ab = match (a, escape_at) {
        (Some(x), Some(y)) => Some(if x <= y { x } else { y }),
        (Some(x), None) => Some(x),
        (None, y) => y,
    };
    match (ab, render_at) {
        (Some(x), Some(y)) => Some(if x <= y { x } else { y }),
        (Some(x), None) => Some(x),
        (None, y) => y,
    }
}

} // verus!
